//! Whole runs of a transaction against the model of the file system: the
//! engine asks, the model answers and changes, and the engine goes on.

use vstd::prelude::*;
use crate::action::{ActionView, EventView};
use crate::engine::{Stage, TransactionView};
use crate::action::PathStatus;
use crate::kcli::CliView;
use crate::kfs::{resolve, targets, EntryView};
use crate::laws::walking;
use crate::plan::{
    backup_plan, cleanup_plan, conflicts, failure_view, link_plan, paths_under, restore_plan,
};
use crate::laws::{detect, lemma_installed};
use crate::rollback::{
    clearing, installed_up_to, lemma_rollback_restores, lemma_scene_places, reversed, Scene,
};
use crate::world::{lists, Node};
use crate::world::{apply_all, effect, observe, World};

verus! {

/// What the model cannot tell from the file system alone.
pub struct Oracle {
    /// What a listing gives, for each directory that can be listed.
    pub listings: Map<Seq<char>, Seq<Seq<char>>>,
    /// The user's answer.
    pub yes: bool,
    /// The targets at which no link can be created.
    pub fails: Set<Seq<char>>,
    /// The text of a failure.
    pub reason: Seq<char>,
}

/// The outcome of `action` in `w`.
pub open spec fn respond(w: World, action: ActionView, o: Oracle) -> EventView {
    match action {
        ActionView::ListDir { dir } => if o.listings.contains_key(dir) {
            EventView::Listing(o.listings[dir])
        } else {
            EventView::Failed(o.reason)
        },
        ActionView::Probe { paths } => EventView::Statuses(observe(w, paths)),
        ActionView::Prompt { message } => EventView::Answer(o.yes),
        ActionView::Symlink { source, target } => if o.fails.contains(target) {
            EventView::Failed(o.reason)
        } else {
            EventView::Done
        },
        _ => EventView::Done,
    }
}

/// The file system after `action` was tried in `w`: a request that failed
/// has changed nothing.
pub open spec fn performed(w: World, action: ActionView, o: Oracle) -> World {
    if respond(w, action, o) is Failed {
        w
    } else {
        effect(w, action)
    }
}

/// Where a run stands: the transaction, the request it has made, and the
/// file system.
pub struct Position {
    pub state: TransactionView,
    pub action: ActionView,
    pub world: World,
}

/// The position after one request was tried and answered.
pub open spec fn next(p: Position, o: Oracle) -> Position {
    let (state, action) = p.state.step(respond(p.world, p.action, o));
    Position { state, action, world: performed(p.world, p.action, o) }
}

/// Whether the run has ended.
pub open spec fn ended(p: Position) -> bool {
    p.action is Succeed || p.action is Fail
}

/// The position after at most `steps` requests; a run that has ended stays
/// where it is.
pub open spec fn run(p: Position, o: Oracle, steps: nat) -> Position
    decreases steps,
{
    if steps == 0 || ended(p) {
        p
    } else {
        run(next(p, o), o, (steps - 1) as nat)
    }
}

/// Whether `action` is done when it is tried: a move, a removal, or a link
/// at a target where links can be created.
pub open spec fn quiet(action: ActionView, o: Oracle) -> bool {
    match action {
        ActionView::MoveDir { .. } => true,
        ActionView::MoveFile { .. } => true,
        ActionView::RemoveDir { .. } => true,
        ActionView::RemoveFile { .. } => true,
        ActionView::Symlink { source, target } => !o.fails.contains(target),
        _ => false,
    }
}

/// To perform a plan is to perform its first request and then the rest.
pub proof fn lemma_apply_first(w: World, plan: Seq<ActionView>)
    requires
        plan.len() > 0,
    ensures
        apply_all(w, plan) == apply_all(effect(w, plan[0]), plan.drop_first()),
    decreases plan.len(),
{
    if plan.len() == 1 {
        assert(plan.drop_last() =~= Seq::<ActionView>::empty());
        assert(plan.drop_first() =~= Seq::<ActionView>::empty());
        assert(apply_all(w, Seq::<ActionView>::empty()) == w);
    } else {
        lemma_apply_first(w, plan.drop_last());
        assert(plan.drop_first().drop_last() =~= plan.drop_last().drop_first());
        assert(plan.drop_last()[0] == plan[0]);
        assert(plan.drop_first().last() == plan.last());
    }
}

/// A run that has `more` steps to go after `steps` steps can be taken in
/// two parts.
pub proof fn lemma_run_split(p: Position, o: Oracle, steps: nat, more: nat)
    ensures
        run(p, o, steps + more) == run(run(p, o, steps), o, more),
    decreases steps,
{
    if steps == 0 {
    } else if ended(p) {
        lemma_run_ended(p, o, more);
    } else {
        lemma_run_split(next(p, o), o, (steps - 1) as nat, more);
    }
}

/// A run that has ended stays where it is.
pub proof fn lemma_run_ended(p: Position, o: Oracle, steps: nat)
    requires
        ended(p),
    ensures
        run(p, o, steps) == p,
{
}

/// The transaction in the middle of its plan, at the request `at`.
pub open spec fn at_request(t: TransactionView, at: int) -> TransactionView {
    TransactionView { cursor: at as nat, pending: t.plan[at], ..t }
}

/// Law: a transaction that goes through a plan whose requests are done one
/// after the other comes from the request `from` to the request `to` in
/// `to - from` steps, and the file system has then seen just those
/// requests.
pub proof fn lemma_run_walk(t: TransactionView, w: World, o: Oracle, from: int, to: int)
    requires
        walking(t.stage),
        0 <= from <= to < t.plan.len(),
        forall|i: int| from <= i < to ==> quiet(#[trigger] t.plan[i], o),
    ensures
        run(
            Position { state: at_request(t, from), action: t.plan[from], world: w },
            o,
            (to - from) as nat,
        ) == (Position {
            state: at_request(t, to),
            action: t.plan[to],
            world: apply_all(w, t.plan.subrange(from, to)),
        }),
    decreases to - from,
{
    let start = Position { state: at_request(t, from), action: t.plan[from], world: w };
    if from == to {
        assert(t.plan.subrange(from, to) =~= Seq::<ActionView>::empty());
    } else {
        assert(quiet(t.plan[from], o));
        assert(respond(w, t.plan[from], o) == EventView::Done);
        assert(at_request(t, from).has_next());
        let after = next(start, o);
        assert(after.state =~= at_request(t, from + 1));
        assert(after.action == t.plan[from + 1]);
        assert(after.world == effect(w, t.plan[from]));
        lemma_run_walk(t, after.world, o, from + 1, to);
        let part = t.plan.subrange(from, to);
        lemma_apply_first(w, part);
        assert(part.drop_first() =~= t.plan.subrange(from + 1, to));
        assert(at_request(at_request(t, from + 1), to) =~= at_request(t, to));
    }
}

/// Whether every request of `plan` is done when it is tried.
pub open spec fn all_quiet(plan: Seq<ActionView>, o: Oracle) -> bool {
    forall|i: int| 0 <= i < plan.len() ==> quiet(#[trigger] plan[i], o)
}

/// Law: a transaction that stands at the start of a plan whose requests
/// are all done goes through the whole plan in as many steps as the plan
/// has requests. The file system has then seen the whole plan, and the
/// transaction has taken the step that follows the last request.
pub proof fn lemma_run_phase(p: Position, o: Oracle)
    requires
        walking(p.state.stage),
        p.state.plan.len() > 0,
        p.state.cursor == 0,
        p.state.pending == p.state.plan[0],
        p.action == p.state.plan[0],
        all_quiet(p.state.plan, o),
    ensures
        ({
            let last = at_request(p.state, p.state.plan.len() - 1);
            let (state, action) = last.step(EventView::Done);
            run(p, o, p.state.plan.len()) == (Position {
                state,
                action,
                world: apply_all(p.world, p.state.plan),
            })
        }),
{
    let t = p.state;
    let plan = t.plan;
    let end = plan.len() - 1;
    assert(at_request(t, 0) =~= t);
    lemma_run_walk(t, p.world, o, 0, end);
    let before = Position {
        state: at_request(t, end),
        action: plan[end],
        world: apply_all(p.world, plan.subrange(0, end)),
    };
    assert(run(p, o, end as nat) == before);
    lemma_run_split(p, o, end as nat, 1);
    assert(quiet(plan[end], o));
    assert(respond(before.world, plan[end], o) == EventView::Done);
    assert(plan.drop_last() =~= plan.subrange(0, end));
    assert(run(next(before, o), o, 0) == next(before, o));
    assert(run(before, o, 1) == next(before, o));
}

/// Every request of a backup is a move.
pub proof fn lemma_backup_plan_quiet(
    entries: Seq<EntryView>,
    statuses: Seq<PathStatus>,
    backup_dir: Seq<char>,
    force: bool,
    o: Oracle,
)
    ensures
        all_quiet(backup_plan(entries, statuses, backup_dir, force), o),
    decreases entries.len(),
{
    if entries.len() > 0 {
        lemma_backup_plan_quiet(entries.drop_last(), statuses, backup_dir, force, o);
    }
}

/// Every request of a restore is a move.
pub proof fn lemma_restore_plan_quiet(
    names: Seq<Seq<char>>,
    statuses: Seq<PathStatus>,
    backup_dir: Seq<char>,
    install_dir: Seq<char>,
    force: bool,
    o: Oracle,
)
    ensures
        all_quiet(restore_plan(names, statuses, backup_dir, install_dir, force), o),
{
}

/// Every request of a cleanup is a removal.
pub proof fn lemma_cleanup_plan_quiet(
    names: Seq<Seq<char>>,
    statuses: Seq<PathStatus>,
    install_dir: Seq<char>,
    original: Seq<Seq<char>>,
    o: Oracle,
)
    ensures
        all_quiet(cleanup_plan(names, statuses, install_dir, original), o),
    decreases names.len(),
{
    if names.len() > 0 {
        lemma_cleanup_plan_quiet(names.drop_last(), statuses, install_dir, original, o);
    }
}

/// A run that has not ended takes one step and goes on.
pub proof fn lemma_run_more(p: Position, o: Oracle, steps: nat)
    requires
        !ended(p),
    ensures
        run(p, o, steps + 1) == run(next(p, o), o, steps),
{
}

/// A run that has not ended and has one step to go takes that step.
pub proof fn lemma_run_one(p: Position, o: Oracle)
    requires
        !ended(p),
    ensures
        run(p, o, 1) == next(p, o),
{
    assert(run(next(p, o), o, 0) == next(p, o));
}

/// Whether two transactions are set on the same directories, with the
/// same conflicts on record and the same error to end with.
pub open spec fn same_setting(a: TransactionView, b: TransactionView) -> bool {
    &&& a.install_dir == b.install_dir
    &&& a.source_dir == b.source_dir
    &&& a.backup_dir == b.backup_dir
    &&& a.force == b.force
    &&& a.rollback == b.rollback
    &&& a.conflicts == b.conflicts
    &&& a.failure == b.failure
}

/// What the restore of a reversal asks for, in the file system `now`.
pub open spec fn restore_requests(b: TransactionView, now: World, o: Oracle) -> Seq<ActionView> {
    let held = o.listings[b.backup_dir];
    restore_plan(
        held,
        observe(now, paths_under(b.backup_dir, held)),
        b.backup_dir,
        b.install_dir,
        b.force,
    )
}

/// What the cleanup of a reversal asks for, in the file system `now`.
pub open spec fn cleanup_requests(b: TransactionView, now: World, o: Oracle) -> Seq<ActionView> {
    let names = o.listings[b.source_dir];
    cleanup_plan(
        names,
        observe(now, paths_under(b.install_dir, names)),
        b.install_dir,
        b.conflicts,
    )
}

/// The first half of a reversal: the backup directory is listed and looked
/// at, and its entries are moved back; then the source directory is to be
/// listed.
pub proof fn lemma_run_restore(b: TransactionView, now: World, o: Oracle)
    requires
        o.listings.contains_key(b.backup_dir),
    ensures
        ({
            let (state, action) = b.start_rollback();
            let plan = restore_requests(b, now, o);
            let end = run(Position { state, action, world: now }, o, 2 + plan.len());
            &&& end.world == apply_all(now, plan)
            &&& end.action == ActionView::ListDir { dir: b.source_dir }
            &&& end.state.stage == Stage::ListingSource
            &&& same_setting(end.state, b)
        }),
{
    let (state, action) = b.start_rollback();
    let p0 = Position { state, action, world: now };
    let held = o.listings[b.backup_dir];
    let plan = restore_requests(b, now, o);
    let p1 = next(p0, o);
    assert(p1.action == ActionView::Probe { paths: paths_under(b.backup_dir, held) });
    assert(p1.world == now);
    let p2 = next(p1, o);
    assert(p2.world == now);
    lemma_run_more(p0, o, 1 + plan.len());
    lemma_run_more(p1, o, plan.len());
    assert(run(p0, o, 2 + plan.len()) == run(p2, o, plan.len()));
    if plan.len() == 0 {
        assert(apply_all(now, plan) == now);
    } else {
        lemma_restore_plan_quiet(
            held,
            observe(now, paths_under(b.backup_dir, held)),
            b.backup_dir,
            b.install_dir,
            b.force,
            o,
        );
        lemma_run_phase(p2, o);
    }
}

/// The second half of a reversal: the source directory is listed, the
/// places of its configurations are looked at, and those that the run has
/// added are cleared; then the run ends.
pub proof fn lemma_run_cleanup(b: TransactionView, now: World, o: Oracle)
    requires
        b.stage == Stage::ListingSource,
        o.listings.contains_key(b.source_dir),
    ensures
        ({
            let plan = cleanup_requests(b, now, o);
            let start = Position {
                state: b,
                action: ActionView::ListDir { dir: b.source_dir },
                world: now,
            };
            let end = run(start, o, 2 + plan.len());
            &&& end.world == apply_all(now, plan)
            &&& end.action == match b.failure {
                Some(e) => ActionView::Fail(e),
                None => ActionView::Succeed,
            }
            &&& end.state.stage == Stage::Finished
            &&& same_setting(end.state, b)
        }),
{
    let names = o.listings[b.source_dir];
    let plan = cleanup_requests(b, now, o);
    let p0 = Position { state: b, action: ActionView::ListDir { dir: b.source_dir }, world: now };
    let p1 = next(p0, o);
    assert(p1.action == ActionView::Probe { paths: paths_under(b.install_dir, names) });
    assert(p1.world == now);
    let p2 = next(p1, o);
    assert(p2.world == now);
    lemma_run_more(p0, o, 1 + plan.len());
    lemma_run_more(p1, o, plan.len());
    assert(run(p0, o, 2 + plan.len()) == run(p2, o, plan.len()));
    if plan.len() == 0 {
        assert(apply_all(now, plan) == now);
    } else {
        lemma_cleanup_plan_quiet(
            names,
            observe(now, paths_under(b.install_dir, names)),
            b.install_dir,
            b.conflicts,
            o,
        );
        lemma_run_phase(p2, o);
    }
}

/// Law: a reversal runs to its end. It moves back what the backup
/// directory holds and clears what the run has added, and ends with the
/// error of the installation that it rolls back, or well if there is
/// none.
pub proof fn lemma_run_reversal(b: TransactionView, now: World, o: Oracle)
    requires
        o.listings.contains_key(b.backup_dir),
        o.listings.contains_key(b.source_dir),
    ensures
        ({
            let (state, action) = b.start_rollback();
            let restore = restore_requests(b, now, o);
            let restored = apply_all(now, restore);
            let cleanup = cleanup_requests(b, restored, o);
            let end = run(
                Position { state, action, world: now },
                o,
                4 + restore.len() + cleanup.len(),
            );
            &&& end.world == apply_all(restored, cleanup)
            &&& end.action == match b.failure {
                Some(e) => ActionView::Fail(e),
                None => ActionView::Succeed,
            }
            &&& end.state.stage == Stage::Finished
            &&& same_setting(end.state, b)
        }),
{
    let (state, action) = b.start_rollback();
    let p0 = Position { state, action, world: now };
    let restore = restore_requests(b, now, o);
    let restored = apply_all(now, restore);
    lemma_run_restore(b, now, o);
    let half = run(p0, o, 2 + restore.len());
    let cleanup = cleanup_requests(half.state, restored, o);
    assert(cleanup == cleanup_requests(b, restored, o));
    lemma_run_cleanup(half.state, restored, o);
    lemma_run_split(p0, o, 2 + restore.len(), 2 + cleanup.len());
    assert(half == (Position {
        state: half.state,
        action: ActionView::ListDir { dir: half.state.source_dir },
        world: restored,
    }));
}

/// A backup has a request for every conflict.
pub proof fn lemma_backup_plan_len(
    entries: Seq<EntryView>,
    statuses: Seq<PathStatus>,
    backup_dir: Seq<char>,
    force: bool,
)
    ensures
        backup_plan(entries, statuses, backup_dir, force).len() == conflicts(
            entries,
            statuses,
        ).len(),
    decreases entries.len(),
{
    if entries.len() > 0 {
        lemma_backup_plan_len(entries.drop_last(), statuses, backup_dir, force);
    }
}

/// What the engine has on record once it has seen the targets in `w`.
pub open spec fn informed(t: TransactionView, args: CliView, names: Seq<Seq<char>>, w: World)
    -> bool {
    let entries = resolve(args.install_dir, args.source_dir(), names);
    &&& t.install_dir == args.install_dir
    &&& t.source_dir == args.source_dir()
    &&& t.backup_dir == args.backup_dir.unwrap()
    &&& t.force == args.force
    &&& t.entries == entries
    &&& t.statuses == observe(w, targets(entries))
    &&& t.conflicts == conflicts(entries, t.statuses)
    &&& t.failure.is_none()
}

/// The first part of a run: the source directory is listed and the
/// targets are looked at; with conflicts and without `force` the user is
/// asked and agrees. Nothing has changed then, and the backup is about to
/// begin.
pub proof fn lemma_run_detect(args: CliView, names: Seq<Seq<char>>, w: World, o: Oracle)
    requires
        args.ready(),
        !args.is_repo,
        o.listings.contains_key(args.source_dir()),
        o.listings[args.source_dir()] == names,
        args.force || o.yes,
    ensures
        ({
            let (state, action) = TransactionView::begin(args);
            let entries = resolve(args.install_dir, args.source_dir(), names);
            let found = conflicts(entries, observe(w, targets(entries)));
            let steps: nat = if found.len() > 0 && !args.force {
                3
            } else {
                2
            };
            let end = run(Position { state, action, world: w }, o, steps);
            &&& end.world == w
            &&& informed(end.state, args, names, w)
            &&& end.state.rollback
            &&& (end.state, end.action) == end.state.start_backup()
        }),
{
    let (state, action) = TransactionView::begin(args);
    let entries = resolve(args.install_dir, args.source_dir(), names);
    let seen = observe(w, targets(entries));
    let found = conflicts(entries, seen);
    let p0 = Position { state, action, world: w };
    let p1 = next(p0, o);
    assert(p1.action == ActionView::Probe { paths: targets(entries) });
    let p2 = next(p1, o);
    lemma_run_more(p0, o, 1);
    lemma_backup_plan_len(entries, seen, args.backup_dir.unwrap(), args.force);
    if found.len() > 0 && !args.force {
        let p3 = next(p2, o);
        lemma_run_more(p0, o, 2);
        lemma_run_more(p1, o, 1);
        lemma_run_one(p2, o);
        assert(p3.state.start_backup().0 =~= p3.state);
    } else {
        lemma_run_one(p1, o);
        assert(p2.state.start_backup().0 =~= p2.state);
    }
}

/// Whether two transactions agree in all but where they stand in which
/// plan.
pub open spec fn same_record(a: TransactionView, b: TransactionView) -> bool {
    &&& same_setting(a, b)
    &&& a.entries == b.entries
    &&& a.statuses == b.statuses
}

/// The backup of a run: every conflict is moved to the backup directory,
/// and the installation is about to begin.
pub proof fn lemma_run_backup(p: Position, o: Oracle)
    requires
        (p.state, p.action) == p.state.start_backup(),
    ensures
        ({
            let t = p.state;
            let plan = backup_plan(t.entries, t.statuses, t.backup_dir, t.force);
            let end = run(p, o, plan.len());
            &&& end.world == apply_all(p.world, plan)
            &&& same_record(end.state, t)
            &&& (end.state, end.action) == end.state.start_links()
        }),
{
    let t = p.state;
    let plan = backup_plan(t.entries, t.statuses, t.backup_dir, t.force);
    if plan.len() == 0 {
        assert(apply_all(p.world, plan) == p.world);
        assert(t.start_links().0 =~= t);
    } else {
        lemma_backup_plan_quiet(t.entries, t.statuses, t.backup_dir, t.force, o);
        lemma_run_phase(p, o);
        let end = run(p, o, plan.len());
        assert(end.state.start_links().0 =~= end.state);
    }
}

/// Whether links can be created at the targets of the first `k` entries.
pub open spec fn linkable(entries: Seq<EntryView>, k: int, o: Oracle) -> bool {
    forall|i: int| 0 <= i < k ==> !o.fails.contains(#[trigger] entries[i].target)
}

/// The installation of a run in which every link can be created: every
/// link is created, and the run ends well.
pub proof fn lemma_run_links(p: Position, o: Oracle)
    requires
        (p.state, p.action) == p.state.start_links(),
        linkable(p.state.entries, p.state.entries.len() as int, o),
    ensures
        ({
            let plan = link_plan(p.state.entries);
            let end = run(p, o, plan.len());
            &&& end.world == apply_all(p.world, plan)
            &&& end.action == ActionView::Succeed
            &&& end.state.stage == Stage::Finished
            &&& same_record(end.state, p.state)
        }),
{
    let t = p.state;
    let plan = link_plan(t.entries);
    if plan.len() == 0 {
        assert(apply_all(p.world, plan) == p.world);
    } else {
        assert forall|i: int| 0 <= i < plan.len() implies quiet(#[trigger] plan[i], o) by {
            assert(!o.fails.contains(t.entries[i].target));
        }
        lemma_run_phase(p, o);
    }
}

/// The installation of a run in which the link of the entry `k` cannot be
/// created: the links before it are created; the link fails, its target is
/// looked at and cleared, and the link fails again. The run then ends with
/// the error of that link, or its rollback begins and keeps the error.
pub proof fn lemma_run_links_fail(p: Position, o: Oracle, k: int)
    requires
        (p.state, p.action) == p.state.start_links(),
        0 <= k < p.state.entries.len(),
        linkable(p.state.entries, k, o),
        o.fails.contains(p.state.entries[k].target),
    ensures
        ({
            let entry = p.state.entries[k];
            let made = apply_all(p.world, link_plan(p.state.entries.take(k)));
            let e = failure_view(
                ActionView::Symlink { source: entry.source, target: entry.target },
                o.reason,
            );
            let end = run(p, o, (k + 4) as nat);
            &&& end.world == effect(made, clearing(made, entry.target))
            &&& same_record(end.state, TransactionView { failure: end.state.failure, ..p.state })
            &&& if p.state.rollback {
                end.state.failure == Some(e) && (end.state, end.action)
                    == end.state.start_rollback()
            } else {
                end.action == ActionView::Fail(e) && end.state.stage == Stage::Finished
            }
        }),
{
    let t = p.state;
    let plan = link_plan(t.entries);
    let entry = t.entries[k];
    assert(at_request(t, 0) =~= t);
    assert forall|i: int| 0 <= i < k implies quiet(#[trigger] t.plan[i], o) by {
        assert(!o.fails.contains(t.entries[i].target));
    }
    lemma_run_walk(t, p.world, o, 0, k);
    assert(plan.subrange(0, k) =~= link_plan(t.entries.take(k)));
    let made = apply_all(p.world, link_plan(t.entries.take(k)));
    let q0 = Position { state: at_request(t, k), action: plan[k], world: made };
    assert(run(p, o, k as nat) == q0);
    lemma_run_split(p, o, k as nat, 4);
    assert(q0.state.current_link() == Some((entry.source, entry.target)));
    let q1 = next(q0, o);
    assert(q1.world == made);
    assert(q1.action == ActionView::Probe { paths: seq![entry.target] });
    assert(q1.state.current_link() == Some((entry.source, entry.target)));
    let q2 = next(q1, o);
    assert(observe(made, seq![entry.target])[0] == crate::world::status_of(made, entry.target));
    assert(q2.action == clearing(made, entry.target));
    assert(q2.world == made);
    assert(q2.state.current_link() == Some((entry.source, entry.target)));
    let q3 = next(q2, o);
    assert(q3.world == effect(made, clearing(made, entry.target)));
    assert(q3.action == ActionView::Symlink { source: entry.source, target: entry.target });
    let q4 = next(q3, o);
    assert(q4.world == q3.world);
    lemma_run_more(q0, o, 3);
    lemma_run_more(q1, o, 2);
    lemma_run_more(q2, o, 1);
    lemma_run_one(q3, o);
    if t.rollback {
        assert(q4.state.start_rollback().0 =~= q4.state);
    }
}

/// The scene of a run with the settings `args` whose source directory
/// holds `names`.
pub open spec fn scene_of(args: CliView, names: Seq<Seq<char>>) -> Scene {
    Scene {
        install_dir: args.install_dir,
        source_dir: args.source_dir(),
        backup_dir: args.backup_dir.unwrap(),
        names,
        force: args.force,
    }
}

/// Whether the run from `p` has ended after `steps` steps, with `action`
/// as its last word and `world` as the file system.
pub open spec fn reaches(p: Position, o: Oracle, steps: nat, action: ActionView, world: World)
    -> bool {
    let end = run(p, o, steps);
    &&& end.state.stage == Stage::Finished
    &&& end.action == action
    &&& end.world == world
}

/// The position at the start of a full run with the settings `args`.
pub open spec fn start_of(args: CliView, w: World) -> Position {
    Position {
        state: TransactionView::begin(args).0,
        action: TransactionView::begin(args).1,
        world: w,
    }
}

/// What a run with the settings `args` may rely on in the file system `w`
/// and of its surroundings: the settings are complete and name a
/// directory; the scene is settled; the source directory lists as `names`;
/// and the run may go on where it meets conflicts.
pub open spec fn prepared(args: CliView, names: Seq<Seq<char>>, w: World, o: Oracle) -> bool {
    &&& args.ready()
    &&& !args.is_repo
    &&& scene_of(args, names).settled(w)
    &&& o.listings.contains_key(args.source_dir())
    &&& o.listings[args.source_dir()] == names
    &&& args.force || o.yes
}

/// Law: a run in which every request is done ends well. Every conflict
/// then lies in the backup directory, every target is a symbolic link to
/// its source, and the conflicts are on record.
pub proof fn lemma_run_installs(args: CliView, names: Seq<Seq<char>>, w: World, o: Oracle)
    requires
        prepared(args, names, w, o),
        linkable(scene_of(args, names).entries(), names.len() as int, o),
    ensures
        exists|steps: nat| #[trigger]
            reaches(
                start_of(args, w),
                o,
                steps,
                ActionView::Succeed,
                installed_up_to(scene_of(args, names), w, names.len() as int),
            ) && run(start_of(args, w), o, steps).state.conflicts == detect(
                w,
                scene_of(args, names).entries(),
            ),
        forall|i: int|
            0 <= i < names.len() ==> {
                let entry = #[trigger] scene_of(args, names).entries()[i];
                let world = installed_up_to(scene_of(args, names), w, names.len() as int);
                world.contains_key(entry.target) && world[entry.target] == (Node::Link {
                    to: entry.source,
                })
            },
{
    let scene = scene_of(args, names);
    let entries = scene.entries();
    let n = names.len() as int;
    lemma_scene_places(scene, w);
    let found = conflicts(entries, observe(w, targets(entries)));
    let first: nat = if found.len() > 0 && !args.force {
        3
    } else {
        2
    };
    let p0 = start_of(args, w);
    lemma_run_detect(args, names, w, o);
    let p1 = run(p0, o, first);
    let backup = backup_plan(entries, observe(w, targets(entries)), scene.backup_dir, scene.force);
    lemma_run_backup(p1, o);
    let p2 = run(p1, o, backup.len());
    lemma_run_links(p2, o);
    let links = link_plan(entries);
    let p3 = run(p2, o, links.len());
    lemma_run_split(p0, o, first, backup.len());
    lemma_run_split(p0, o, first + backup.len(), links.len());
    let steps = first + backup.len() + links.len();
    assert(run(p0, o, steps) == p3);
    assert(entries.take(n) =~= entries);
    let world = installed_up_to(scene, w, n);
    assert(p3.world == world);
    assert(reaches(p0, o, steps, ActionView::Succeed, world));
    let saved = apply_all(w, backup);
    assert forall|i: int, j: int| 0 <= i < j < entries.len() implies #[trigger] entries[i].target
        != #[trigger] entries[j].target by {
        assert(entries[i].target == scene.target(i));
        assert(entries[j].target == scene.target(j));
    }
    lemma_installed(saved, entries);
}

/// Law: a run in which a link cannot be created is rolled back, and leaves
/// the file system as it found it. The run ends with the error of that
/// link.
pub proof fn lemma_run_rolls_back(
    args: CliView,
    names: Seq<Seq<char>>,
    w: World,
    o: Oracle,
    k: int,
)
    requires
        prepared(args, names, w, o),
        0 <= k < names.len(),
        linkable(scene_of(args, names).entries(), k, o),
        o.fails.contains(scene_of(args, names).entries()[k].target),
        o.listings.contains_key(args.backup_dir.unwrap()),
        lists(
            o.listings[args.backup_dir.unwrap()],
            installed_up_to(scene_of(args, names), w, k),
            args.backup_dir.unwrap(),
        ),
    ensures
        exists|steps: nat| #[trigger]
            reaches(
                start_of(args, w),
                o,
                steps,
                ActionView::Fail(
                    failure_view(
                        ActionView::Symlink {
                            source: scene_of(args, names).entries()[k].source,
                            target: scene_of(args, names).entries()[k].target,
                        },
                        o.reason,
                    ),
                ),
                w,
            ),
{
    let scene = scene_of(args, names);
    let entries = scene.entries();
    lemma_scene_places(scene, w);
    let found = conflicts(entries, observe(w, targets(entries)));
    let first: nat = if found.len() > 0 && !args.force {
        3
    } else {
        2
    };
    let p0 = start_of(args, w);
    lemma_run_detect(args, names, w, o);
    let p1 = run(p0, o, first);
    let backup = backup_plan(entries, observe(w, targets(entries)), scene.backup_dir, scene.force);
    lemma_run_backup(p1, o);
    let p2 = run(p1, o, backup.len());
    lemma_run_links_fail(p2, o, k);
    let p3 = run(p2, o, (k + 4) as nat);
    let now = installed_up_to(scene, w, k);
    assert(p3.world == now);
    lemma_run_reversal(p3.state, now, o);
    let held = o.listings[scene.backup_dir];
    let restore = restore_requests(p3.state, now, o);
    let restored = apply_all(now, restore);
    let cleanup = cleanup_requests(p3.state, restored, o);
    let last = (4 + restore.len() + cleanup.len()) as nat;
    let p4 = run(p3, o, last);
    assert(p4.world == reversed(scene, w, now, held));
    lemma_rollback_restores(scene, w, k, held);
    lemma_run_split(p0, o, first, backup.len());
    lemma_run_split(p0, o, first + backup.len(), (k + 4) as nat);
    lemma_run_split(p0, o, first + backup.len() + (k + 4) as nat, last);
    let steps = first + backup.len() + (k + 4) as nat + last;
    assert(run(p0, o, steps) == p4);
    let e = failure_view(
        ActionView::Symlink { source: entries[k].source, target: entries[k].target },
        o.reason,
    );
    assert(reaches(p0, o, steps, ActionView::Fail(e), w));
}

/// Law: the reversal of a run that went well leaves the file system as it
/// was before the run, and ends well.
pub proof fn lemma_run_uninstalls(args: CliView, names: Seq<Seq<char>>, w: World, o: Oracle)
    requires
        prepared(args, names, w, o),
        args.conflicts == detect(w, scene_of(args, names).entries()),
        o.listings.contains_key(args.backup_dir.unwrap()),
        lists(
            o.listings[args.backup_dir.unwrap()],
            installed_up_to(scene_of(args, names), w, names.len() as int),
            args.backup_dir.unwrap(),
        ),
    ensures
        exists|steps: nat| #[trigger]
            reaches(
                Position {
                    state: TransactionView::begin_uninstall(args).0,
                    action: TransactionView::begin_uninstall(args).1,
                    world: installed_up_to(scene_of(args, names), w, names.len() as int),
                },
                o,
                steps,
                ActionView::Succeed,
                w,
            ),
{
    let scene = scene_of(args, names);
    let n = names.len() as int;
    let now = installed_up_to(scene, w, n);
    let b = TransactionView::initial(args, false);
    let held = o.listings[scene.backup_dir];
    lemma_run_reversal(b, now, o);
    let restore = restore_requests(b, now, o);
    let restored = apply_all(now, restore);
    let cleanup = cleanup_requests(b, restored, o);
    let steps = (4 + restore.len() + cleanup.len()) as nat;
    let p0 = Position {
        state: TransactionView::begin_uninstall(args).0,
        action: TransactionView::begin_uninstall(args).1,
        world: now,
    };
    assert(run(p0, o, steps).world == reversed(scene, w, now, held));
    lemma_rollback_restores(scene, w, n, held);
    assert(reaches(p0, o, steps, ActionView::Succeed, w));
}

} // verus!
