//! What holds of the engine, proved over the model of the file system.

use vstd::prelude::*;
use crate::action::{ActionView, EventView, PathStatus};
use crate::engine::{Stage, TransactionView};
use crate::kcli::{CliView, NormalizerView, Phase};
use crate::kfs::{
    entry_for, is_listing, lemma_resolve_listing, resolve, stash_requests, targets, EntryView,
};
use crate::kpath::{is_entry_name, join, lemma_final_name_of_join, lemma_join_injective};
use crate::plan::{
    aborted_view, backup_of, cleanup_plan, conflicts, failure_view, is_fresh,
    lemma_conflicts_members, link_of, link_plan, paths_under, restore_of, restore_plan,
};
use crate::world::{apply_all, effect, holds, lists, observe, status_of, Node, World};

verus! {

/// The targets that are occupied in `w`.
pub open spec fn detect(w: World, entries: Seq<EntryView>) -> Seq<Seq<char>> {
    conflicts(entries, observe(w, targets(entries)))
}

/// Law: the source of every configuration of a listing lies in the source
/// directory when it is resolved, and its target is its name placed in the
/// install directory.
pub proof fn lemma_sources_exist(
    w: World,
    install_dir: Seq<char>,
    source_dir: Seq<char>,
    names: Seq<Seq<char>>,
)
    requires
        lists(names, w, source_dir),
    ensures
        resolve(install_dir, source_dir, names).len() == names.len(),
        forall|i: int|
            0 <= i < names.len() ==> {
                let entry = #[trigger] resolve(install_dir, source_dir, names)[i];
                &&& w.contains_key(entry.source)
                &&& entry.source == join(source_dir, names[i])
                &&& entry.target == join(install_dir, names[i])
            },
{
    lemma_resolve_listing(install_dir, source_dir, names);
    assert forall|i: int| 0 <= i < names.len() implies w.contains_key(
        (#[trigger] resolve(install_dir, source_dir, names)[i]).source,
    ) by {
        assert(names.contains(names[i]));
        assert(crate::world::entries_under(w, source_dir).contains(names[i]));
    }
}

/// Law: detection changes nothing, so a second detection finds what the
/// first one found.
pub proof fn lemma_detection_repeats(w: World, entries: Seq<EntryView>)
    ensures
        effect(w, ActionView::Probe { paths: targets(entries) }) == w,
        detect(effect(w, ActionView::Probe { paths: targets(entries) }), entries) == detect(
            w,
            entries,
        ),
{
}

/// Law: a target at which only a link lies that leads nowhere is found as
/// a conflict.
pub proof fn lemma_broken_link_detected(w: World, entries: Seq<EntryView>, i: int)
    requires
        0 <= i < entries.len(),
        w.contains_key(entries[i].target),
        w[entries[i].target] is Link,
        !w.contains_key(w[entries[i].target]->to),
    ensures
        status_of(w, entries[i].target) == PathStatus::DanglingLink,
        detect(w, entries).contains(entries[i].target),
{
    let found = observe(w, targets(entries));
    assert(targets(entries)[i] == entries[i].target);
    assert(found[i] == PathStatus::DanglingLink);
    lemma_conflicts_members(entries, found, entries[i].target);
}

/// Law: a conflicting entry that is backed up and then restored lies at
/// its target as before, and the backup directory no longer holds it.
/// Where the backup directory held no entry of that name, nothing at all
/// has changed.
pub proof fn lemma_backup_restore_round_trip(
    w: World,
    install_dir: Seq<char>,
    source_dir: Seq<char>,
    backup_dir: Seq<char>,
    name: Seq<char>,
    force: bool,
)
    requires
        is_entry_name(name),
        w.contains_key(join(install_dir, name)),
        w.contains_key(install_dir),
        w.contains_key(backup_dir),
        join(install_dir, name) != join(backup_dir, name),
        join(install_dir, name) != backup_dir,
        join(backup_dir, name) != install_dir,
    ensures
        ({
            let entry = entry_for(install_dir, source_dir, name);
            let backed_up = effect(
                w,
                backup_of(entry, status_of(w, entry.target), backup_dir, force),
            );
            let place = join(backup_dir, name);
            let restored = effect(
                backed_up,
                restore_of(name, status_of(backed_up, place), backup_dir, install_dir, force),
            );
            &&& !backed_up.contains_key(entry.target)
            &&& backed_up.contains_key(place)
            &&& backed_up[place] == w[entry.target]
            &&& restored.contains_key(entry.target)
            &&& restored[entry.target] == w[entry.target]
            &&& !restored.contains_key(place)
            &&& !w.contains_key(place) ==> restored == w
        }),
{
    let entry = entry_for(install_dir, source_dir, name);
    let place = join(backup_dir, name);
    lemma_final_name_of_join(install_dir, name);
    lemma_final_name_of_join(backup_dir, name);
    let backed_up = effect(w, backup_of(entry, status_of(w, entry.target), backup_dir, force));
    assert(backed_up =~= w.remove(entry.target).insert(place, w[entry.target]));
    let restored = effect(
        backed_up,
        restore_of(name, status_of(backed_up, place), backup_dir, install_dir, force),
    );
    assert(restored =~= backed_up.remove(place).insert(entry.target, w[entry.target]));
    if !w.contains_key(place) {
        assert(restored =~= w);
    }
}

/// No target occurs twice.
pub open spec fn targets_unique(entries: Seq<EntryView>) -> bool {
    forall|i: int, j: int|
        0 <= i < j < entries.len() ==> #[trigger] entries[i].target != #[trigger] entries[j].target
}

/// Whether `path` is the target of one of `entries`.
pub open spec fn is_target(entries: Seq<EntryView>, path: Seq<char>) -> bool {
    exists|i: int| 0 <= i < entries.len() && #[trigger] entries[i].target == path
}

/// Law: after an installation in which every link was created, every
/// target is a symbolic link to its source, and nothing else has changed.
pub proof fn lemma_installed(w: World, entries: Seq<EntryView>)
    requires
        targets_unique(entries),
    ensures
        forall|i: int|
            0 <= i < entries.len() ==> {
                &&& apply_all(w, link_plan(entries)).contains_key(#[trigger] entries[i].target)
                &&& apply_all(w, link_plan(entries))[entries[i].target] == (Node::Link {
                    to: entries[i].source,
                })
            },
        forall|p: Seq<char>|
            !is_target(entries, p) ==> {
                &&& #[trigger] apply_all(w, link_plan(entries)).contains_key(p) == w.contains_key(
                    p,
                )
                &&& apply_all(w, link_plan(entries))[p] == w[p]
            },
    decreases entries.len(),
{
    if entries.len() > 0 {
        let shorter = entries.drop_last();
        let last = entries.last();
        assert(link_plan(entries).drop_last() =~= link_plan(shorter));
        assert(link_plan(entries).last() == link_of(last));
        lemma_installed(w, shorter);
        let before = apply_all(w, link_plan(shorter));
        let after = apply_all(w, link_plan(entries));
        assert(after == before.insert(last.target, Node::Link { to: last.source }));
        assert forall|i: int| 0 <= i < entries.len() implies {
            &&& after.contains_key(#[trigger] entries[i].target)
            &&& after[entries[i].target] == (Node::Link { to: entries[i].source })
        } by {
            if i < shorter.len() {
                assert(shorter[i] == entries[i]);
                assert(entries[i].target != entries[entries.len() - 1].target);
            }
        }
        assert forall|p: Seq<char>| !is_target(entries, p) implies {
            &&& #[trigger] after.contains_key(p) == w.contains_key(p)
            &&& after[p] == w[p]
        } by {
            assert(entries[entries.len() - 1].target != p);
            if is_target(shorter, p) {
                let i = choose|i: int| 0 <= i < shorter.len() && #[trigger] shorter[i].target == p;
                assert(entries[i].target == p);
            }
        }
    }
}

/// Whether the cleanup removes `path`: it is the place of a name that was
/// free at the start and is occupied now.
pub open spec fn is_cleared(
    names: Seq<Seq<char>>,
    statuses: Seq<PathStatus>,
    install_dir: Seq<char>,
    original: Seq<Seq<char>>,
    path: Seq<char>,
) -> bool {
    exists|i: int|
        0 <= i < names.len() && i < statuses.len() && statuses[i].occupied() && is_fresh(
            install_dir,
            names[i],
            original,
        ) && #[trigger] join(install_dir, names[i]) == path
}

/// The cleanup removes the places it is meant to remove and leaves
/// everything else as it was.
pub proof fn lemma_cleanup_effect(
    w: World,
    names: Seq<Seq<char>>,
    statuses: Seq<PathStatus>,
    install_dir: Seq<char>,
    original: Seq<Seq<char>>,
)
    ensures
        forall|p: Seq<char>| #[trigger]
            apply_all(w, cleanup_plan(names, statuses, install_dir, original)).contains_key(p)
                <==> (w.contains_key(p) && !is_cleared(
                names,
                statuses,
                install_dir,
                original,
                p,
            )),
        forall|p: Seq<char>|
            !is_cleared(names, statuses, install_dir, original, p) ==> #[trigger] apply_all(
                w,
                cleanup_plan(names, statuses, install_dir, original),
            )[p] == w[p],
    decreases names.len(),
{
    if names.len() > 0 {
        let shorter = names.drop_last();
        let last = names.len() - 1;
        lemma_cleanup_effect(w, shorter, statuses, install_dir, original);
        let before = apply_all(w, cleanup_plan(shorter, statuses, install_dir, original));
        let after = apply_all(w, cleanup_plan(names, statuses, install_dir, original));
        let acts = is_fresh(install_dir, names[last], original) && last < statuses.len()
            && statuses[last].occupied();
        let place = join(install_dir, names[last]);
        if acts {
            let plan = cleanup_plan(names, statuses, install_dir, original);
            assert(plan.drop_last() =~= cleanup_plan(shorter, statuses, install_dir, original));
            assert(after == before.remove(place));
        } else {
            assert(after == before);
        }
        assert forall|p: Seq<char>|
            is_cleared(names, statuses, install_dir, original, p) <==> (is_cleared(
                shorter,
                statuses,
                install_dir,
                original,
                p,
            ) || (acts && p == place)) by {
            if is_cleared(names, statuses, install_dir, original, p) {
                let i = choose|i: int|
                    0 <= i < names.len() && i < statuses.len() && statuses[i].occupied()
                        && is_fresh(install_dir, names[i], original) && #[trigger] join(
                        install_dir,
                        names[i],
                    ) == p;
                if i < last {
                    assert(shorter[i] == names[i]);
                    assert(join(install_dir, shorter[i]) == p);
                }
            }
            if is_cleared(shorter, statuses, install_dir, original, p) {
                let i = choose|i: int|
                    0 <= i < shorter.len() && i < statuses.len() && statuses[i].occupied()
                        && is_fresh(install_dir, shorter[i], original) && #[trigger] join(
                        install_dir,
                        shorter[i],
                    ) == p;
                assert(names[i] == shorter[i]);
                assert(join(install_dir, names[i]) == p);
            }
            if acts && p == place {
                assert(join(install_dir, names[last]) == p);
            }
        }
    }
}

/// Law: an installation that met no conflict, and is then reversed, leaves
/// the file system as it was before the run. The installation has put a
/// link at every target; the reversal finds nothing to restore and removes
/// every one of them.
pub proof fn lemma_fresh_install_reversed(
    w: World,
    install_dir: Seq<char>,
    source_dir: Seq<char>,
    backup_dir: Seq<char>,
    names: Seq<Seq<char>>,
    force: bool,
)
    requires
        is_listing(names),
        forall|i: int|
            0 <= i < names.len() ==> !w.contains_key(#[trigger] join(install_dir, names[i])),
    ensures
        ({
            let entries = resolve(install_dir, source_dir, names);
            let installed = apply_all(w, link_plan(entries));
            let restored = apply_all(
                installed,
                restore_plan(Seq::empty(), Seq::empty(), backup_dir, install_dir, force),
            );
            let found = observe(restored, paths_under(install_dir, names));
            let reversed = apply_all(
                restored,
                cleanup_plan(names, found, install_dir, Seq::empty()),
            );
            &&& detect(w, entries).len() == 0
            &&& forall|i: int|
                0 <= i < names.len() ==> installed.contains_key(
                    #[trigger] join(install_dir, names[i]),
                )
            &&& reversed == w
        }),
{
    let entries = resolve(install_dir, source_dir, names);
    lemma_resolve_listing(install_dir, source_dir, names);
    assert forall|i: int, j: int| 0 <= i < j < entries.len() implies #[trigger] entries[i].target
        != #[trigger] entries[j].target by {
        if entries[i].target == entries[j].target {
            lemma_join_injective(install_dir, names[i], names[j]);
        }
    }
    let seen = observe(w, targets(entries));
    assert(detect(w, entries).len() == 0) by {
        if detect(w, entries).len() > 0 {
            let p = detect(w, entries)[0];
            assert(detect(w, entries).contains(p));
            lemma_conflicts_members(entries, seen, p);
            let i = choose|i: int|
                0 <= i < entries.len() && i < seen.len() && seen[i].occupied()
                    && #[trigger] entries[i].target == p;
            assert(targets(entries)[i] == join(install_dir, names[i]));
        }
    }
    lemma_installed(w, entries);
    let installed = apply_all(w, link_plan(entries));
    let restore = restore_plan(Seq::empty(), Seq::empty(), backup_dir, install_dir, force);
    assert(restore =~= Seq::<ActionView>::empty());
    let restored = apply_all(installed, restore);
    assert(restored == installed);
    let found = observe(restored, paths_under(install_dir, names));
    let original = Seq::<Seq<char>>::empty();
    lemma_cleanup_effect(restored, names, found, install_dir, original);
    let reversed = apply_all(restored, cleanup_plan(names, found, install_dir, original));
    assert forall|i: int| 0 <= i < names.len() implies installed.contains_key(
        #[trigger] join(install_dir, names[i]),
    ) by {
        assert(entries[i].target == join(install_dir, names[i]));
    }
    assert forall|p: Seq<char>| reversed.contains_key(p) == w.contains_key(p) && (w.contains_key(
        p,
    ) ==> reversed[p] == w[p]) by {
        if is_target(entries, p) {
            let i = choose|i: int| 0 <= i < entries.len() && #[trigger] entries[i].target == p;
            assert(entries[i].target == join(install_dir, names[i]));
            assert(paths_under(install_dir, names)[i] == p);
            assert(found[i].occupied());
            assert(join(install_dir, names[i]) == p);
            assert(is_cleared(names, found, install_dir, original, p));
            assert(!w.contains_key(join(install_dir, names[i])));
        } else {
            if is_cleared(names, found, install_dir, original, p) {
                let i = choose|i: int|
                    0 <= i < names.len() && i < found.len() && found[i].occupied() && is_fresh(
                        install_dir,
                        names[i],
                        original,
                    ) && #[trigger] join(install_dir, names[i]) == p;
                assert(entries[i].target == p);
            }
        }
    }
    assert(reversed =~= w);
}

/// Law: a user who declines ends the run at once, as aborted.
pub proof fn lemma_decline_ends_run(t: TransactionView)
    requires
        t.stage == Stage::Deciding,
    ensures
        t.step(EventView::Answer(false)).0.stage == Stage::Finished,
        t.step(EventView::Answer(false)).1 == ActionView::Fail(aborted_view()),
{
}

/// Law: a backup that fails ends the run with its error; no link is asked
/// for.
pub proof fn lemma_failed_backup_ends_run(t: TransactionView, text: Seq<char>)
    requires
        t.stage == Stage::BackingUp,
    ensures
        t.step(EventView::Failed(text)).0.stage == Stage::Finished,
        t.step(EventView::Failed(text)).1 == ActionView::Fail(failure_view(t.pending, text)),
{
}

/// Law: a link is tried twice at most. When the second try fails, the
/// installation is over: the run ends with the error of that try, or the
/// rollback begins and keeps that error.
pub proof fn lemma_second_failure_is_final(t: TransactionView, text: Seq<char>)
    requires
        t.stage == Stage::Relinking,
    ensures
        ({
            let (next, action) = t.step(EventView::Failed(text));
            let e = failure_view(t.pending, text);
            if t.rollback {
                &&& next.stage == Stage::ListingBackups
                &&& next.failure == Some(e)
                &&& action == ActionView::ListDir { dir: t.backup_dir }
            } else {
                &&& next.stage == Stage::Finished
                &&& action == ActionView::Fail(e)
            }
        }),
{
}

/// Whether the transaction is rolling back.
pub open spec fn rolling_back(stage: Stage) -> bool {
    stage == Stage::ListingBackups || stage == Stage::InspectingBackups || stage
        == Stage::Restoring || stage == Stage::ListingSource || stage == Stage::InspectingTargets
        || stage == Stage::Removing
}

/// Law: a rollback keeps the error of the installation through every
/// step, and goes on to nothing but the end of the run.
pub proof fn lemma_rollback_keeps_error(t: TransactionView, event: EventView)
    requires
        rolling_back(t.stage),
    ensures
        t.step(event).0.failure == t.failure,
        rolling_back(t.step(event).0.stage) || t.step(event).0.stage == Stage::Finished,
{
}

/// Law: when the last removal of a rollback is done, the run ends with the
/// error of the installation that was rolled back; a reversal that was
/// asked for ends well.
pub proof fn lemma_rollback_ends_with_error(t: TransactionView)
    requires
        t.stage == Stage::Removing,
        !t.has_next(),
    ensures
        t.step(EventView::Done).0.stage == Stage::Finished,
        t.step(EventView::Done).1 == match t.failure {
            Some(e) => ActionView::Fail(e),
            None => ActionView::Succeed,
        },
{
}

/// Law: to stash an empty directory nothing is asked for, so that the
/// directory is as empty afterwards as it was, and a second stash asks for
/// nothing again.
pub proof fn lemma_stash_of_empty_repeats(w: World, dir: Seq<char>, system_temp: Seq<char>)
    requires
        holds(w, dir, 0),
    ensures
        stash_requests(dir, 0, system_temp) matches Ok(plan) && {
            let after = apply_all(w, plan);
            &&& plan.len() == 0
            &&& after == w
            &&& holds(after, dir, 0)
            &&& apply_all(after, plan) == w
        },
{
}

/// Law: a normalization that finds the backup directory empty ends well at
/// once, with or without `force`, and has asked for no move.
pub proof fn lemma_empty_backup_dir_is_accepted(n: NormalizerView)
    requires
        n.stage == Phase::Counting,
        n.args.backup_dir.is_some(),
    ensures
        n.step(EventView::Count(0)).0.succeeded(),
        n.step(EventView::Count(0)).1 == ActionView::Succeed,
        n.step(EventView::Count(0)).0.args == n.args,
{
}

/// Law: a request that only looks or asks changes nothing.
pub proof fn lemma_looking_changes_nothing(w: World, action: ActionView)
    requires
        !action.mutates(),
    ensures
        effect(w, action) == w,
{
}

/// Law: a run that the user calls off has changed nothing. From its start
/// to the user's answer it has listed the source directory, looked at the
/// targets and asked its question, and with the answer it ends as aborted,
/// the conflicts on record.
pub proof fn lemma_abort_changes_nothing(
    w: World,
    args: CliView,
    names: Seq<Seq<char>>,
    found: Seq<PathStatus>,
)
    requires
        !args.is_repo,
        !args.force,
        found.len() == resolve(args.install_dir, args.source_dir(), names).len(),
        conflicts(resolve(args.install_dir, args.source_dir(), names), found).len() > 0,
    ensures
        ({
            let entries = resolve(args.install_dir, args.source_dir(), names);
            let (listing, first) = TransactionView::begin(args);
            let (looking, second) = listing.step(EventView::Listing(names));
            let (asking, third) = looking.step(EventView::Statuses(found));
            let (ended, last) = asking.step(EventView::Answer(false));
            &&& first == ActionView::ListDir { dir: args.source_dir() }
            &&& second == ActionView::Probe { paths: targets(entries) }
            &&& third is Prompt
            &&& last == ActionView::Fail(aborted_view())
            &&& ended.stage == Stage::Finished
            &&& ended.conflicts == conflicts(entries, found)
            &&& apply_all(w, seq![first, second, third]) == w
        }),
{
    let entries = resolve(args.install_dir, args.source_dir(), names);
    let (listing, first) = TransactionView::begin(args);
    let (looking, second) = listing.step(EventView::Listing(names));
    let (asking, third) = looking.step(EventView::Statuses(found));
    let plan = seq![first, second, third];
    assert(plan.drop_last() =~= seq![first, second]);
    assert(seq![first, second].drop_last() =~= seq![first]);
    assert(seq![first].drop_last() =~= Seq::<ActionView>::empty());
    assert(apply_all(w, Seq::<ActionView>::empty()) == w);
    assert(apply_all(w, seq![first]) == effect(w, first));
    assert(apply_all(w, seq![first, second]) == w);
}

/// Law: the conflicts are recorded once, when the targets were looked at
/// before anything was changed; no later step changes the record.
pub proof fn lemma_conflicts_are_kept(t: TransactionView, event: EventView)
    requires
        t.stage != Stage::Detecting,
    ensures
        t.step(event).0.conflicts == t.conflicts,
{
}

/// Law: a run that has ended asks for nothing more: it stays as it is and
/// repeats its last word.
pub proof fn lemma_finished_stays(t: TransactionView, event: EventView)
    requires
        t.stage == Stage::Finished,
    ensures
        t.step(event) == (t, t.pending),
{
}

/// The transaction and its request after `times` requests in a row were
/// done.
pub open spec fn after_done(t: TransactionView, times: nat) -> (TransactionView, ActionView)
    decreases times,
{
    if times == 0 {
        (t, t.pending)
    } else {
        after_done(t, (times - 1) as nat).0.step(EventView::Done)
    }
}

/// Whether the transaction goes through a plan whose requests succeed one
/// after the other.
pub open spec fn walking(stage: Stage) -> bool {
    stage == Stage::BackingUp || stage == Stage::Linking || stage == Stage::Restoring || stage
        == Stage::Removing
}

/// Law: a transaction asks for the requests of its plan one by one, in
/// their order, as long as each is done; nothing else changes on the way.
pub proof fn lemma_plan_is_walked(t: TransactionView, i: nat)
    requires
        walking(t.stage),
        t.cursor == 0,
        i < t.plan.len(),
        t.pending == t.plan[0],
    ensures
        after_done(t, i).1 == t.plan[i as int],
        after_done(t, i).0 == (TransactionView { cursor: i, pending: t.plan[i as int], ..t }),
    decreases i,
{
    if i > 0 {
        lemma_plan_is_walked(t, (i - 1) as nat);
        let before = after_done(t, (i - 1) as nat).0;
        assert(before.has_next());
    } else {
        assert(t =~= (TransactionView { cursor: 0, pending: t.plan[0], ..t }));
    }
}

/// How far a stage is from the end of the run, counted in stages.
pub open spec fn stages_left(stage: Stage) -> nat {
    match stage {
        Stage::Cloning => 12,
        Stage::Resolving => 11,
        Stage::Detecting => 10,
        Stage::Deciding => 9,
        Stage::BackingUp => 8,
        Stage::Linking | Stage::Inspecting | Stage::Clearing | Stage::Relinking => 7,
        Stage::ListingBackups => 6,
        Stage::InspectingBackups => 5,
        Stage::Restoring => 4,
        Stage::ListingSource => 3,
        Stage::InspectingTargets => 2,
        Stage::Removing => 1,
        Stage::Finished => 0,
    }
}

/// How far a transaction is from the end of its stage: the requests of
/// its plan that are still to come, each link counted with the steps of
/// its second try.
pub open spec fn steps_left(t: TransactionView) -> nat {
    let ahead: nat = if t.cursor < t.plan.len() {
        (t.plan.len() - t.cursor) as nat
    } else {
        0
    };
    match t.stage {
        Stage::Linking => 4 * ahead + 3,
        Stage::Inspecting => 4 * ahead + 2,
        Stage::Clearing => 4 * ahead + 1,
        Stage::Relinking => 4 * ahead,
        _ => ahead,
    }
}

/// Law: every step brings a transaction nearer to its end: it goes on to
/// a later stage, or stays in its stage with fewer steps to go. So no run
/// goes on for ever, and no link is tried a third time.
pub proof fn lemma_step_makes_progress(t: TransactionView, event: EventView)
    requires
        t.stage != Stage::Finished,
    ensures
        stages_left(t.step(event).0.stage) < stages_left(t.stage) || (stages_left(
            t.step(event).0.stage,
        ) == stages_left(t.stage) && steps_left(t.step(event).0) < steps_left(t)),
{
}

/// How far a phase is from the end of the normalization, counted in
/// phases.
pub open spec fn phases_left(phase: Phase) -> nat {
    match phase {
        Phase::MakingCloneDir => 7,
        Phase::ResolvingCloneDir => 6,
        Phase::ResolvingSource => 5,
        Phase::MakingInstallDir => 4,
        Phase::MakingBackupDir => 3,
        Phase::Counting => 2,
        Phase::Stashing => 1,
        Phase::Finished => 0,
    }
}

/// Law: every step brings a normalization nearer to its end.
pub proof fn lemma_normalization_makes_progress(n: NormalizerView, event: EventView)
    requires
        n.stage != Phase::Finished,
    ensures
        phases_left(n.step(event).0.stage) < phases_left(n.stage) || (n.step(event).0.stage
            == Phase::Stashing && n.stage == Phase::Stashing && n.plan.len() - n.step(
            event,
        ).0.cursor < n.plan.len() - n.cursor && n.step(event).0.plan == n.plan),
{
}

} // verus!
