//! The installation as a transaction: resolve, detect, decide, back up,
//! install, and roll back when the installation fails.
//!
//! A [`Transaction`] asks for one [`Action`] at a time. Its caller performs
//! the action and hands the outcome to [`Transaction::step`], which gives
//! the next action, until that is [`Action::Succeed`] or [`Action::Fail`].

use vstd::prelude::*;
use vstd::string::*;
use crate::action::{copy_action, copy_texts, Action, ActionView, Event, EventView, PathStatus};
use crate::kcli::{Cli, CliView};
use crate::kerror::{Error, ErrorView};
use crate::kfs::{
    action_views, get_target_paths, io_error_view, protocol_error, protocol_error_view,
    resolve, targets, ConfigMap, EntryView,
};
use crate::kgit::clone;
use crate::plan::{
    aborted, aborted_view, backup_plan, check_collisions, cleanup_plan, conflicts, failure,
    failure_view, link_plan, paths_in, paths_under, plan_backups, plan_cleanup, plan_links,
    plan_restore, prompt_message, prompt_text, restore_plan,
};

verus! {

/// Where a transaction stands: what it has asked for and waits to hear of.
#[derive(Clone, Copy, Debug, PartialEq, Eq, Structural)]
pub enum Stage {
    /// The repository is being cloned.
    Cloning,
    /// The source directory is being listed.
    Resolving,
    /// The targets are being looked at.
    Detecting,
    /// The user is being asked whether to go on.
    Deciding,
    /// A conflicting target is being moved to the backup directory.
    BackingUp,
    /// A link is being created.
    Linking,
    /// A link could not be created; its target is being looked at.
    Inspecting,
    /// What occupies the target of a link is being removed.
    Clearing,
    /// A link is being created for the second time.
    Relinking,
    /// The backup directory is being listed.
    ListingBackups,
    /// The entries of the backup directory are being looked at.
    InspectingBackups,
    /// An entry of the backup directory is being moved back.
    Restoring,
    /// The source directory is being listed, to undo the installation.
    ListingSource,
    /// The places of the configurations are being looked at.
    InspectingTargets,
    /// A link that the run has added is being removed.
    Removing,
    /// The run has ended.
    Finished,
}

/// An installation or its reversal in progress.
#[derive(Debug)]
pub struct Transaction {
    stage: Stage,
    rollback: bool,
    install_dir: String,
    source_dir: String,
    backup_dir: String,
    force: bool,
    entries: ConfigMap,
    statuses: Vec<PathStatus>,
    conflicts: Vec<String>,
    names: Vec<String>,
    plan: Vec<Action>,
    cursor: usize,
    pending: Action,
    failure: Option<Error>,
}

/// A [`Transaction`] as a mathematical value.
#[verifier::ext_equal]
pub struct TransactionView {
    /// Where the transaction stands.
    pub stage: Stage,
    /// Whether a failed installation is rolled back.
    pub rollback: bool,
    pub install_dir: Seq<char>,
    pub source_dir: Seq<char>,
    pub backup_dir: Seq<char>,
    pub force: bool,
    /// The configurations, once the source directory is resolved.
    pub entries: Seq<EntryView>,
    /// What the last look at a list of paths has found.
    pub statuses: Seq<PathStatus>,
    /// The targets that were occupied before anything was changed.
    pub conflicts: Seq<Seq<char>>,
    /// What the last listing during a rollback has given.
    pub names: Seq<Seq<char>>,
    /// The requests of the phase that is under way.
    pub plan: Seq<ActionView>,
    /// The place in the plan of the request that is under way.
    pub cursor: nat,
    /// The request that was made last.
    pub pending: ActionView,
    /// The error of the installation that is being rolled back.
    pub failure: Option<ErrorView>,
}

impl View for Transaction {
    type V = TransactionView;

    closed spec fn view(&self) -> TransactionView {
        TransactionView {
            stage: self.stage,
            rollback: self.rollback,
            install_dir: self.install_dir@,
            source_dir: self.source_dir@,
            backup_dir: self.backup_dir@,
            force: self.force,
            entries: self.entries@,
            statuses: self.statuses@,
            conflicts: self.conflicts.deep_view(),
            names: self.names.deep_view(),
            plan: action_views(self.plan@),
            cursor: self.cursor as nat,
            pending: self.pending@,
            failure: match self.failure {
                Some(e) => Some(e@),
                None => None,
            },
        }
    }
}

impl TransactionView {
    /// The transaction before its first request.
    pub open spec fn initial(args: CliView, rollback: bool) -> TransactionView {
        TransactionView {
            stage: Stage::Finished,
            rollback,
            install_dir: args.install_dir,
            source_dir: args.source_dir(),
            backup_dir: args.backup_dir.unwrap(),
            force: args.force,
            entries: Seq::empty(),
            statuses: Seq::empty(),
            conflicts: args.conflicts,
            names: Seq::empty(),
            plan: Seq::empty(),
            cursor: 0,
            pending: ActionView::Succeed,
            failure: None,
        }
    }

    /// The transaction asks for `action` and waits at `stage`.
    pub open spec fn ask(self, stage: Stage, action: ActionView) -> (TransactionView, ActionView) {
        (TransactionView { stage, pending: action, ..self }, action)
    }

    /// The run ends with `action`.
    pub open spec fn finish(self, action: ActionView) -> (TransactionView, ActionView) {
        self.ask(Stage::Finished, action)
    }

    /// The run ends with the error `e`.
    pub open spec fn fail(self, e: ErrorView) -> (TransactionView, ActionView) {
        self.finish(ActionView::Fail(e))
    }

    /// The run ends because the event does not answer the request.
    pub open spec fn refuse(self) -> (TransactionView, ActionView) {
        self.fail(protocol_error_view())
    }

    /// The run ends: with the error of the installation, if it is the
    /// rollback of one, and well otherwise.
    pub open spec fn conclude(self) -> (TransactionView, ActionView) {
        match self.failure {
            Some(e) => self.fail(e),
            None => self.finish(ActionView::Succeed),
        }
    }

    /// The transaction takes up `plan` and asks for its first request.
    pub open spec fn run(self, stage: Stage, plan: Seq<ActionView>) -> (
        TransactionView,
        ActionView,
    )
        recommends
            plan.len() > 0,
    {
        (TransactionView { plan, cursor: 0, ..self }).ask(stage, plan[0])
    }

    /// Whether the plan holds a request after the one under way.
    pub open spec fn has_next(self) -> bool {
        self.cursor + 1 < self.plan.len()
    }

    /// The transaction asks for the next request of its plan.
    pub open spec fn advance(self) -> (TransactionView, ActionView)
        recommends
            self.has_next(),
    {
        (TransactionView { cursor: (self.cursor + 1) as nat, ..self }).ask(
            self.stage,
            self.plan[self.cursor as int + 1],
        )
    }

    /// The installation begins: a link for every entry; with no entry the
    /// run ends well.
    pub open spec fn start_links(self) -> (TransactionView, ActionView) {
        let plan = link_plan(self.entries);
        if plan.len() == 0 {
            self.finish(ActionView::Succeed)
        } else {
            self.run(Stage::Linking, plan)
        }
    }

    /// The backup begins: a move for every conflict, and then the
    /// installation.
    pub open spec fn start_backup(self) -> (TransactionView, ActionView) {
        let plan = backup_plan(self.entries, self.statuses, self.backup_dir, self.force);
        if plan.len() == 0 {
            self.start_links()
        } else {
            self.run(Stage::BackingUp, plan)
        }
    }

    /// The rollback begins, with the listing of the backup directory.
    pub open spec fn start_rollback(self) -> (TransactionView, ActionView) {
        self.ask(Stage::ListingBackups, ActionView::ListDir { dir: self.backup_dir })
    }

    /// The second part of the rollback begins, with the listing of the
    /// source directory.
    pub open spec fn start_cleanup(self) -> (TransactionView, ActionView) {
        self.ask(Stage::ListingSource, ActionView::ListDir { dir: self.source_dir })
    }

    /// The entries of the backup directory are moved back, and then the
    /// second part of the rollback begins.
    pub open spec fn start_restore(self) -> (TransactionView, ActionView) {
        let plan = restore_plan(
            self.names,
            self.statuses,
            self.backup_dir,
            self.install_dir,
            self.force,
        );
        if plan.len() == 0 {
            self.start_cleanup()
        } else {
            self.run(Stage::Restoring, plan)
        }
    }

    /// What the run has added is removed, and then the run ends.
    pub open spec fn start_removal(self) -> (TransactionView, ActionView) {
        let plan = cleanup_plan(self.names, self.statuses, self.install_dir, self.conflicts);
        if plan.len() == 0 {
            self.conclude()
        } else {
            self.run(Stage::Removing, plan)
        }
    }

    /// The link that is under way: the request at the cursor, if it asks
    /// for a link.
    pub open spec fn current_link(self) -> Option<(Seq<char>, Seq<char>)> {
        if self.cursor < self.plan.len() {
            match self.plan[self.cursor as int] {
                ActionView::Symlink { source, target } => Some((source, target)),
                _ => None,
            }
        } else {
            None
        }
    }

    /// A link was created: the next one is asked for; after the last one
    /// the run ends well.
    pub open spec fn linked(self) -> (TransactionView, ActionView) {
        if self.has_next() {
            (TransactionView { stage: Stage::Linking, ..self }).advance()
        } else {
            self.finish(ActionView::Succeed)
        }
    }

    /// The step of a transaction that resolves, detects and decides.
    pub open spec fn step_collisions(self, event: EventView) -> (TransactionView, ActionView) {
        match self.stage {
            Stage::Resolving => match event {
                EventView::Listing(names) => {
                    let entries = resolve(self.install_dir, self.source_dir, names);
                    (TransactionView { entries, ..self }).ask(
                        Stage::Detecting,
                        ActionView::Probe { paths: targets(entries) },
                    )
                },
                EventView::Failed(text) => self.fail(io_error_view(self.source_dir, text)),
                _ => self.refuse(),
            },
            Stage::Detecting => match event {
                EventView::Statuses(found) => if found.len() != self.entries.len() {
                    self.refuse()
                } else {
                    let occupied = conflicts(self.entries, found);
                    let seen = TransactionView { statuses: found, conflicts: occupied, ..self };
                    if occupied.len() == 0 {
                        seen.start_links()
                    } else if self.force {
                        seen.start_backup()
                    } else {
                        seen.ask(
                            Stage::Deciding,
                            ActionView::Prompt { message: prompt_text(occupied, self.backup_dir) },
                        )
                    }
                },
                _ => self.refuse(),
            },
            _ => match event {
                EventView::Answer(yes) => if yes {
                    self.start_backup()
                } else {
                    self.fail(aborted_view())
                },
                _ => self.refuse(),
            },
        }
    }

    /// The step of a transaction that backs up and installs.
    pub open spec fn step_install(self, event: EventView) -> (TransactionView, ActionView) {
        match self.stage {
            Stage::BackingUp => match event {
                EventView::Done => if self.has_next() {
                    self.advance()
                } else {
                    self.start_links()
                },
                EventView::Failed(text) => self.fail(failure_view(self.pending, text)),
                _ => self.refuse(),
            },
            Stage::Linking => match (event, self.current_link()) {
                (EventView::Done, _) => self.linked(),
                (EventView::Failed(_), Some((source, target))) => self.ask(
                    Stage::Inspecting,
                    ActionView::Probe { paths: seq![target] },
                ),
                _ => self.refuse(),
            },
            Stage::Inspecting => match (event, self.current_link()) {
                (EventView::Statuses(found), Some((source, target))) => if found.len() != 1 {
                    self.refuse()
                } else if found[0] == PathStatus::Directory {
                    self.ask(Stage::Clearing, ActionView::RemoveDir { path: target })
                } else {
                    self.ask(Stage::Clearing, ActionView::RemoveFile { path: target })
                },
                _ => self.refuse(),
            },
            Stage::Clearing => match (event, self.current_link()) {
                (EventView::Done, Some((source, target))) => self.ask(
                    Stage::Relinking,
                    ActionView::Symlink { source, target },
                ),
                (EventView::Failed(_), Some((source, target))) => self.ask(
                    Stage::Relinking,
                    ActionView::Symlink { source, target },
                ),
                _ => self.refuse(),
            },
            _ => match event {
                EventView::Done => self.linked(),
                EventView::Failed(text) => {
                    let e = failure_view(self.pending, text);
                    if self.rollback {
                        (TransactionView { failure: Some(e), ..self }).start_rollback()
                    } else {
                        self.fail(e)
                    }
                },
                _ => self.refuse(),
            },
        }
    }

    /// The step of a transaction that rolls back.
    pub open spec fn step_uninstall(self, event: EventView) -> (TransactionView, ActionView) {
        match self.stage {
            Stage::ListingBackups => match event {
                EventView::Listing(names) => (TransactionView { names, ..self }).ask(
                    Stage::InspectingBackups,
                    ActionView::Probe { paths: paths_under(self.backup_dir, names) },
                ),
                EventView::Failed(text) => self.fail(failure_view(self.pending, text)),
                _ => self.refuse(),
            },
            Stage::InspectingBackups => match event {
                EventView::Statuses(found) => if found.len() != self.names.len() {
                    self.refuse()
                } else {
                    (TransactionView { statuses: found, ..self }).start_restore()
                },
                _ => self.refuse(),
            },
            Stage::Restoring => match event {
                EventView::Done => if self.has_next() {
                    self.advance()
                } else {
                    self.start_cleanup()
                },
                EventView::Failed(text) => self.fail(failure_view(self.pending, text)),
                _ => self.refuse(),
            },
            Stage::ListingSource => match event {
                EventView::Listing(names) => (TransactionView { names, ..self }).ask(
                    Stage::InspectingTargets,
                    ActionView::Probe { paths: paths_under(self.install_dir, names) },
                ),
                EventView::Failed(text) => self.fail(failure_view(self.pending, text)),
                _ => self.refuse(),
            },
            Stage::InspectingTargets => match event {
                EventView::Statuses(found) => if found.len() != self.names.len() {
                    self.refuse()
                } else {
                    (TransactionView { statuses: found, ..self }).start_removal()
                },
                _ => self.refuse(),
            },
            _ => match event {
                EventView::Done => if self.has_next() {
                    self.advance()
                } else {
                    self.conclude()
                },
                EventView::Failed(text) => self.fail(failure_view(self.pending, text)),
                _ => self.refuse(),
            },
        }
    }

    /// The transaction after `event`, and the request it makes next. A
    /// transaction that has ended stays as it is and repeats its last
    /// word.
    pub open spec fn step(self, event: EventView) -> (TransactionView, ActionView) {
        match self.stage {
            Stage::Finished => (self, self.pending),
            Stage::Cloning => match event {
                EventView::Done => self.ask(
                    Stage::Resolving,
                    ActionView::ListDir { dir: self.source_dir },
                ),
                EventView::Failed(text) => self.fail(failure_view(self.pending, text)),
                _ => self.refuse(),
            },
            Stage::Resolving | Stage::Detecting | Stage::Deciding => self.step_collisions(event),
            Stage::BackingUp | Stage::Linking | Stage::Inspecting | Stage::Clearing
            | Stage::Relinking => self.step_install(event),
            _ => self.step_uninstall(event),
        }
    }

    /// The first request of a full run: the clone for a repository, else
    /// the listing of the source directory.
    pub open spec fn begin(args: CliView) -> (TransactionView, ActionView) {
        let start = TransactionView {
            conflicts: Seq::empty(),
            ..TransactionView::initial(args, true)
        };
        if args.is_repo {
            start.ask(
                Stage::Cloning,
                ActionView::CloneRepo { url: args.dotfiles, dir: start.source_dir },
            )
        } else {
            start.ask(Stage::Resolving, ActionView::ListDir { dir: start.source_dir })
        }
    }

    /// The first request of an installation that is not rolled back.
    pub open spec fn begin_install(args: CliView) -> (TransactionView, ActionView) {
        let start = TransactionView {
            conflicts: Seq::empty(),
            ..TransactionView::initial(args, false)
        };
        start.ask(Stage::Resolving, ActionView::ListDir { dir: start.source_dir })
    }

    /// The first request of a reversal: the conflicts are those that the
    /// settings record.
    pub open spec fn begin_uninstall(args: CliView) -> (TransactionView, ActionView) {
        TransactionView::initial(args, false).start_rollback()
    }
}

impl Transaction {
    /// Where the transaction stands.
    pub fn stage(&self) -> (stage: Stage)
        ensures
            stage == self@.stage,
    {
        self.stage
    }

    /// Whether the run has ended.
    pub fn is_finished(&self) -> (done: bool)
        ensures
            done == (self@.stage == Stage::Finished),
    {
        matches!(self.stage, Stage::Finished)
    }

    /// The request that was made last.
    pub fn pending(&self) -> (action: &Action)
        ensures
            action@ == self@.pending,
    {
        &self.pending
    }

    /// The targets that were occupied before anything was changed.
    pub fn conflicts(&self) -> (found: &Vec<String>)
        ensures
            found.deep_view() == self@.conflicts,
    {
        &self.conflicts
    }

    /// The configurations, once the source directory is resolved.
    pub fn config_map(&self) -> (entries: &ConfigMap)
        ensures
            entries@ == self@.entries,
    {
        &self.entries
    }

    fn initial(args: &Cli, rollback: bool) -> (start: Transaction)
        requires
            args@.ready(),
        ensures
            start@ == TransactionView::initial(args@, rollback),
    {
        let backup_dir = match &args.backup_dir {
            Some(dir) => dir.clone(),
            None => vstd::pervasive::unreached(),
        };
        let start = Transaction {
            stage: Stage::Finished,
            rollback,
            install_dir: args.install_dir.clone(),
            source_dir: args.source_dir(),
            backup_dir,
            force: args.force,
            entries: ConfigMap { entries: Vec::new() },
            statuses: Vec::new(),
            conflicts: copy_texts(&args.conflicts),
            names: Vec::new(),
            plan: Vec::new(),
            cursor: 0,
            pending: Action::Succeed,
            failure: None,
        };
        assert(start@ =~= TransactionView::initial(args@, rollback));
        start
    }

    fn ask(self, stage: Stage, action: Action) -> (next: (Transaction, Action))
        ensures
            (next.0@, next.1@) == self@.ask(stage, action@),
    {
        let pending = copy_action(&action);
        (Transaction { stage, pending, ..self }, action)
    }

    fn fail(self, e: Error) -> (next: (Transaction, Action))
        ensures
            (next.0@, next.1@) == self@.fail(e@),
    {
        self.ask(Stage::Finished, Action::Fail(e))
    }

    fn refuse(self) -> (next: (Transaction, Action))
        ensures
            (next.0@, next.1@) == self@.refuse(),
    {
        self.fail(protocol_error())
    }

    fn conclude(self) -> (next: (Transaction, Action))
        ensures
            (next.0@, next.1@) == self@.conclude(),
    {
        let last = match &self.failure {
            Some(e) => Action::Fail(e.duplicate()),
            None => Action::Succeed,
        };
        self.ask(Stage::Finished, last)
    }

    fn run(self, stage: Stage, plan: Vec<Action>) -> (next: (Transaction, Action))
        requires
            plan.len() > 0,
        ensures
            (next.0@, next.1@) == self@.run(stage, action_views(plan@)),
    {
        let first = copy_action(&plan[0]);
        (Transaction { plan, cursor: 0, ..self }).ask(stage, first)
    }

    fn has_next(&self) -> (more: bool)
        ensures
            more == self@.has_next(),
    {
        self.cursor < self.plan.len() && self.cursor + 1 < self.plan.len()
    }

    fn advance(self) -> (next: (Transaction, Action))
        requires
            self@.has_next(),
        ensures
            (next.0@, next.1@) == self@.advance(),
    {
        let stage = self.stage;
        assert(action_views(self.plan@).len() == self.plan.len());
        let cursor = self.cursor + 1;
        let action = copy_action(&self.plan[cursor]);
        (Transaction { cursor, ..self }).ask(stage, action)
    }

    fn start_links(self) -> (next: (Transaction, Action))
        ensures
            (next.0@, next.1@) == self@.start_links(),
    {
        let plan = plan_links(&self.entries);
        if plan.len() == 0 {
            self.ask(Stage::Finished, Action::Succeed)
        } else {
            self.run(Stage::Linking, plan)
        }
    }

    fn start_backup(self) -> (next: (Transaction, Action))
        ensures
            (next.0@, next.1@) == self@.start_backup(),
    {
        let plan = plan_backups(
            &self.entries,
            &self.statuses,
            self.backup_dir.as_str(),
            self.force,
        );
        if plan.len() == 0 {
            self.start_links()
        } else {
            self.run(Stage::BackingUp, plan)
        }
    }

    fn start_rollback(self) -> (next: (Transaction, Action))
        ensures
            (next.0@, next.1@) == self@.start_rollback(),
    {
        let action = Action::ListDir { dir: self.backup_dir.clone() };
        self.ask(Stage::ListingBackups, action)
    }

    fn start_cleanup(self) -> (next: (Transaction, Action))
        ensures
            (next.0@, next.1@) == self@.start_cleanup(),
    {
        let action = Action::ListDir { dir: self.source_dir.clone() };
        self.ask(Stage::ListingSource, action)
    }

    fn start_restore(self) -> (next: (Transaction, Action))
        ensures
            (next.0@, next.1@) == self@.start_restore(),
    {
        let plan = plan_restore(
            &self.names,
            &self.statuses,
            self.backup_dir.as_str(),
            self.install_dir.as_str(),
            self.force,
        );
        if plan.len() == 0 {
            self.start_cleanup()
        } else {
            self.run(Stage::Restoring, plan)
        }
    }

    fn start_removal(self) -> (next: (Transaction, Action))
        ensures
            (next.0@, next.1@) == self@.start_removal(),
    {
        let plan = plan_cleanup(
            &self.names,
            &self.statuses,
            self.install_dir.as_str(),
            &self.conflicts,
        );
        if plan.len() == 0 {
            self.conclude()
        } else {
            self.run(Stage::Removing, plan)
        }
    }

    fn current_link(&self) -> (link: Option<(String, String)>)
        ensures
            link.is_some() == self@.current_link().is_some(),
            link.is_some() ==> link.unwrap().0@ == self@.current_link().unwrap().0
                && link.unwrap().1@ == self@.current_link().unwrap().1,
    {
        if self.cursor < self.plan.len() {
            match &self.plan[self.cursor] {
                Action::Symlink { source, target } => Some((source.clone(), target.clone())),
                _ => None,
            }
        } else {
            None
        }
    }

    fn linked(self) -> (next: (Transaction, Action))
        ensures
            (next.0@, next.1@) == self@.linked(),
    {
        if self.has_next() {
            (Transaction { stage: Stage::Linking, ..self }).advance()
        } else {
            self.ask(Stage::Finished, Action::Succeed)
        }
    }

    /// The step of a transaction that resolves the source directory, sees
    /// which targets are occupied, and has the user decide: with no
    /// conflict the installation begins at once; with conflicts the backup
    /// begins if `force` is set or the user agrees, and the run ends as
    /// aborted if the user declines.
    fn handle_collisions(self, event: Event) -> (next: (Transaction, Action))
        requires
            self@.stage == Stage::Resolving || self@.stage == Stage::Detecting || self@.stage
                == Stage::Deciding,
        ensures
            (next.0@, next.1@) == self@.step_collisions(event@),
    {
        match self.stage {
            Stage::Resolving => {
                match get_target_paths(
                    self.install_dir.as_str(),
                    self.source_dir.as_str(),
                    &event,
                ) {
                    Ok(entries) => {
                        let paths = entries.targets();
                        (Transaction { entries, ..self }).ask(
                            Stage::Detecting,
                            Action::Probe { paths },
                        )
                    },
                    Err(e) => self.fail(e),
                }
            },
            Stage::Detecting => match event {
                Event::Statuses(found) => {
                    if found.len() != self.entries.entries.len() {
                        self.refuse()
                    } else {
                        match check_collisions(&self.entries, &found) {
                            None => {
                                let occupied: Vec<String> = Vec::new();
                                assert(occupied.deep_view() =~= conflicts(self@.entries, found@));
                                (Transaction {
                                    statuses: found,
                                    conflicts: occupied,
                                    ..self
                                }).start_links()
                            },
                            Some(occupied) => {
                                let force = self.force;
                                let message = prompt_message(&occupied, self.backup_dir.as_str());
                                let seen = Transaction {
                                    statuses: found,
                                    conflicts: occupied,
                                    ..self
                                };
                                if force {
                                    seen.start_backup()
                                } else {
                                    seen.ask(Stage::Deciding, Action::Prompt { message })
                                }
                            },
                        }
                    }
                },
                _ => self.refuse(),
            },
            _ => match event {
                Event::Answer(yes) => if yes {
                    self.start_backup()
                } else {
                    self.fail(aborted())
                },
                _ => self.refuse(),
            },
        }
    }

    /// The step of a transaction that backs up and installs. A backup that
    /// fails ends the run before any link is made. A link that fails is
    /// tried once more, after what occupies its target was looked at and
    /// removed; if it fails again the installation is over, and is rolled
    /// back where the run provides for that.
    fn install_step(self, event: Event) -> (next: (Transaction, Action))
        requires
            self@.stage == Stage::BackingUp || self@.stage == Stage::Linking || self@.stage
                == Stage::Inspecting || self@.stage == Stage::Clearing || self@.stage
                == Stage::Relinking,
        ensures
            (next.0@, next.1@) == self@.step_install(event@),
    {
        match self.stage {
            Stage::BackingUp => match event {
                Event::Done => if self.has_next() {
                    self.advance()
                } else {
                    self.start_links()
                },
                Event::Failed(text) => {
                    let e = failure(&self.pending, text.as_str());
                    self.fail(e)
                },
                _ => self.refuse(),
            },
            Stage::Linking => match event {
                Event::Done => self.linked(),
                Event::Failed(_) => match self.current_link() {
                    Some((source, target)) => {
                        let mut paths: Vec<String> = Vec::new();
                        paths.push(target);
                        assert(paths.deep_view() =~= seq![target@]);
                        self.ask(Stage::Inspecting, Action::Probe { paths })
                    },
                    None => self.refuse(),
                },
                _ => self.refuse(),
            },
            Stage::Inspecting => match event {
                Event::Statuses(found) => match self.current_link() {
                    Some((source, target)) => {
                        if found.len() != 1 {
                            self.refuse()
                        } else if found[0].is_dir() {
                            self.ask(Stage::Clearing, Action::RemoveDir { path: target })
                        } else {
                            self.ask(Stage::Clearing, Action::RemoveFile { path: target })
                        }
                    },
                    None => self.refuse(),
                },
                _ => self.refuse(),
            },
            Stage::Clearing => match event {
                Event::Done | Event::Failed(_) => match self.current_link() {
                    Some((source, target)) => self.ask(
                        Stage::Relinking,
                        Action::Symlink { source, target },
                    ),
                    None => self.refuse(),
                },
                _ => self.refuse(),
            },
            _ => match event {
                Event::Done => self.linked(),
                Event::Failed(text) => {
                    let e = failure(&self.pending, text.as_str());
                    if self.rollback {
                        let kept = e.duplicate();
                        (Transaction { failure: Some(kept), ..self }).start_rollback()
                    } else {
                        self.fail(e)
                    }
                },
                _ => self.refuse(),
            },
        }
    }

    /// The step of a transaction that rolls back: every entry of the backup
    /// directory is moved back into the install directory; then every
    /// configuration whose place was free when the run began, and is
    /// occupied now, has its place cleared. The first request that fails
    /// ends the run with its error.
    fn uninstall_step(self, event: Event) -> (next: (Transaction, Action))
        requires
            self@.stage == Stage::ListingBackups || self@.stage == Stage::InspectingBackups
                || self@.stage == Stage::Restoring || self@.stage == Stage::ListingSource
                || self@.stage == Stage::InspectingTargets || self@.stage == Stage::Removing,
        ensures
            (next.0@, next.1@) == self@.step_uninstall(event@),
    {
        match self.stage {
            Stage::ListingBackups => match event {
                Event::Listing(names) => {
                    let paths = paths_in(self.backup_dir.as_str(), &names);
                    (Transaction { names, ..self }).ask(
                        Stage::InspectingBackups,
                        Action::Probe { paths },
                    )
                },
                Event::Failed(text) => {
                    let e = failure(&self.pending, text.as_str());
                    self.fail(e)
                },
                _ => self.refuse(),
            },
            Stage::InspectingBackups => match event {
                Event::Statuses(found) => if found.len() != self.names.len() {
                    self.refuse()
                } else {
                    (Transaction { statuses: found, ..self }).start_restore()
                },
                _ => self.refuse(),
            },
            Stage::Restoring => match event {
                Event::Done => if self.has_next() {
                    self.advance()
                } else {
                    self.start_cleanup()
                },
                Event::Failed(text) => {
                    let e = failure(&self.pending, text.as_str());
                    self.fail(e)
                },
                _ => self.refuse(),
            },
            Stage::ListingSource => match event {
                Event::Listing(names) => {
                    let paths = paths_in(self.install_dir.as_str(), &names);
                    (Transaction { names, ..self }).ask(
                        Stage::InspectingTargets,
                        Action::Probe { paths },
                    )
                },
                Event::Failed(text) => {
                    let e = failure(&self.pending, text.as_str());
                    self.fail(e)
                },
                _ => self.refuse(),
            },
            Stage::InspectingTargets => match event {
                Event::Statuses(found) => if found.len() != self.names.len() {
                    self.refuse()
                } else {
                    (Transaction { statuses: found, ..self }).start_removal()
                },
                _ => self.refuse(),
            },
            _ => match event {
                Event::Done => if self.has_next() {
                    self.advance()
                } else {
                    self.conclude()
                },
                Event::Failed(text) => {
                    let e = failure(&self.pending, text.as_str());
                    self.fail(e)
                },
                _ => self.refuse(),
            },
        }
    }

    /// The transaction after `event`, the outcome of the request it made
    /// last, and the request it makes next.
    pub fn step(self, event: Event) -> (next: (Transaction, Action))
        ensures
            (next.0@, next.1@) == self@.step(event@),
    {
        match self.stage {
            Stage::Finished => {
                let last = copy_action(&self.pending);
                (self, last)
            },
            Stage::Cloning => match event {
                Event::Done => {
                    let action = Action::ListDir { dir: self.source_dir.clone() };
                    self.ask(Stage::Resolving, action)
                },
                Event::Failed(text) => {
                    let e = failure(&self.pending, text.as_str());
                    self.fail(e)
                },
                _ => self.refuse(),
            },
            Stage::Resolving | Stage::Detecting | Stage::Deciding => self.handle_collisions(event),
            Stage::BackingUp | Stage::Linking | Stage::Inspecting | Stage::Clearing
            | Stage::Relinking => self.install_step(event),
            _ => self.uninstall_step(event),
        }
    }
}

/// Begins a full run with the settings `args`: a repository is cloned
/// first; the configurations are then installed, and an installation that
/// fails is rolled back before its error is given.
pub fn handle_args(args: &Cli) -> (first: (Transaction, Action))
    requires
        args@.ready(),
    ensures
        (first.0@, first.1@) == TransactionView::begin(args@),
{
    let start = Transaction::initial(args, true);
    let start = Transaction { conflicts: Vec::new(), ..start };
    assert(start.conflicts.deep_view() =~= Seq::<Seq<char>>::empty());
    if args.is_repo {
        let action = clone(args.dotfiles.as_str(), start.source_dir.as_str());
        start.ask(Stage::Cloning, action)
    } else {
        let action = Action::ListDir { dir: start.source_dir.clone() };
        start.ask(Stage::Resolving, action)
    }
}

/// Begins an installation with the settings `args`: conflicting targets
/// are backed up, and every configuration is linked into the install
/// directory. An installation that fails ends with its error and is not
/// rolled back.
pub fn install_configs(args: &Cli) -> (first: (Transaction, Action))
    requires
        args@.ready(),
    ensures
        (first.0@, first.1@) == TransactionView::begin_install(args@),
{
    let start = Transaction::initial(args, false);
    let start = Transaction { conflicts: Vec::new(), ..start };
    assert(start.conflicts.deep_view() =~= Seq::<Seq<char>>::empty());
    let action = Action::ListDir { dir: start.source_dir.clone() };
    start.ask(Stage::Resolving, action)
}

/// Begins the reversal of an installation with the settings `args`, whose
/// `conflicts` are the targets that were occupied before it.
pub fn uninstall_configs(args: &Cli) -> (first: (Transaction, Action))
    requires
        args@.ready(),
    ensures
        (first.0@, first.1@) == TransactionView::begin_uninstall(args@),
{
    Transaction::initial(args, false).start_rollback()
}

} // verus!
