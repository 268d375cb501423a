//! The settings of a run.

use vstd::prelude::*;
use vstd::string::*;
use crate::action::{copy_action, Action, ActionView, Event, EventView};
use crate::kerror::{Error, ErrorKind, ErrorView, KindTag};
use crate::kfs::{
    abs, action_views, joined, create_dir_all, dir_entries, error_view, get_data_dir,
    get_repo_path, protocol_error, protocol_error_view, repo_path, stash_dir, stash_requests,
    unnamed_error, unnamed_error_view,
};
use crate::kgit::names_repo;
use crate::outside::{local_time, regex_is_match, regex_matches};
use crate::kpath::{file_name, final_name, join, join_path};
use crate::plan::{failure, failure_view};

verus! {

/// The settings of a run, as given on the command line and completed by
/// [`Cli::normalize`].
#[derive(Debug)]
pub struct Cli {
    /// The configurations to install: a directory, or the URL of a
    /// repository.
    pub dotfiles: String,
    /// Where the configurations are installed.
    pub install_dir: String,
    /// Where conflicting entries of the install directory are kept.
    pub backup_dir: Option<String>,
    /// Where a repository is cloned.
    pub clone_dir: Option<String>,
    /// Go on without asking, and replace existing backups.
    pub force: bool,
    /// Install into a directory set apart for trials.
    pub dry_run: bool,
    /// Whether `dotfiles` is the URL of a repository.
    pub is_repo: bool,
    /// The targets that were occupied when the run began.
    pub conflicts: Vec<String>,
}

/// A [`Cli`] as a mathematical value.
pub struct CliView {
    pub dotfiles: Seq<char>,
    pub install_dir: Seq<char>,
    pub backup_dir: Option<Seq<char>>,
    pub clone_dir: Option<Seq<char>>,
    pub force: bool,
    pub dry_run: bool,
    pub is_repo: bool,
    pub conflicts: Seq<Seq<char>>,
}

impl View for Cli {
    type V = CliView;

    open spec fn view(&self) -> CliView {
        CliView {
            dotfiles: self.dotfiles@,
            install_dir: self.install_dir@,
            backup_dir: match self.backup_dir {
                Some(dir) => Some(dir@),
                None => None,
            },
            clone_dir: match self.clone_dir {
                Some(dir) => Some(dir@),
                None => None,
            },
            force: self.force,
            dry_run: self.dry_run,
            is_repo: self.is_repo,
            conflicts: self.conflicts.deep_view(),
        }
    }
}

impl CliView {
    /// Whether the settings are complete: the backup directory is known,
    /// and for a repository the directory it is cloned to.
    pub open spec fn ready(self) -> bool {
        self.backup_dir.is_some() && (self.is_repo ==> self.clone_dir.is_some())
    }

    /// The directory that holds the configurations: for a repository the
    /// directory it is cloned to.
    pub open spec fn source_dir(self) -> Seq<char> {
        if self.is_repo {
            self.clone_dir.unwrap()
        } else {
            self.dotfiles
        }
    }
}

impl Cli {
    /// Whether the settings are complete.
    pub fn is_ready(&self) -> (ready: bool)
        ensures
            ready == self@.ready(),
    {
        self.backup_dir.is_some() && (!self.is_repo || self.clone_dir.is_some())
    }

    /// The directory that holds the configurations.
    pub fn source_dir(&self) -> (dir: String)
        requires
            self@.ready(),
        ensures
            dir@ == self@.source_dir(),
    {
        if self.is_repo {
            match &self.clone_dir {
                Some(dir) => dir.clone(),
                None => vstd::pervasive::unreached(),
            }
        } else {
            self.dotfiles.clone()
        }
    }
}

/// What the run takes from its surroundings.
#[derive(Debug)]
pub struct Host {
    /// The user's home directory.
    pub home: String,
    /// The user's name.
    pub user: String,
    /// The system's directory for temporary files.
    pub temp_dir: String,
}

/// A [`Host`] as a mathematical value.
pub struct HostView {
    pub home: Seq<char>,
    pub user: Seq<char>,
    pub temp_dir: Seq<char>,
}

impl View for Host {
    type V = HostView;

    open spec fn view(&self) -> HostView {
        HostView { home: self.home@, user: self.user@, temp_dir: self.temp_dir@ }
    }
}

/// The pattern of the URL of a repository.
pub const REPO_PATTERN: &'static str =
    r"^(([A-Za-z0-9]+@|http(|s)://)|(http(|s)://[A-Za-z0-9]+@))([A-Za-z0-9.]+(:\d+)?)(?::|/)([\d/\w.-]+?)(\.git){1}$";

/// The form of the time in the name of a backup directory.
pub const STAMP_FORMAT: &'static str = "%Y-%m-%dT%H:%M:%S";

/// Whether `dotfiles` is the URL of a repository.
pub open spec fn is_repo_url(dotfiles: Seq<char>) -> bool {
    regex_matches(REPO_PATTERN@, dotfiles) == Some(true)
}

/// Where a normalization stands.
#[derive(Clone, Copy, Debug, PartialEq, Eq, Structural)]
pub enum Phase {
    /// The directory to clone to is being created.
    MakingCloneDir,
    /// The directory to clone to is being made absolute.
    ResolvingCloneDir,
    /// The source directory is being made absolute.
    ResolvingSource,
    /// The install directory is being created.
    MakingInstallDir,
    /// The backup directory is being created.
    MakingBackupDir,
    /// The entries of the backup directory are being counted.
    Counting,
    /// Earlier backups are being set aside.
    Stashing,
    /// The normalization has ended.
    Finished,
}

/// The completion of the settings of a run, in progress.
#[derive(Debug)]
pub struct Normalizer {
    stage: Phase,
    args: Cli,
    host: Host,
    stamp: String,
    plan: Vec<Action>,
    cursor: usize,
    pending: Action,
}

/// A [`Normalizer`] as a mathematical value.
#[verifier::ext_equal]
pub struct NormalizerView {
    /// Where the normalization stands.
    pub stage: Phase,
    /// The settings as far as they are completed.
    pub args: CliView,
    pub host: HostView,
    /// The time at which the normalization began, as text.
    pub stamp: Seq<char>,
    /// The requests that set earlier backups aside.
    pub plan: Seq<ActionView>,
    /// The place in the plan of the request that is under way.
    pub cursor: nat,
    /// The request that was made last.
    pub pending: ActionView,
}

impl View for Normalizer {
    type V = NormalizerView;

    closed spec fn view(&self) -> NormalizerView {
        NormalizerView {
            stage: self.stage,
            args: self.args@,
            host: self.host@,
            stamp: self.stamp@,
            plan: action_views(self.plan@),
            cursor: self.cursor as nat,
            pending: self.pending@,
        }
    }
}

/// The install directory of a trial run.
pub open spec fn dry_run_dir(host: HostView) -> Seq<char> {
    host.home + "/.local/share/kot/dry-runs/"@ + host.user
}

/// The backup directory of a run for which none was given: under the data
/// directory, by the final name of the source and the time.
pub open spec fn default_backup_dir(host: HostView, source_name: Seq<char>, stamp: Seq<char>)
    -> Seq<char> {
    join(
        join(join(host.home, ".local/share/kot/"@), "backups/"@),
        source_name + seq![':'] + stamp,
    )
}

/// The error for a backup directory that holds backups already.
pub open spec fn backups_exist_view(dir: Seq<char>) -> ErrorView {
    error_view(
        KindTag::Config,
        "Backups already exist at: "@ + dir,
        "Set the --force flag to overwrite configurations stored here"@,
    )
}

/// The error for a URL from which no name of a repository can be taken.
pub open spec fn unnamed_repo_view(url: Seq<char>) -> ErrorView {
    error_view(KindTag::Config, url, "The URL names no repository"@)
}

impl NormalizerView {
    /// The normalization asks for `action` and waits at `stage`.
    pub open spec fn ask(self, stage: Phase, action: ActionView) -> (NormalizerView, ActionView) {
        (NormalizerView { stage, pending: action, ..self }, action)
    }

    /// The normalization ends with the error `e`.
    pub open spec fn fail(self, e: ErrorView) -> (NormalizerView, ActionView) {
        self.ask(Phase::Finished, ActionView::Fail(e))
    }

    /// The normalization ends because the event does not answer the
    /// request.
    pub open spec fn refuse(self) -> (NormalizerView, ActionView) {
        self.fail(protocol_error_view())
    }

    /// The install directory is settled and created.
    pub open spec fn enter_install(self) -> (NormalizerView, ActionView) {
        let install_dir = if self.args.dry_run {
            dry_run_dir(self.host)
        } else {
            self.args.install_dir
        };
        (NormalizerView { args: CliView { install_dir, ..self.args }, ..self }).ask(
            Phase::MakingInstallDir,
            ActionView::MakeDir { dir: install_dir },
        )
    }

    /// The backup directory is settled and created. Where none was given
    /// and the source has no final name to go by, the normalization fails.
    pub open spec fn enter_backup(self) -> (NormalizerView, ActionView) {
        match self.args.backup_dir {
            Some(dir) => self.ask(Phase::MakingBackupDir, ActionView::MakeDir { dir }),
            None => match final_name(self.args.dotfiles) {
                Some(name) => {
                    let dir = default_backup_dir(self.host, name, self.stamp);
                    (NormalizerView {
                        args: CliView { backup_dir: Some(dir), ..self.args },
                        ..self
                    }).ask(Phase::MakingBackupDir, ActionView::MakeDir { dir })
                },
                None => self.fail(unnamed_error_view(self.args.dotfiles)),
            },
        }
    }

    /// The backup directory holds `count` entries: without `force` any
    /// entry is an error; with it the entries are set aside.
    pub open spec fn counted(self, count: nat) -> (NormalizerView, ActionView) {
        let dir = self.args.backup_dir.unwrap();
        if count > 0 && !self.args.force {
            self.fail(backups_exist_view(dir))
        } else {
            match stash_requests(dir, count, self.host.temp_dir) {
                Ok(plan) => if plan.len() == 0 {
                    self.ask(Phase::Finished, ActionView::Succeed)
                } else {
                    (NormalizerView { plan, cursor: 0, ..self }).ask(Phase::Stashing, plan[0])
                },
                Err(e) => self.fail(e),
            }
        }
    }

    /// The first request of the normalization of `args`, given whether its
    /// source is the URL of a repository, and the time as text.
    pub open spec fn begin(args: CliView, host: HostView, is_repo: bool, stamp: Seq<char>) -> (
        NormalizerView,
        ActionView,
    ) {
        let start = NormalizerView {
            stage: Phase::Finished,
            args: CliView { is_repo, ..args },
            host,
            stamp,
            plan: Seq::empty(),
            cursor: 0,
            pending: ActionView::Succeed,
        };
        if is_repo {
            match args.clone_dir {
                Some(dir) => start.ask(Phase::MakingCloneDir, ActionView::MakeDir { dir }),
                None => if names_repo(args.dotfiles) {
                    (NormalizerView {
                        args: CliView {
                            clone_dir: Some(repo_path(host.home, args.dotfiles)),
                            ..start.args
                        },
                        ..start
                    }).enter_install()
                } else {
                    start.fail(unnamed_repo_view(args.dotfiles))
                },
            }
        } else {
            start.ask(Phase::ResolvingSource, ActionView::Canonicalize { path: args.dotfiles })
        }
    }

    /// The normalization after `event`, and the request it makes next. A
    /// normalization that has ended stays as it is and repeats its last
    /// word.
    pub open spec fn step(self, event: EventView) -> (NormalizerView, ActionView) {
        match (self.stage, event) {
            (Phase::Finished, _) => (self, self.pending),
            (_, EventView::Failed(text)) => self.fail(failure_view(self.pending, text)),
            (Phase::MakingCloneDir, EventView::Done) => match self.args.clone_dir {
                Some(dir) => self.ask(
                    Phase::ResolvingCloneDir,
                    ActionView::Canonicalize { path: dir },
                ),
                None => self.refuse(),
            },
            (Phase::ResolvingCloneDir, EventView::Resolved(path)) => (NormalizerView {
                args: CliView { clone_dir: Some(path), ..self.args },
                ..self
            }).enter_install(),
            (Phase::ResolvingSource, EventView::Resolved(path)) => (NormalizerView {
                args: CliView { dotfiles: path, ..self.args },
                ..self
            }).enter_install(),
            (Phase::MakingInstallDir, EventView::Done) => self.enter_backup(),
            (Phase::MakingBackupDir, EventView::Done) => match self.args.backup_dir {
                Some(dir) => self.ask(Phase::Counting, ActionView::CountEntries { dir }),
                None => self.refuse(),
            },
            (Phase::Counting, EventView::Count(count)) => if self.args.backup_dir.is_some() {
                self.counted(count)
            } else {
                self.refuse()
            },
            (Phase::Stashing, EventView::Done) => if self.cursor + 1 < self.plan.len() {
                (NormalizerView { cursor: (self.cursor + 1) as nat, ..self }).ask(
                    Phase::Stashing,
                    self.plan[self.cursor as int + 1],
                )
            } else {
                self.ask(Phase::Finished, ActionView::Succeed)
            },
            _ => self.refuse(),
        }
    }

    /// Whether the normalization has ended well.
    pub open spec fn succeeded(self) -> bool {
        self.stage == Phase::Finished && self.pending == ActionView::Succeed
    }

    /// What holds of a normalization at every stage: the directories that
    /// it has settled are on record.
    pub open spec fn on_course(self) -> bool {
        let cloned = self.args.is_repo ==> self.args.clone_dir.is_some();
        match self.stage {
            Phase::MakingCloneDir | Phase::ResolvingCloneDir => self.args.is_repo
                && self.args.clone_dir.is_some(),
            Phase::ResolvingSource => !self.args.is_repo,
            Phase::MakingInstallDir => cloned,
            Phase::MakingBackupDir | Phase::Counting | Phase::Stashing => cloned
                && self.args.backup_dir.is_some(),
            Phase::Finished => self.pending == ActionView::Succeed ==> self.args.ready(),
        }
    }
}

/// Law: a normalization is on course from its first request on.
pub proof fn lemma_begin_on_course(
    args: CliView,
    host: HostView,
    is_repo: bool,
    stamp: Seq<char>,
)
    ensures
        NormalizerView::begin(args, host, is_repo, stamp).0.on_course(),
{
}

/// Law: a normalization stays on course through every step. So one that
/// ends well has settings that are complete: the backup directory is
/// known, and for a repository the directory it is cloned to.
pub proof fn lemma_step_on_course(n: NormalizerView, event: EventView)
    requires
        n.on_course(),
    ensures
        n.step(event).0.on_course(),
        n.step(event).0.succeeded() ==> n.step(event).0.args.ready(),
{
}

impl Normalizer {
    /// Whether the normalization has ended well.
    pub fn has_succeeded(&self) -> (done: bool)
        ensures
            done == self@.succeeded(),
    {
        matches!(self.stage, Phase::Finished) && matches!(self.pending, Action::Succeed)
    }

    /// The settings as far as they are completed.
    pub fn into_args(self) -> (args: Cli)
        ensures
            args@ == self@.args,
    {
        self.args
    }

    fn ask(self, stage: Phase, action: Action) -> (next: (Normalizer, Action))
        ensures
            (next.0@, next.1@) == self@.ask(stage, action@),
    {
        let pending = copy_action(&action);
        (Normalizer { stage, pending, ..self }, action)
    }

    fn fail(self, e: Error) -> (next: (Normalizer, Action))
        ensures
            (next.0@, next.1@) == self@.fail(e@),
    {
        self.ask(Phase::Finished, Action::Fail(e))
    }

    fn refuse(self) -> (next: (Normalizer, Action))
        ensures
            (next.0@, next.1@) == self@.refuse(),
    {
        self.fail(protocol_error())
    }

    fn enter_install(self) -> (next: (Normalizer, Action))
        ensures
            (next.0@, next.1@) == self@.enter_install(),
    {
        let install_dir = if self.args.dry_run {
            let mut dir = joined(self.host.home.as_str(), "/.local/share/kot/dry-runs/");
            dir.append(self.host.user.as_str());
            dir
        } else {
            self.args.install_dir.clone()
        };
        let action = create_dir_all(install_dir.as_str());
        let Normalizer { stage, args, host, stamp, plan, cursor, pending } = self;
        let args = Cli { install_dir, ..args };
        (Normalizer { stage, args, host, stamp, plan, cursor, pending }).ask(
            Phase::MakingInstallDir,
            action,
        )
    }

    fn enter_backup(self) -> (next: (Normalizer, Action))
        ensures
            (next.0@, next.1@) == self@.enter_backup(),
    {
        match &self.args.backup_dir {
            Some(dir) => {
                let action = create_dir_all(dir.as_str());
                self.ask(Phase::MakingBackupDir, action)
            },
            None => match file_name(self.args.dotfiles.as_str()) {
                Some(name) => {
                    let data_dir = get_data_dir(self.host.home.as_str());
                    let backups = join_path(data_dir.as_str(), "backups/");
                    let mut leaf = name;
                    proof {
                        reveal_strlit(":");
                        assert(":"@ =~= seq![':']);
                    }
                    leaf.append(":");
                    leaf.append(self.stamp.as_str());
                    let dir = join_path(backups.as_str(), leaf.as_str());
                    let action = create_dir_all(dir.as_str());
                    let Normalizer { stage, args, host, stamp, plan, cursor, pending } = self;
                    let args = Cli { backup_dir: Some(dir), ..args };
                    (Normalizer { stage, args, host, stamp, plan, cursor, pending }).ask(
                        Phase::MakingBackupDir,
                        action,
                    )
                },
                None => {
                    let e = unnamed_error(self.args.dotfiles.as_str());
                    self.fail(e)
                },
            },
        }
    }

    fn counted(self, count: usize) -> (next: (Normalizer, Action))
        requires
            self@.args.backup_dir.is_some(),
        ensures
            (next.0@, next.1@) == self@.counted(count as nat),
    {
        let dir = match &self.args.backup_dir {
            Some(dir) => dir.clone(),
            None => vstd::pervasive::unreached(),
        };
        if count > 0 && !self.args.force {
            let detail = joined("Backups already exist at: ", dir.as_str());
            let e = Error::new(
                ErrorKind::ConfigError(detail),
                "Set the --force flag to overwrite configurations stored here".to_owned(),
            );
            self.fail(e)
        } else {
            match stash_dir(dir.as_str(), count, self.host.temp_dir.as_str()) {
                Ok(plan) => {
                    assert(action_views(plan@).len() == plan.len());
                    if plan.len() == 0 {
                        self.ask(Phase::Finished, Action::Succeed)
                    } else {
                        let first = copy_action(&plan[0]);
                        (Normalizer { plan, cursor: 0, ..self }).ask(Phase::Stashing, first)
                    }
                },
                Err(e) => self.fail(e),
            }
        }
    }

    /// The normalization after `event`, the outcome of the request it made
    /// last, and the request it makes next.
    pub fn step(self, event: Event) -> (next: (Normalizer, Action))
        ensures
            (next.0@, next.1@) == self@.step(event@),
    {
        if matches!(self.stage, Phase::Finished) {
            let last = copy_action(&self.pending);
            return (self, last);
        }
        match event {
            Event::Failed(text) => {
                let e = failure(&self.pending, text.as_str());
                self.fail(e)
            },
            Event::Done => match self.stage {
                Phase::MakingCloneDir => match &self.args.clone_dir {
                    Some(dir) => {
                        let action = abs(dir.as_str());
                        self.ask(Phase::ResolvingCloneDir, action)
                    },
                    None => self.refuse(),
                },
                Phase::MakingInstallDir => self.enter_backup(),
                Phase::MakingBackupDir => match &self.args.backup_dir {
                    Some(dir) => {
                        let action = dir_entries(dir.as_str());
                        self.ask(Phase::Counting, action)
                    },
                    None => self.refuse(),
                },
                Phase::Stashing => {
                    if self.cursor < self.plan.len() && self.cursor + 1 < self.plan.len() {
                        let cursor = self.cursor + 1;
                        let action = copy_action(&self.plan[cursor]);
                        (Normalizer { cursor, ..self }).ask(Phase::Stashing, action)
                    } else {
                        self.ask(Phase::Finished, Action::Succeed)
                    }
                },
                _ => self.refuse(),
            },
            Event::Resolved(path) => match self.stage {
                Phase::ResolvingCloneDir => {
                    let Normalizer { stage, args, host, stamp, plan, cursor, pending } = self;
                    let args = Cli { clone_dir: Some(path), ..args };
                    (Normalizer { stage, args, host, stamp, plan, cursor, pending }).enter_install()
                },
                Phase::ResolvingSource => {
                    let Normalizer { stage, args, host, stamp, plan, cursor, pending } = self;
                    let args = Cli { dotfiles: path, ..args };
                    (Normalizer { stage, args, host, stamp, plan, cursor, pending }).enter_install()
                },
                _ => self.refuse(),
            },
            Event::Count(count) => match self.stage {
                Phase::Counting => if self.args.backup_dir.is_some() {
                    self.counted(count)
                } else {
                    self.refuse()
                },
                _ => self.refuse(),
            },
            _ => self.refuse(),
        }
    }
}

impl Cli {
    /// Begins the normalization of these settings, given whether the
    /// source is the URL of a repository, and the time as text.
    ///
    /// A source that is a directory is made absolute; for a repository the
    /// directory to clone to is settled, and created if it was given. The
    /// install and backup directories are settled and created. A backup
    /// directory that holds entries is an error without `force`; with it
    /// the entries are set aside.
    pub fn normalize_with(self, host: Host, is_repo: bool, stamp: String) -> (first: (
        Normalizer,
        Action,
    ))
        ensures
            (first.0@, first.1@) == NormalizerView::begin(self@, host@, is_repo, stamp@),
    {
        let args = Cli { is_repo, ..self };
        let start = Normalizer {
            stage: Phase::Finished,
            args,
            host,
            stamp,
            plan: Vec::new(),
            cursor: 0,
            pending: Action::Succeed,
        };
        assert(action_views(start.plan@) =~= Seq::<ActionView>::empty());
        if is_repo {
            match &start.args.clone_dir {
                Some(dir) => {
                    let action = create_dir_all(dir.as_str());
                    start.ask(Phase::MakingCloneDir, action)
                },
                None => match crate::kgit::try_repo_name(start.args.dotfiles.as_str()) {
                    Some(_) => {
                        let dir = get_repo_path(
                            start.host.home.as_str(),
                            start.args.dotfiles.as_str(),
                        );
                        let Normalizer { stage, args, host, stamp, plan, cursor, pending } = start;
                        let args = Cli { clone_dir: Some(dir), ..args };
                        (Normalizer {
                            stage,
                            args,
                            host,
                            stamp,
                            plan,
                            cursor,
                            pending,
                        }).enter_install()
                    },
                    None => {
                        let e = Error::new(
                            ErrorKind::ConfigError(start.args.dotfiles.clone()),
                            "The URL names no repository".to_owned(),
                        );
                        start.fail(e)
                    },
                },
            }
        } else {
            let action = abs(start.args.dotfiles.as_str());
            start.ask(Phase::ResolvingSource, action)
        }
    }

    /// Begins the normalization of these settings. Whether the source is a
    /// repository is decided by [`REPO_PATTERN`]. The time is read from the
    /// clock where the name of the backup directory needs it, so that the
    /// contract holds for some text in its place.
    pub fn normalize(self, host: Host) -> (first: (Normalizer, Action))
        ensures
            exists|stamp: Seq<char>|
                (first.0@, first.1@) == #[trigger] NormalizerView::begin(
                    self@,
                    host@,
                    is_repo_url(self@.dotfiles),
                    stamp,
                ),
    {
        let is_repo = match regex_is_match(REPO_PATTERN, self.dotfiles.as_str()) {
            Some(found) => found,
            None => false,
        };
        let stamp = if self.backup_dir.is_none() {
            local_time(STAMP_FORMAT)
        } else {
            String::new()
        };
        let ghost before = self@;
        let ghost host_view = host@;
        let ghost stamp_view = stamp@;
        let first = self.normalize_with(host, is_repo, stamp);
        assert((first.0@, first.1@) == NormalizerView::begin(
            before,
            host_view,
            is_repo_url(before.dotfiles),
            stamp_view,
        ));
        first
    }
}

/// Begins the normalization of the settings that were read from the
/// command line.
pub fn from_args(args: Cli, host: Host) -> (first: (Normalizer, Action))
    ensures
        exists|stamp: Seq<char>|
            (first.0@, first.1@) == #[trigger] NormalizerView::begin(
                args@,
                host@,
                is_repo_url(args@.dotfiles),
                stamp,
            ),
{
    args.normalize(host)
}

} // verus!
