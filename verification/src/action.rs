//! What the engine asks of its caller, and what the caller reports back.

use vstd::prelude::*;
use crate::kerror::{Error, ErrorView};

verus! {

/// What was found at a path.
#[derive(Clone, Copy, Debug, PartialEq, Eq, Structural)]
pub enum PathStatus {
    /// Nothing is there.
    Missing,
    /// A file, or a link that leads to one.
    File,
    /// A directory, or a link that leads to one.
    Directory,
    /// A link that leads nowhere.
    DanglingLink,
}

impl PathStatus {
    /// Whether an entry occupies the path. A link that leads nowhere does.
    pub open spec fn occupied(self) -> bool {
        self != PathStatus::Missing
    }

    /// Whether an entry occupies the path.
    pub fn is_occupied(self) -> (b: bool)
        ensures
            b == self.occupied(),
    {
        !matches!(self, PathStatus::Missing)
    }

    /// Whether the path holds a directory.
    pub fn is_dir(self) -> (b: bool)
        ensures
            b == (self == PathStatus::Directory),
    {
        matches!(self, PathStatus::Directory)
    }
}

/// How a directory is moved.
#[derive(Clone, Copy, Debug, PartialEq, Eq, Structural)]
pub struct MoveOptions {
    /// Where the destination does not exist, the directory becomes the
    /// destination; where it exists, the directory is placed inside it.
    pub copy_inside: bool,
    /// Files that exist at the destination are replaced.
    pub overwrite: bool,
}

/// One request to the caller. The caller performs it and answers with the
/// [`Event`] that describes the outcome, except for the last two, which end
/// the run.
#[derive(Debug)]
pub enum Action {
    /// Clone the repository at `url` into `dir`, submodules included.
    CloneRepo { url: String, dir: String },
    /// Create `dir` and the directories above it that are missing.
    MakeDir { dir: String },
    /// Give the absolute form of `path`.
    Canonicalize { path: String },
    /// Count the entries directly under `dir`; a missing `dir` has none.
    CountEntries { dir: String },
    /// Give the names of the entries directly under `dir`.
    ListDir { dir: String },
    /// Say what is at each of `paths`.
    Probe { paths: Vec<String> },
    /// Put `message` to the user and take a yes or a no.
    Prompt { message: String },
    /// Move the directory `from`, with all below it, to `to`. A symbolic
    /// link that lies where the directory is to go is replaced.
    MoveDir { from: String, to: String, options: MoveOptions },
    /// Move the file `from` to the path `to`, replacing what is there. A
    /// symbolic link at `to` is itself replaced, not what it leads to.
    MoveFile { from: String, to: String },
    /// Create at `target` a symbolic link to `source`.
    Symlink { source: String, target: String },
    /// Remove the directory at `path` with all below it.
    RemoveDir { path: String },
    /// Remove the file or link at `path`.
    RemoveFile { path: String },
    /// The run has ended well.
    Succeed,
    /// The run has ended with this error.
    Fail(Error),
}

/// An [`Action`] as a mathematical value.
pub enum ActionView {
    CloneRepo { url: Seq<char>, dir: Seq<char> },
    MakeDir { dir: Seq<char> },
    Canonicalize { path: Seq<char> },
    CountEntries { dir: Seq<char> },
    ListDir { dir: Seq<char> },
    Probe { paths: Seq<Seq<char>> },
    Prompt { message: Seq<char> },
    MoveDir { from: Seq<char>, to: Seq<char>, options: MoveOptions },
    MoveFile { from: Seq<char>, to: Seq<char> },
    Symlink { source: Seq<char>, target: Seq<char> },
    RemoveDir { path: Seq<char> },
    RemoveFile { path: Seq<char> },
    Succeed,
    Fail(ErrorView),
}

impl View for Action {
    type V = ActionView;

    open spec fn view(&self) -> ActionView {
        match self {
            Action::CloneRepo { url, dir } => ActionView::CloneRepo { url: url@, dir: dir@ },
            Action::MakeDir { dir } => ActionView::MakeDir { dir: dir@ },
            Action::Canonicalize { path } => ActionView::Canonicalize { path: path@ },
            Action::CountEntries { dir } => ActionView::CountEntries { dir: dir@ },
            Action::ListDir { dir } => ActionView::ListDir { dir: dir@ },
            Action::Probe { paths } => ActionView::Probe { paths: paths.deep_view() },
            Action::Prompt { message } => ActionView::Prompt { message: message@ },
            Action::MoveDir { from, to, options } => ActionView::MoveDir {
                from: from@,
                to: to@,
                options: *options,
            },
            Action::MoveFile { from, to } => ActionView::MoveFile { from: from@, to: to@ },
            Action::Symlink { source, target } => ActionView::Symlink {
                source: source@,
                target: target@,
            },
            Action::RemoveDir { path } => ActionView::RemoveDir { path: path@ },
            Action::RemoveFile { path } => ActionView::RemoveFile { path: path@ },
            Action::Succeed => ActionView::Succeed,
            Action::Fail(e) => ActionView::Fail(e@),
        }
    }
}

impl ActionView {
    /// Whether the action changes the file system when it is performed.
    pub open spec fn mutates(self) -> bool {
        match self {
            ActionView::CloneRepo { .. } => true,
            ActionView::MakeDir { .. } => true,
            ActionView::MoveDir { .. } => true,
            ActionView::MoveFile { .. } => true,
            ActionView::Symlink { .. } => true,
            ActionView::RemoveDir { .. } => true,
            ActionView::RemoveFile { .. } => true,
            _ => false,
        }
    }
}

/// The outcome of one [`Action`].
#[derive(Debug)]
pub enum Event {
    /// The action was performed.
    Done,
    /// The action failed; the text says why.
    Failed(String),
    /// The absolute form of the path.
    Resolved(String),
    /// The number of entries.
    Count(usize),
    /// The names of the entries.
    Listing(Vec<String>),
    /// What is at each path, in the order in which they were given.
    Statuses(Vec<PathStatus>),
    /// The user's answer.
    Answer(bool),
}

/// An [`Event`] as a mathematical value.
pub enum EventView {
    Done,
    Failed(Seq<char>),
    Resolved(Seq<char>),
    Count(nat),
    Listing(Seq<Seq<char>>),
    Statuses(Seq<PathStatus>),
    Answer(bool),
}

impl View for Event {
    type V = EventView;

    open spec fn view(&self) -> EventView {
        match self {
            Event::Done => EventView::Done,
            Event::Failed(text) => EventView::Failed(text@),
            Event::Resolved(path) => EventView::Resolved(path@),
            Event::Count(n) => EventView::Count(*n as nat),
            Event::Listing(names) => EventView::Listing(names.deep_view()),
            Event::Statuses(found) => EventView::Statuses(found@),
            Event::Answer(yes) => EventView::Answer(*yes),
        }
    }
}

/// A copy of a list of texts.
pub fn copy_texts(texts: &Vec<String>) -> (copy: Vec<String>)
    ensures
        copy.deep_view() == texts.deep_view(),
{
    let mut copy: Vec<String> = Vec::new();
    let mut i: usize = 0;
    while i < texts.len()
        invariant
            i <= texts.len(),
            copy.len() == i,
            forall|k: int| 0 <= k < i ==> copy[k]@ == texts[k]@,
        decreases texts.len() - i,
    {
        copy.push(texts[i].clone());
        i = i + 1;
    }
    assert(copy.deep_view() =~= texts.deep_view());
    copy
}

/// A copy of an action.
pub fn copy_action(action: &Action) -> (copy: Action)
    ensures
        copy@ == action@,
{
    match action {
        Action::CloneRepo { url, dir } => Action::CloneRepo { url: url.clone(), dir: dir.clone() },
        Action::MakeDir { dir } => Action::MakeDir { dir: dir.clone() },
        Action::Canonicalize { path } => Action::Canonicalize { path: path.clone() },
        Action::CountEntries { dir } => Action::CountEntries { dir: dir.clone() },
        Action::ListDir { dir } => Action::ListDir { dir: dir.clone() },
        Action::Probe { paths } => Action::Probe { paths: copy_texts(paths) },
        Action::Prompt { message } => Action::Prompt { message: message.clone() },
        Action::MoveDir { from, to, options } => Action::MoveDir {
            from: from.clone(),
            to: to.clone(),
            options: *options,
        },
        Action::MoveFile { from, to } => Action::MoveFile { from: from.clone(), to: to.clone() },
        Action::Symlink { source, target } => Action::Symlink {
            source: source.clone(),
            target: target.clone(),
        },
        Action::RemoveDir { path } => Action::RemoveDir { path: path.clone() },
        Action::RemoveFile { path } => Action::RemoveFile { path: path.clone() },
        Action::Succeed => Action::Succeed,
        Action::Fail(e) => Action::Fail(e.duplicate()),
    }
}

} // verus!
