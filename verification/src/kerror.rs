//! Classified errors.

use vstd::prelude::*;

verus! {

/// The classes of failure, each with the text that describes the cause.
#[derive(Debug)]
pub enum ErrorKind {
    /// The configuration cannot be used as given.
    ConfigError(String),
    /// Cloning the repository failed.
    GitError(String),
    /// A file system operation failed.
    IOError(String),
    /// Moving a single file failed.
    FileError(String),
    /// Moving a directory failed.
    DirError(String),
    /// Anything else.
    Other(String),
}

/// The class of an [`ErrorKind`], without its text.
#[derive(Clone, Copy, Debug, PartialEq, Eq, Structural)]
pub enum KindTag {
    Config,
    Git,
    IO,
    File,
    Dir,
    Other,
}

/// An [`ErrorKind`] as a mathematical value.
pub struct KindView {
    pub tag: KindTag,
    pub detail: Seq<char>,
}

impl View for ErrorKind {
    type V = KindView;

    open spec fn view(&self) -> KindView {
        match self {
            ErrorKind::ConfigError(s) => KindView { tag: KindTag::Config, detail: s@ },
            ErrorKind::GitError(s) => KindView { tag: KindTag::Git, detail: s@ },
            ErrorKind::IOError(s) => KindView { tag: KindTag::IO, detail: s@ },
            ErrorKind::FileError(s) => KindView { tag: KindTag::File, detail: s@ },
            ErrorKind::DirError(s) => KindView { tag: KindTag::Dir, detail: s@ },
            ErrorKind::Other(s) => KindView { tag: KindTag::Other, detail: s@ },
        }
    }
}

impl ErrorKind {
    /// The class of this kind.
    pub fn tag(&self) -> (t: KindTag)
        ensures
            t == self@.tag,
    {
        match self {
            ErrorKind::ConfigError(_) => KindTag::Config,
            ErrorKind::GitError(_) => KindTag::Git,
            ErrorKind::IOError(_) => KindTag::IO,
            ErrorKind::FileError(_) => KindTag::File,
            ErrorKind::DirError(_) => KindTag::Dir,
            ErrorKind::Other(_) => KindTag::Other,
        }
    }

    /// The text that describes the cause.
    pub fn detail(&self) -> (s: &str)
        ensures
            s@ == self@.detail,
    {
        match self {
            ErrorKind::ConfigError(s) => s.as_str(),
            ErrorKind::GitError(s) => s.as_str(),
            ErrorKind::IOError(s) => s.as_str(),
            ErrorKind::FileError(s) => s.as_str(),
            ErrorKind::DirError(s) => s.as_str(),
            ErrorKind::Other(s) => s.as_str(),
        }
    }

    /// A copy of this kind.
    pub fn duplicate(&self) -> (k: ErrorKind)
        ensures
            k@ == self@,
    {
        match self {
            ErrorKind::ConfigError(s) => ErrorKind::ConfigError(s.clone()),
            ErrorKind::GitError(s) => ErrorKind::GitError(s.clone()),
            ErrorKind::IOError(s) => ErrorKind::IOError(s.clone()),
            ErrorKind::FileError(s) => ErrorKind::FileError(s.clone()),
            ErrorKind::DirError(s) => ErrorKind::DirError(s.clone()),
            ErrorKind::Other(s) => ErrorKind::Other(s.clone()),
        }
    }
}

/// A failure: its kind, and a message for the user.
#[derive(Debug)]
pub struct Error {
    pub kind: ErrorKind,
    message: String,
}

/// An [`Error`] as a mathematical value.
pub struct ErrorView {
    pub kind: KindView,
    pub message: Seq<char>,
}

impl View for Error {
    type V = ErrorView;

    closed spec fn view(&self) -> ErrorView {
        ErrorView { kind: self.kind@, message: self.message@ }
    }
}

impl Error {
    /// An error of the given kind with the given message.
    pub fn new(kind: ErrorKind, message: String) -> (e: Error)
        ensures
            e@ == (ErrorView { kind: kind@, message: message@ }),
    {
        Error { kind, message }
    }

    /// The message for the user.
    pub fn message(&self) -> (s: &str)
        ensures
            s@ == self@.message,
    {
        self.message.as_str()
    }

    /// A copy of this error.
    pub fn duplicate(&self) -> (e: Error)
        ensures
            e@ == self@,
    {
        Error { kind: self.kind.duplicate(), message: self.message.clone() }
    }

    /// The kind of this error.
    pub fn kind(&self) -> (k: &ErrorKind)
        ensures
            k@ == self@.kind,
    {
        &self.kind
    }
}

} // verus!
