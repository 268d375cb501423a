//! A model of the file system: what lies at which path, and what each
//! request does to it when it is performed with success.
//!
//! The model is flat. An entry of a directory in which the engine works
//! lies at the path of the directory joined with the entry's name; an
//! entry that is itself a directory stands for all that lies below it, and
//! is moved and removed as one value.

use vstd::prelude::*;
use crate::action::{ActionView, PathStatus};
use crate::kfs::{is_listing, landing};
use crate::kpath::{is_entry_name, join};

verus! {

/// What lies at a path.
pub enum Node {
    /// A file with its content.
    File { content: Seq<u8> },
    /// A directory, with all below it taken as one value.
    Dir { tree: int },
    /// A symbolic link to a path.
    Link { to: Seq<char> },
}

/// The file system: the paths at which something lies, each with what lies
/// there.
pub type World = Map<Seq<char>, Node>;

/// The directory that holds nothing.
pub open spec fn empty_dir() -> Node {
    Node::Dir { tree: 0 }
}

/// What a look at `path` finds. A link is judged by what it leads to.
pub open spec fn status_of(w: World, path: Seq<char>) -> PathStatus {
    if !w.contains_key(path) {
        PathStatus::Missing
    } else {
        match w[path] {
            Node::File { .. } => PathStatus::File,
            Node::Dir { .. } => PathStatus::Directory,
            Node::Link { to } => if !w.contains_key(to) {
                PathStatus::DanglingLink
            } else if w[to] is Dir {
                PathStatus::Directory
            } else {
                PathStatus::File
            },
        }
    }
}

/// What a look at each of `paths` finds.
pub open spec fn observe(w: World, paths: Seq<Seq<char>>) -> Seq<PathStatus> {
    Seq::new(paths.len(), |i: int| status_of(w, paths[i]))
}

/// `w` after what lies at `from` was moved to `to`, replacing what was
/// there. With nothing at `from`, nothing changes.
pub open spec fn moved(w: World, from: Seq<char>, to: Seq<char>) -> World {
    if w.contains_key(from) {
        w.remove(from).insert(to, w[from])
    } else {
        w
    }
}

/// `w` after `action` was performed with success. A request that only
/// looks or asks changes nothing; what a clone brings is not part of this
/// model.
pub open spec fn effect(w: World, action: ActionView) -> World {
    match action {
        ActionView::MakeDir { dir } => if w.contains_key(dir) {
            w
        } else {
            w.insert(dir, empty_dir())
        },
        ActionView::MoveDir { from, to, options } => match landing(
            from,
            to,
            w.contains_key(to),
            options.copy_inside,
        ) {
            Some(place) => moved(w, from, place),
            None => w,
        },
        ActionView::MoveFile { from, to } => moved(w, from, to),
        ActionView::Symlink { source, target } => w.insert(target, Node::Link { to: source }),
        ActionView::RemoveDir { path } => w.remove(path),
        ActionView::RemoveFile { path } => w.remove(path),
        _ => w,
    }
}

/// The names of the entries that lie directly under `dir`.
pub open spec fn entries_under(w: World, dir: Seq<char>) -> Set<Seq<char>> {
    Set::new(|name: Seq<char>| is_entry_name(name) && w.contains_key(join(dir, name)))
}

/// Whether `names` is a listing of the directory `dir`: the names of its
/// entries, each once.
pub open spec fn lists(names: Seq<Seq<char>>, w: World, dir: Seq<char>) -> bool {
    &&& is_listing(names)
    &&& forall|name: Seq<char>| names.contains(name) <==> entries_under(w, dir).contains(name)
}

/// Whether `dir` holds `count` entries.
pub open spec fn holds(w: World, dir: Seq<char>, count: nat) -> bool {
    entries_under(w, dir).finite() && entries_under(w, dir).len() == count
}

/// `w` after every request of `plan` was performed with success, in their
/// order.
pub open spec fn apply_all(w: World, plan: Seq<ActionView>) -> World
    decreases plan.len(),
{
    if plan.len() == 0 {
        w
    } else {
        effect(apply_all(w, plan.drop_last()), plan.last())
    }
}

} // verus!
