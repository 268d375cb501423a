//! Repositories: the request to clone one, and the name of one.

use vstd::prelude::*;
use vstd::string::*;
use crate::action::Action;
use crate::kerror::{Error, ErrorKind, ErrorView, KindTag, KindView};
use crate::kpath::{sep, stem_len};

verus! {

/// The request to clone the repository at `repo_url` into `clone_dir`.
pub fn clone(repo_url: &str, clone_dir: &str) -> (action: Action)
    ensures
        action@ == (crate::action::ActionView::CloneRepo { url: repo_url@, dir: clone_dir@ }),
{
    Action::CloneRepo { url: repo_url.to_owned(), dir: clone_dir.to_owned() }
}

/// The error for a clone that ended with `status`.
pub open spec fn clone_error_view(status: Seq<char>) -> ErrorView {
    ErrorView {
        kind: KindView { tag: KindTag::Git, detail: status },
        message: "Unable to clone repository"@,
    }
}

/// The error for a clone that ended with `status`.
pub fn clone_error(status: &str) -> (e: Error)
    ensures
        e@ == clone_error_view(status@),
{
    Error::new(ErrorKind::GitError(status.to_owned()), "Unable to clone repository".to_owned())
}

/// The suffix that marks a repository.
pub open spec fn git_suffix() -> Seq<char> {
    seq!['.', 'g', 'i', 't']
}

/// What follows the last separator of `url`.
pub open spec fn last_segment(url: Seq<char>) -> Seq<char> {
    url.subrange(stem_len(url) as int, url.len() as int)
}

/// Whether `url` names a repository: it holds a separator, and what follows
/// the last one ends in `.git`.
pub open spec fn names_repo(url: Seq<char>) -> bool {
    let seg = last_segment(url);
    &&& stem_len(url) > 0
    &&& seg.len() >= 4
    &&& seg.subrange(seg.len() - 4, seg.len() as int) == git_suffix()
}

/// The name of the repository at `url`: what follows the last separator,
/// without the `.git` at its end.
pub open spec fn repo_name_spec(url: Seq<char>) -> Seq<char> {
    let seg = last_segment(url);
    seg.subrange(0, seg.len() - 4)
}

/// The name of the repository at `repo_url`, or `None` where the URL names
/// none.
pub fn try_repo_name(repo_url: &str) -> (name: Option<String>)
    ensures
        name.is_some() == names_repo(repo_url@),
        name.is_some() ==> name.unwrap()@ == repo_name_spec(repo_url@),
{
    let len = repo_url.unicode_len();
    let mut start = len;
    proof {
        assert(repo_url@.subrange(0, len as int) =~= repo_url@);
    }
    while start > 0 && repo_url.get_char(start - 1) != '/'
        invariant
            start <= len,
            len == repo_url@.len(),
            stem_len(repo_url@) == stem_len(repo_url@.subrange(0, start as int)),
        decreases start,
    {
        proof {
            let cur = repo_url@.subrange(0, start as int);
            assert(cur.last() != sep());
            assert(cur.drop_last() =~= repo_url@.subrange(0, start - 1));
        }
        start = start - 1;
    }
    proof {
        let cur = repo_url@.subrange(0, start as int);
        if start > 0 {
            assert(cur.last() == sep());
        }
        assert(stem_len(repo_url@) == start);
    }
    let ghost seg = last_segment(repo_url@);
    if start == 0 || len - start < 4 {
        return None;
    }
    let c0 = repo_url.get_char(len - 4);
    let c1 = repo_url.get_char(len - 3);
    let c2 = repo_url.get_char(len - 2);
    let c3 = repo_url.get_char(len - 1);
    let ghost end = seg.subrange(seg.len() - 4, seg.len() as int);
    proof {
        assert(end.len() == 4);
        assert(end[0] == c0 && end[1] == c1 && end[2] == c2 && end[3] == c3);
    }
    if c0 == '.' && c1 == 'g' && c2 == 'i' && c3 == 't' {
        proof {
            assert(end =~= git_suffix());
            assert(repo_name_spec(repo_url@) =~= repo_url@.subrange(start as int, len - 4));
        }
        Some(repo_url.substring_char(start, len - 4).to_owned())
    } else {
        proof {
            assert(git_suffix()[0] == '.' && git_suffix()[1] == 'g' && git_suffix()[2] == 'i'
                && git_suffix()[3] == 't');
        }
        None
    }
}

/// The name of the repository at `repo_url`.
pub fn repo_name(repo_url: &str) -> (name: String)
    requires
        names_repo(repo_url@),
    ensures
        name@ == repo_name_spec(repo_url@),
{
    match try_repo_name(repo_url) {
        Some(name) => name,
        None => vstd::pervasive::unreached(),
    }
}

} // verus!
