//! Paths as text: joining a directory with a name, and taking a path's
//! final name.

use vstd::prelude::*;
use vstd::string::*;

verus! {

/// The separator between the components of a path.
pub open spec fn sep() -> char {
    '/'
}

/// `name` placed under `dir`. A `name` that starts at the root stands for
/// itself; otherwise one separator stands between the two, unless `dir` is
/// empty or already ends in one.
pub open spec fn join(dir: Seq<char>, name: Seq<char>) -> Seq<char> {
    if name.len() > 0 && name[0] == sep() {
        name
    } else if dir.len() == 0 || dir.last() == sep() {
        dir + name
    } else {
        dir + seq![sep()] + name
    }
}

/// A name as a directory listing gives it: not empty, without a separator,
/// and neither `.` nor `..`.
pub open spec fn is_entry_name(name: Seq<char>) -> bool {
    &&& name.len() > 0
    &&& !name.contains(sep())
    &&& name != seq!['.']
    &&& name != seq!['.', '.']
}

/// `path` without the separators at its end.
pub open spec fn trim_end(path: Seq<char>) -> Seq<char>
    decreases path.len(),
{
    if path.len() > 0 && path.last() == sep() {
        trim_end(path.drop_last())
    } else {
        path
    }
}

/// The number of characters of `path` up to and including its last
/// separator; zero if it has none.
pub open spec fn stem_len(path: Seq<char>) -> nat
    decreases path.len(),
{
    if path.len() == 0 {
        0
    } else if path.last() == sep() {
        path.len()
    } else {
        stem_len(path.drop_last())
    }
}

/// What follows the last separator of `path`, separators at the end of
/// `path` left aside.
pub open spec fn tail(path: Seq<char>) -> Seq<char> {
    let t = trim_end(path);
    t.subrange(stem_len(t) as int, t.len() as int)
}

/// The final name of `path`, if it has one: its tail, unless that is empty,
/// `.` or `..`.
pub open spec fn final_name(path: Seq<char>) -> Option<Seq<char>> {
    let n = tail(path);
    if n.len() == 0 || n == seq!['.'] || n == seq!['.', '.'] {
        None
    } else {
        Some(n)
    }
}

/// The stem of `prefix + name` ends where `prefix` ends, when `prefix` ends
/// in a separator and `name` holds none.
pub proof fn lemma_stem_len_append(prefix: Seq<char>, name: Seq<char>)
    requires
        prefix.len() == 0 || prefix.last() == sep(),
        !name.contains(sep()),
    ensures
        stem_len(prefix + name) == prefix.len(),
    decreases name.len(),
{
    let whole = prefix + name;
    if name.len() == 0 {
        assert(whole =~= prefix);
        if prefix.len() > 0 {
            assert(whole.last() == sep());
        }
    } else {
        assert(whole.last() == name.last());
        assert(name.contains(name.last()));
        assert(whole.drop_last() =~= prefix + name.drop_last());
        assert forall|c: char| name.drop_last().contains(c) implies name.contains(c) by {
            let i = choose|i: int| 0 <= i < name.drop_last().len() && name.drop_last()[i] == c;
            assert(name[i] == c);
        }
        lemma_stem_len_append(prefix, name.drop_last());
    }
}

/// Law: the final name of an entry placed under a directory is the entry's
/// name.
pub proof fn lemma_final_name_of_join(dir: Seq<char>, name: Seq<char>)
    requires
        is_entry_name(name),
    ensures
        final_name(join(dir, name)) == Some(name),
{
    let path = join(dir, name);
    assert(name[0] != sep()) by {
        assert(name.contains(name[0]));
    }
    assert(name.contains(name.last()));
    let prefix = if dir.len() == 0 || dir.last() == sep() {
        dir
    } else {
        dir + seq![sep()]
    };
    assert(path =~= prefix + name);
    assert(path.last() == name.last());
    assert(trim_end(path) == path);
    lemma_stem_len_append(prefix, name);
    assert(path.subrange(prefix.len() as int, path.len() as int) =~= name);
}

/// Law: under one directory, different entry names give different paths.
pub proof fn lemma_join_injective(dir: Seq<char>, a: Seq<char>, b: Seq<char>)
    requires
        is_entry_name(a),
        is_entry_name(b),
        join(dir, a) == join(dir, b),
    ensures
        a == b,
{
    lemma_final_name_of_join(dir, a);
    lemma_final_name_of_join(dir, b);
}

/// `name` placed under `dir`.
pub fn join_path(dir: &str, name: &str) -> (path: String)
    ensures
        path@ == join(dir@, name@),
{
    let name_len = name.unicode_len();
    if name_len > 0 && name.get_char(0) == '/' {
        return name.to_owned();
    }
    let dir_len = dir.unicode_len();
    let mut path = dir.to_owned();
    if dir_len > 0 && dir.get_char(dir_len - 1) != '/' {
        proof {
            reveal_strlit("/");
            assert("/"@ =~= seq![sep()]);
        }
        path.append("/");
    }
    path.append(name);
    path
}

/// The final name of `path`, if it has one.
pub fn file_name(path: &str) -> (name: Option<String>)
    ensures
        name.is_some() == final_name(path@).is_some(),
        name.is_some() ==> name.unwrap()@ == final_name(path@).unwrap(),
{
    let len = path.unicode_len();
    let mut end = len;
    proof {
        assert(path@.subrange(0, len as int) =~= path@);
    }
    while end > 0 && path.get_char(end - 1) == '/'
        invariant
            end <= len,
            len == path@.len(),
            trim_end(path@) == trim_end(path@.subrange(0, end as int)),
        decreases end,
    {
        proof {
            let cur = path@.subrange(0, end as int);
            assert(cur.last() == sep());
            assert(cur.drop_last() =~= path@.subrange(0, end - 1));
        }
        end = end - 1;
    }
    let ghost trimmed = path@.subrange(0, end as int);
    proof {
        assert(trim_end(path@) == trimmed);
        assert(trimmed.subrange(0, end as int) =~= trimmed);
    }
    let mut start = end;
    while start > 0 && path.get_char(start - 1) != '/'
        invariant
            start <= end <= len,
            len == path@.len(),
            trimmed == path@.subrange(0, end as int),
            stem_len(trimmed) == stem_len(trimmed.subrange(0, start as int)),
        decreases start,
    {
        proof {
            let cur = trimmed.subrange(0, start as int);
            assert(cur.last() != sep());
            assert(cur.drop_last() =~= trimmed.subrange(0, start - 1));
        }
        start = start - 1;
    }
    proof {
        let cur = trimmed.subrange(0, start as int);
        if start > 0 {
            assert(cur.last() == sep());
        }
        assert(stem_len(trimmed) == start);
        assert(tail(path@) =~= path@.subrange(start as int, end as int));
    }
    let count = end - start;
    if count == 0 {
        return None;
    }
    if count == 1 && path.get_char(start) == '.' {
        proof {
            assert(tail(path@) =~= seq!['.']);
        }
        return None;
    }
    if count == 2 && path.get_char(start) == '.' && path.get_char(start + 1) == '.' {
        proof {
            assert(tail(path@) =~= seq!['.', '.']);
        }
        return None;
    }
    proof {
        let n = tail(path@);
        if n == seq!['.'] {
            assert(n.len() == 1 && n[0] == '.');
        }
        if n == seq!['.', '.'] {
            assert(n.len() == 2 && n[0] == '.' && n[1] == '.');
        }
    }
    Some(path.substring_char(start, end).to_owned())
}

} // verus!
