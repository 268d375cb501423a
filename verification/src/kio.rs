//! The question to the user, and the reading of the answer.

use vstd::prelude::*;
use vstd::string::*;
use crate::action::{Action, ActionView};

verus! {

/// Whether `c` is white space: one of the characters with the Unicode
/// property of that name.
pub open spec fn is_space(c: char) -> bool {
    let u = c as u32;
    ||| 0x09 <= u <= 0x0D
    ||| u == 0x20
    ||| u == 0x85
    ||| u == 0xA0
    ||| u == 0x1680
    ||| 0x2000 <= u <= 0x200A
    ||| u == 0x2028
    ||| u == 0x2029
    ||| u == 0x202F
    ||| u == 0x205F
    ||| u == 0x3000
}

/// `text` without the white space at its start.
pub open spec fn trim_start(text: Seq<char>) -> Seq<char>
    decreases text.len(),
{
    if text.len() > 0 && is_space(text[0]) {
        trim_start(text.drop_first())
    } else {
        text
    }
}

/// `text` without the white space at its end.
pub open spec fn trim_end(text: Seq<char>) -> Seq<char>
    decreases text.len(),
{
    if text.len() > 0 && is_space(text.last()) {
        trim_end(text.drop_last())
    } else {
        text
    }
}

/// `text` without the white space around it.
pub open spec fn trim(text: Seq<char>) -> Seq<char> {
    trim_end(trim_start(text))
}

/// What `reply` answers: yes for `y` or `Y`, no for `n` or `N`, white
/// space around the letter left aside; nothing for anything else.
pub open spec fn answer(reply: Seq<char>) -> Option<bool> {
    let word = trim(reply);
    if word == seq!['y'] || word == seq!['Y'] {
        Some(true)
    } else if word == seq!['n'] || word == seq!['N'] {
        Some(false)
    } else {
        None
    }
}

/// Whether `c` is white space.
fn is_whitespace(c: char) -> (space: bool)
    ensures
        space == is_space(c),
{
    let u = c as u32;
    (0x09 <= u && u <= 0x0D) || u == 0x20 || u == 0x85 || u == 0xA0 || u == 0x1680 || (0x2000 <= u
        && u <= 0x200A) || u == 0x2028 || u == 0x2029 || u == 0x202F || u == 0x205F || u == 0x3000
}

/// The request to put `msg` to the user.
pub fn prompt(msg: String) -> (action: Action)
    ensures
        action@ == (ActionView::Prompt { message: msg@ }),
{
    Action::Prompt { message: msg }
}

/// The request to ask again after an answer that is neither yes nor no.
pub fn prompt_again() -> (action: Action)
    ensures
        action@ == (ActionView::Prompt { message: "Please enter Y/y or N/n\n"@ }),
{
    Action::Prompt { message: "Please enter Y/y or N/n\n".to_owned() }
}

/// What `reply` answers, if it answers at all.
pub fn read_reply(reply: &str) -> (said: Option<bool>)
    ensures
        said == answer(reply@),
{
    let len = reply.unicode_len();
    let mut start: usize = 0;
    proof {
        assert(reply@.subrange(0, len as int) =~= reply@);
    }
    while start < len && is_whitespace(reply.get_char(start))
        invariant
            start <= len,
            len == reply@.len(),
            trim_start(reply@) == trim_start(reply@.subrange(start as int, len as int)),
        decreases len - start,
    {
        proof {
            let cur = reply@.subrange(start as int, len as int);
            assert(cur[0] == reply@[start as int]);
            assert(cur.drop_first() =~= reply@.subrange(start + 1, len as int));
        }
        start = start + 1;
    }
    let ghost rest = reply@.subrange(start as int, len as int);
    proof {
        if start < len {
            assert(rest[0] == reply@[start as int]);
        }
        assert(trim_start(reply@) == rest);
        assert(rest.subrange(0, rest.len() as int) =~= rest);
    }
    let mut end = len;
    while end > start && is_whitespace(reply.get_char(end - 1))
        invariant
            start <= end <= len,
            len == reply@.len(),
            rest == reply@.subrange(start as int, len as int),
            trim_end(rest) == trim_end(rest.subrange(0, end - start)),
        decreases end,
    {
        proof {
            let cur = rest.subrange(0, end - start);
            assert(cur.last() == reply@[end - 1]);
            assert(cur.drop_last() =~= rest.subrange(0, end - 1 - start));
        }
        end = end - 1;
    }
    let ghost word = rest.subrange(0, end - start);
    proof {
        if end > start {
            assert(word.last() == reply@[end - 1]);
        }
        assert(trim(reply@) == word);
    }
    if end - start != 1 {
        return None;
    }
    let c = reply.get_char(start);
    proof {
        assert(word.len() == 1 && word[0] == c);
        assert(word =~= seq![c]);
        assert(seq!['y'][0] == 'y' && seq!['Y'][0] == 'Y' && seq!['n'][0] == 'n' && seq!['N'][0]
            == 'N');
    }
    if c == 'y' || c == 'Y' {
        Some(true)
    } else if c == 'n' || c == 'N' {
        Some(false)
    } else {
        None
    }
}

} // verus!
