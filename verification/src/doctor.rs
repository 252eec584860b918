//! Checks that explain a broken install without reading source.

use vstd::prelude::*;

use crate::text::{chars_of, is_ws, is_ws_char, range_is};

verus! {

/// Whether `w` stands in `s` at `i` as a whole whitespace-separated word.
pub open spec fn word_at(s: Seq<char>, w: Seq<char>, i: int) -> bool {
    &&& 0 <= i
    &&& i + w.len() <= s.len()
    &&& s.subrange(i, i + w.len()) == w
    &&& (i == 0 || is_ws(s[i - 1]))
    &&& (i + w.len() == s.len() || is_ws(s[i + w.len()]))
}

/// Whether `w` is one of the whitespace-separated words of `s` (for a word
/// with no whitespace in it, as `split_whitespace` splits).
pub open spec fn has_word(s: Seq<char>, w: Seq<char>) -> bool {
    exists|i: int| word_at(s, w, i)
}

fn word_at_exec(v: &Vec<char>, i: usize, m: usize, w: &str) -> (r: bool)
    requires
        i + m <= v@.len(),
        m == w@.len(),
    ensures
        r == word_at(v@, w@, i as int),
{
    let len = v.len();
    let starts = i == 0 || is_ws_char(v[i - 1]);
    let ends = i + m == len || is_ws_char(v[i + m]);
    starts && ends && range_is(v, i, i + m, w)
}

fn contains_word(v: &Vec<char>, w: &str) -> (r: bool)
    ensures
        r == has_word(v@, w@),
{
    let wc = chars_of(w);
    let m = wc.len();
    let n = v.len();
    if m > n {
        assert forall|i: int| !word_at(v@, w@, i) by {}
        return false;
    }
    let last = n - m;
    let mut i: usize = 0;
    while i < last
        invariant
            m <= n == v@.len(),
            last == n - m,
            i <= last,
            m == w@.len(),
            forall|j: int| 0 <= j < i ==> !word_at(v@, w@, j),
        decreases last - i,
    {
        if word_at_exec(v, i, m, w) {
            return true;
        }
        i = i + 1;
    }
    if word_at_exec(v, last, m, w) {
        return true;
    }
    assert forall|j: int| !word_at(v@, w@, j) by {
        if 0 <= j < i {
        }
    }
    false
}

/// Whether this session has the `input` and `uinput` groups, from the output
/// of `id -nG`. Membership only reaches a session at its next login, so this
/// is not the same as whether the user is a member.
pub fn in_groups(id_output: &str) -> (r: bool)
    ensures
        r == (has_word(id_output@, "input"@) && has_word(id_output@, "uinput"@)),
{
    let v = chars_of(id_output);
    contains_word(&v, "input") && contains_word(&v, "uinput")
}

} // verus!
