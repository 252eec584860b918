//! Character-level helpers shared by the config parser and the status
//! protocol: whitespace trimming, line splitting and searching, each stated
//! over `Seq<char>` and carried out over a `Vec<char>` and index ranges.

use vstd::prelude::*;

verus! {

/// Unicode `White_Space`, the property that `char::is_whitespace` tests.
pub open spec fn is_ws(c: char) -> bool {
    ||| c == '\t'
    ||| c == '\n'
    ||| c == '\u{0B}'
    ||| c == '\u{0C}'
    ||| c == '\r'
    ||| c == ' '
    ||| c == '\u{85}'
    ||| c == '\u{A0}'
    ||| c == '\u{1680}'
    ||| ('\u{2000}' <= c && c <= '\u{200A}')
    ||| c == '\u{2028}'
    ||| c == '\u{2029}'
    ||| c == '\u{202F}'
    ||| c == '\u{205F}'
    ||| c == '\u{3000}'
}

/// `s` without its leading whitespace.
pub open spec fn trim_start(s: Seq<char>) -> Seq<char>
    decreases s.len(),
{
    if s.len() > 0 && is_ws(s[0]) {
        trim_start(s.drop_first())
    } else {
        s
    }
}

/// `s` without its trailing whitespace.
pub open spec fn trim_end(s: Seq<char>) -> Seq<char>
    decreases s.len(),
{
    if s.len() > 0 && is_ws(s.last()) {
        trim_end(s.drop_last())
    } else {
        s
    }
}

/// `s` without leading and trailing whitespace, as `str::trim` gives it.
pub open spec fn trim(s: Seq<char>) -> Seq<char> {
    trim_end(trim_start(s))
}

/// The index of the first `c` in `s`, or `s.len()` when there is none.
pub open spec fn pos_of(s: Seq<char>, c: char) -> int
    decreases s.len(),
{
    if s.len() == 0 {
        0
    } else if s[0] == c {
        0
    } else {
        1 + pos_of(s.drop_first(), c)
    }
}

/// The index of the first occurrence of the two characters `a` `b` in `s`,
/// or `s.len()` when there is none.
pub open spec fn pair_at(s: Seq<char>, a: char, b: char) -> int
    decreases s.len(),
{
    if s.len() < 2 {
        s.len() as int
    } else if s[0] == a && s[1] == b {
        0
    } else {
        1 + pair_at(s.drop_first(), a, b)
    }
}

/// One carriage return dropped from the end of `s`, if it ends in one.
pub open spec fn strip_cr(s: Seq<char>) -> Seq<char> {
    if s.len() > 0 && s.last() == '\r' {
        s.drop_last()
    } else {
        s
    }
}

/// The lines of `s` as `str::lines` yields them: split at each `'\n'`, a
/// `'\r'` right before a `'\n'` dropped, and no empty line after a final
/// `'\n'`.
pub open spec fn lines(s: Seq<char>) -> Seq<Seq<char>>
    decreases s.len(),
{
    if s.len() == 0 {
        seq![]
    } else {
        let i = pos_of(s, '\n');
        if i >= s.len() {
            seq![s]
        } else {
            proof {
                lemma_pos_of(s, '\n');
            }
            seq![strip_cr(s.take(i))] + lines(s.skip(i + 1))
        }
    }
}

/// `base` joined with the relative path `rel`, as `Path::join` does it on
/// Unix: a `/` goes between them unless `base` is empty or already ends in one.
pub open spec fn join_path(base: Seq<char>, rel: Seq<char>) -> Seq<char> {
    if base.len() == 0 {
        rel
    } else if base.last() == '/' {
        base + rel
    } else {
        base + seq!['/'] + rel
    }
}

/// Whether `c` occurs in `s`.
pub open spec fn has_char(s: Seq<char>, c: char) -> bool {
    exists|i: int| 0 <= i < s.len() && s[i] == c
}

pub proof fn lemma_pos_of(s: Seq<char>, c: char)
    ensures
        0 <= pos_of(s, c) <= s.len(),
        pos_of(s, c) < s.len() ==> s[pos_of(s, c)] == c,
        forall|k: int| 0 <= k < pos_of(s, c) ==> s[k] != c,
        pos_of(s, c) == s.len() <==> !has_char(s, c),
    decreases s.len(),
{
    if s.len() > 0 && s[0] != c {
        lemma_pos_of(s.drop_first(), c);
        assert forall|k: int| 0 <= k < pos_of(s, c) implies s[k] != c by {
            if k > 0 {
                assert(s[k] == s.drop_first()[k - 1]);
            }
        }
        if !has_char(s, c) {
            assert(!has_char(s.drop_first(), c)) by {
                if has_char(s.drop_first(), c) {
                    let i = choose|i: int| 0 <= i < s.drop_first().len() && s.drop_first()[i] == c;
                    assert(s[i + 1] == c);
                }
            }
        }
        if has_char(s, c) {
            let i = choose|i: int| 0 <= i < s.len() && s[i] == c;
            assert(s.drop_first()[i - 1] == c);
        }
    }
}

/// `pos_of` is the first index holding `c`, if `s` holds `c` at `i` and nowhere before.
pub proof fn lemma_pos_of_is(s: Seq<char>, c: char, i: int)
    requires
        0 <= i <= s.len(),
        i < s.len() ==> s[i] == c,
        forall|k: int| 0 <= k < i ==> s[k] != c,
    ensures
        pos_of(s, c) == i,
    decreases s.len(),
{
    if s.len() > 0 && i > 0 {
        lemma_pos_of_is(s.drop_first(), c, i - 1);
    }
}

pub proof fn lemma_pair_at(s: Seq<char>, a: char, b: char)
    ensures
        0 <= pair_at(s, a, b) <= s.len(),
        pair_at(s, a, b) < s.len() ==> pair_at(s, a, b) + 1 < s.len() && s[pair_at(s, a, b)] == a
            && s[pair_at(s, a, b) + 1] == b,
    decreases s.len(),
{
    if s.len() >= 2 && !(s[0] == a && s[1] == b) {
        lemma_pair_at(s.drop_first(), a, b);
    }
}

/// Where a key with no `a` in it is followed by `a` `b`, the first such pair
/// is the one right after the key.
pub proof fn lemma_pair_after_key(k: Seq<char>, a: char, b: char, rest: Seq<char>)
    requires
        !has_char(k, a),
    ensures
        pair_at(k + seq![a, b] + rest, a, b) == k.len(),
    decreases k.len(),
{
    let s = k + seq![a, b] + rest;
    if k.len() > 0 {
        assert(k[0] != a);
        assert(s[0] == k[0]);
        assert(!has_char(k.drop_first(), a)) by {
            if has_char(k.drop_first(), a) {
                let i = choose|i: int| 0 <= i < k.drop_first().len() && k.drop_first()[i] == a;
                assert(k[i + 1] == a);
            }
        }
        lemma_pair_after_key(k.drop_first(), a, b, rest);
        assert(s.drop_first() =~= k.drop_first() + seq![a, b] + rest);
    } else {
        assert(s[0] == a && s[1] == b);
    }
}

/// The lines of a line that ends in `'\n'` followed by more text.
pub proof fn lemma_lines_cons(l: Seq<char>, rest: Seq<char>)
    requires
        !has_char(l, '\n'),
    ensures
        lines(l + seq!['\n'] + rest) == seq![strip_cr(l)] + lines(rest),
{
    let t = l + seq!['\n'] + rest;
    assert forall|k: int| 0 <= k < l.len() implies t[k] != '\n' by {
        assert(t[k] == l[k]);
    }
    assert(t[l.len() as int] == '\n');
    lemma_pos_of_is(t, '\n', l.len() as int);
    assert(t.take(l.len() as int) =~= l);
    assert(t.skip(l.len() + 1int) =~= rest);
}

/// Splitting text that ends a line (or is empty) and what follows it gives
/// the lines of each, one after the other.
pub proof fn lemma_lines_append(a: Seq<char>, b: Seq<char>)
    requires
        a.len() == 0 || a.last() == '\n',
    ensures
        lines(a + b) == lines(a) + lines(b),
    decreases a.len(),
{
    if a.len() == 0 {
        assert(a + b =~= b);
        assert(lines(a) =~= Seq::<Seq<char>>::empty());
        assert(lines(a) + lines(b) =~= lines(b));
    } else {
        lemma_pos_of(a, '\n');
        assert(has_char(a, '\n')) by {
            assert(a[a.len() - 1] == '\n');
        }
        let i = pos_of(a, '\n');
        let ab = a + b;
        assert forall|k: int| 0 <= k < i implies ab[k] != '\n' by {
            assert(ab[k] == a[k]);
        }
        lemma_pos_of_is(ab, '\n', i);
        assert(ab.take(i) =~= a.take(i));
        let rest = a.skip(i + 1);
        assert(ab.skip(i + 1) =~= rest + b);
        if rest.len() > 0 {
            assert(rest.last() == a.last());
        }
        lemma_lines_append(rest, b);
        assert(lines(ab) =~= lines(a) + lines(b));
    }
}


/// Whether every character of `s` is whitespace.
pub open spec fn all_ws(s: Seq<char>) -> bool {
    forall|i: int| 0 <= i < s.len() ==> is_ws(s[i])
}

/// Leading whitespace does not change what `trim_start` leaves.
pub proof fn lemma_trim_start_ws_prefix(w: Seq<char>, x: Seq<char>)
    requires
        all_ws(w),
    ensures
        trim_start(w + x) == trim_start(x),
    decreases w.len(),
{
    if w.len() > 0 {
        assert((w + x)[0] == w[0]);
        assert((w + x).drop_first() =~= w.drop_first() + x);
        lemma_trim_start_ws_prefix(w.drop_first(), x);
    } else {
        assert(w + x =~= x);
    }
}

/// Trailing whitespace does not change what `trim_end` leaves.
pub proof fn lemma_trim_end_ws_suffix(x: Seq<char>, w: Seq<char>)
    requires
        all_ws(w),
    ensures
        trim_end(x + w) == trim_end(x),
    decreases w.len(),
{
    if w.len() > 0 {
        assert((x + w).last() == w.last());
        assert((x + w).drop_last() =~= x + w.drop_last());
        lemma_trim_end_ws_suffix(x, w.drop_last());
    } else {
        assert(x + w =~= x);
    }
}

/// Where `x` holds some non-whitespace character, `trim_start` of `x + y`
/// cuts only from `x`.
pub proof fn lemma_trim_start_append(x: Seq<char>, y: Seq<char>)
    requires
        !all_ws(x),
    ensures
        trim_start(x + y) == trim_start(x) + y,
    decreases x.len(),
{
    assert(x.len() > 0);
    if is_ws(x[0]) {
        assert(!all_ws(x.drop_first())) by {
            let i = choose|i: int| 0 <= i < x.len() && !is_ws(x[i]);
            assert(i != 0);
            assert(x.drop_first()[i - 1] == x[i]);
        }
        assert((x + y)[0] == x[0]);
        assert((x + y).drop_first() =~= x.drop_first() + y);
        lemma_trim_start_append(x.drop_first(), y);
    } else {
        assert((x + y)[0] == x[0]);
    }
}

proof fn lemma_trim_start_all_ws(x: Seq<char>)
    requires
        all_ws(x),
    ensures
        trim_start(x) == Seq::<char>::empty(),
    decreases x.len(),
{
    if x.len() > 0 {
        assert(all_ws(x.drop_first()));
        lemma_trim_start_all_ws(x.drop_first());
    }
}

/// Trailing whitespace does not change what `trim` leaves.
pub proof fn lemma_trim_ws_suffix(x: Seq<char>, w: Seq<char>)
    requires
        all_ws(w),
    ensures
        trim(x + w) == trim(x),
{
    if all_ws(x) {
        assert(all_ws(x + w));
        lemma_trim_start_all_ws(x + w);
        lemma_trim_start_all_ws(x);
    } else {
        lemma_trim_start_append(x, w);
        lemma_trim_end_ws_suffix(trim_start(x), w);
    }
}

/// `trim_start` drops a whitespace prefix, of the length that it returns.
pub proof fn lemma_trim_start_is_skip(s: Seq<char>) -> (k: int)
    ensures
        0 <= k <= s.len(),
        trim_start(s) == s.skip(k),
        all_ws(s.take(k)),
        k < s.len() ==> !is_ws(s[k]),
    decreases s.len(),
{
    if s.len() > 0 && is_ws(s[0]) {
        let k1 = lemma_trim_start_is_skip(s.drop_first());
        assert(s.drop_first().skip(k1) =~= s.skip(k1 + 1));
        assert forall|i: int| 0 <= i < k1 + 1 implies is_ws(#[trigger] s.take(k1 + 1)[i]) by {
            if i > 0 {
                assert(s.take(k1 + 1)[i] == s.drop_first().take(k1)[i - 1]);
            }
        }
        if k1 + 1 < s.len() {
            assert(s[k1 + 1] == s.drop_first()[k1]);
        }
        k1 + 1
    } else {
        assert(s.skip(0) =~= s);
        0
    }
}

/// `trim_end` drops a whitespace suffix, keeping the length that it returns.
pub proof fn lemma_trim_end_is_take(s: Seq<char>) -> (k: int)
    ensures
        0 <= k <= s.len(),
        trim_end(s) == s.take(k),
        all_ws(s.skip(k)),
        k > 0 ==> !is_ws(s[k - 1]),
    decreases s.len(),
{
    if s.len() > 0 && is_ws(s.last()) {
        let k1 = lemma_trim_end_is_take(s.drop_last());
        assert(s.drop_last().take(k1) =~= s.take(k1));
        assert forall|i: int| 0 <= i < s.len() - k1 implies is_ws(#[trigger] s.skip(k1)[i]) by {
            if k1 + i < s.len() - 1 {
                assert(s.skip(k1)[i] == s.drop_last().skip(k1)[i]);
            }
        }
        if k1 > 0 {
            assert(s[k1 - 1] == s.drop_last()[k1 - 1]);
        }
        k1
    } else {
        assert(s.take(s.len() as int) =~= s);
        s.len() as int
    }
}

/// Whether `c` is whitespace, as `char::is_whitespace` decides it.
pub fn is_ws_char(c: char) -> (r: bool)
    ensures
        r == is_ws(c),
{
    c == '\t' || c == '\n' || c == '\u{0B}' || c == '\u{0C}' || c == '\r' || c == ' ' || c
        == '\u{85}' || c == '\u{A0}' || c == '\u{1680}' || ('\u{2000}' <= c && c <= '\u{200A}')
        || c == '\u{2028}' || c == '\u{2029}' || c == '\u{202F}' || c == '\u{205F}' || c
        == '\u{3000}'
}

/// The characters of a string slice, in order.
pub fn chars_of(s: &str) -> (out: Vec<char>)
    ensures
        out@ == s@,
{
    let mut out: Vec<char> = Vec::new();
    for c in it: s.chars()
        invariant
            out@ == it.seq().take(it.index() as int),
    {
        out.push(c);
    }
    out
}

/// Appends the characters of `s` to `out`.
pub fn push_str(out: &mut Vec<char>, s: &str)
    ensures
        final(out)@ == old(out)@ + s@,
{
    let cs = chars_of(s);
    let ghost start = out@;
    for i in 0..cs.len()
        invariant
            out@ == start + cs@.take(i as int),
    {
        out.push(cs[i]);
        assert(cs@.take(i + 1) =~= cs@.take(i as int).push(cs@[i as int]));
    }
    assert(cs@.take(cs@.len() as int) =~= cs@);
}

/// Appends `v[lo..hi]` to `out`.
pub fn push_range(out: &mut Vec<char>, v: &Vec<char>, lo: usize, hi: usize)
    requires
        lo <= hi <= v@.len(),
    ensures
        final(out)@ == old(out)@ + v@.subrange(lo as int, hi as int),
{
    let ghost start = out@;
    let mut i = lo;
    while i < hi
        invariant
            lo <= i <= hi <= v@.len(),
            out@ == start + v@.subrange(lo as int, i as int),
        decreases hi - i,
    {
        out.push(v[i]);
        assert(v@.subrange(lo as int, i + 1) =~= v@.subrange(lo as int, i as int).push(
            v@[i as int],
        ));
        i = i + 1;
    }
}

/// The string made of the characters of `v`.
#[verifier::external_body]
pub(crate) fn string_of(v: &Vec<char>) -> (s: String)
    ensures
        s@ == v@,
{
    v.iter().collect::<String>()
}

/// The string made of `v[lo..hi]`.
pub fn string_of_range(v: &Vec<char>, lo: usize, hi: usize) -> (s: String)
    requires
        lo <= hi <= v@.len(),
    ensures
        s@ == v@.subrange(lo as int, hi as int),
{
    let mut out: Vec<char> = Vec::new();
    push_range(&mut out, v, lo, hi);
    assert(out@ =~= v@.subrange(lo as int, hi as int));
    string_of(&out)
}

/// Whether `v[lo..hi]` is exactly the characters of `lit`.
pub fn range_is(v: &Vec<char>, lo: usize, hi: usize, lit: &str) -> (r: bool)
    requires
        lo <= hi <= v@.len(),
    ensures
        r == (v@.subrange(lo as int, hi as int) == lit@),
{
    let cs = chars_of(lit);
    if hi - lo != cs.len() {
        return false;
    }
    let mut i: usize = 0;
    while i < cs.len()
        invariant
            lo <= hi <= v@.len(),
            hi - lo == cs@.len(),
            cs@ == lit@,
            0 <= i <= cs@.len(),
            forall|k: int| 0 <= k < i ==> v@[lo + k] == cs@[k],
        decreases cs.len() - i,
    {
        if v[lo + i] != cs[i] {
            assert(v@.subrange(lo as int, hi as int)[i as int] != lit@[i as int]);
            return false;
        }
        i = i + 1;
    }
    assert(v@.subrange(lo as int, hi as int) =~= lit@);
    true
}

/// Whether two character vectors hold the same characters.
pub fn same_chars(a: &Vec<char>, b: &Vec<char>) -> (r: bool)
    ensures
        r == (a@ == b@),
{
    if a.len() != b.len() {
        return false;
    }
    let mut i: usize = 0;
    while i < a.len()
        invariant
            a@.len() == b@.len(),
            0 <= i <= a@.len(),
            forall|k: int| 0 <= k < i ==> a@[k] == b@[k],
        decreases a.len() - i,
    {
        if a[i] != b[i] {
            return false;
        }
        i = i + 1;
    }
    assert(a@ =~= b@);
    true
}

/// The first index at or after `lo` and before `hi` that holds `c`, or `hi`.
pub fn find_char(v: &Vec<char>, lo: usize, hi: usize, c: char) -> (j: usize)
    requires
        lo <= hi <= v@.len(),
    ensures
        lo <= j <= hi,
        j - lo == pos_of(v@.subrange(lo as int, hi as int), c),
{
    let mut j = lo;
    while j < hi && v[j] != c
        invariant
            lo <= j <= hi <= v@.len(),
            pos_of(v@.subrange(lo as int, hi as int), c) == (j - lo) + pos_of(
                v@.subrange(j as int, hi as int),
                c,
            ),
        decreases hi - j,
    {
        assert(v@.subrange(j as int, hi as int).drop_first() =~= v@.subrange(j + 1, hi as int));
        j = j + 1;
    }
    j
}

/// The first index at or after `lo` where `a` is followed by `b` within
/// `v[lo..hi]`, or `hi`.
pub fn find_pair(v: &Vec<char>, lo: usize, hi: usize, a: char, b: char) -> (j: usize)
    requires
        lo <= hi <= v@.len(),
    ensures
        lo <= j <= hi,
        j - lo == pair_at(v@.subrange(lo as int, hi as int), a, b),
{
    let mut j = lo;
    while j < hi && hi - j >= 2 && !(v[j] == a && v[j + 1] == b)
        invariant
            lo <= j <= hi <= v@.len(),
            pair_at(v@.subrange(lo as int, hi as int), a, b) == (j - lo) + pair_at(
                v@.subrange(j as int, hi as int),
                a,
                b,
            ),
        decreases hi - j,
    {
        assert(v@.subrange(j as int, hi as int).drop_first() =~= v@.subrange(j + 1, hi as int));
        j = j + 1;
    }
    if hi - j < 2 {
        assert(v@.subrange(j as int, hi as int).len() < 2);
        hi
    } else {
        j
    }
}

/// The end of `v[lo..hi]` with its trailing whitespace cut.
pub fn trim_end_len(v: &Vec<char>, lo: usize, hi: usize) -> (b: usize)
    requires
        lo <= hi <= v@.len(),
    ensures
        lo <= b <= hi,
        v@.subrange(lo as int, b as int) == trim_end(v@.subrange(lo as int, hi as int)),
{
    let mut b = hi;
    while b > lo && is_ws_char(v[b - 1])
        invariant
            lo <= b <= hi <= v@.len(),
            trim_end(v@.subrange(lo as int, hi as int)) == trim_end(
                v@.subrange(lo as int, b as int),
            ),
        decreases b - lo,
    {
        assert(v@.subrange(lo as int, b as int).drop_last() =~= v@.subrange(lo as int, b - 1));
        b = b - 1;
    }
    b
}

/// The bounds of `v[lo..hi]` with its leading and trailing whitespace cut.
pub fn trim_range(v: &Vec<char>, lo: usize, hi: usize) -> (r: (usize, usize))
    requires
        lo <= hi <= v@.len(),
    ensures
        lo <= r.0 <= r.1 <= hi,
        v@.subrange(r.0 as int, r.1 as int) == trim(v@.subrange(lo as int, hi as int)),
{
    let mut a = lo;
    while a < hi && is_ws_char(v[a])
        invariant
            lo <= a <= hi <= v@.len(),
            trim_start(v@.subrange(lo as int, hi as int)) == trim_start(
                v@.subrange(a as int, hi as int),
            ),
        decreases hi - a,
    {
        assert(v@.subrange(a as int, hi as int).drop_first() =~= v@.subrange(a + 1, hi as int));
        a = a + 1;
    }
    let mut b = hi;
    while b > a && is_ws_char(v[b - 1])
        invariant
            lo <= a <= b <= hi <= v@.len(),
            trim_end(v@.subrange(a as int, hi as int)) == trim_end(
                v@.subrange(a as int, b as int),
            ),
        decreases b - a,
    {
        assert(v@.subrange(a as int, b as int).drop_last() =~= v@.subrange(a as int, b - 1));
        b = b - 1;
    }
    (a, b)
}

/// Joins the relative path `rel` onto `base`.
pub fn path_join(base: &str, rel: &str) -> (p: String)
    ensures
        p@ == join_path(base@, rel@),
{
    let b = chars_of(base);
    let mut out: Vec<char> = Vec::new();
    push_range(&mut out, &b, 0, b.len());
    assert(b@.subrange(0, b@.len() as int) =~= b@);
    if b.len() > 0 && b[b.len() - 1] != '/' {
        out.push('/');
    }
    push_str(&mut out, rel);
    assert(out@ =~= join_path(base@, rel@));
    string_of(&out)
}

/// `s` without leading and trailing whitespace.
pub fn trimmed(s: &str) -> (t: String)
    ensures
        t@ == trim(s@),
{
    let v = chars_of(s);
    let (a, b) = trim_range(&v, 0, v.len());
    assert(v@.subrange(0, v@.len() as int) =~= v@);
    string_of_range(&v, a, b)
}

/// The bounds of the first line of `v[start..]` and where the rest begins.
pub fn next_line(v: &Vec<char>, start: usize) -> (r: (usize, usize, usize))
    requires
        start < v@.len(),
    ensures
        start <= r.0 <= r.1 <= r.2 <= v@.len(),
        start < r.2,
        lines(v@.subrange(start as int, v@.len() as int)) == seq![
            v@.subrange(r.0 as int, r.1 as int),
        ] + lines(v@.subrange(r.2 as int, v@.len() as int)),
{
    let n = v.len();
    let ghost t = v@.subrange(start as int, n as int);
    let j = find_char(v, start, n, '\n');
    if j == n {
        assert(lines(v@.subrange(n as int, n as int)) =~= Seq::<Seq<char>>::empty());
        assert(lines(t) == seq![t]);
        (start, n, n)
    } else {
        assert(t.take(j - start) =~= v@.subrange(start as int, j as int));
        assert(t.skip(j - start + 1) =~= v@.subrange(j + 1, n as int));
        let mut e = j;
        if e > start && v[e - 1] == '\r' {
            e = e - 1;
            assert(v@.subrange(start as int, j as int).drop_last() =~= v@.subrange(
                start as int,
                e as int,
            ));
        }
        (start, e, j + 1)
    }
}

} // verus!
