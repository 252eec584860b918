//! What the daemon reports about itself over its socket, so the settings
//! window can show what is actually happening.
//!
//! The wire format is one `key: value` line per field, readable with `socat`
//! or `nc`. Recent transcriptions are served from memory only.

use vstd::prelude::*;

use crate::numbers::{decimal, lemma_parse_decimal, lemma_decimal, parse_u64, parse_u64_range, push_decimal, all_digits};
use crate::text::{
    chars_of, find_pair, has_char, join_path, lemma_lines_append, lemma_lines_cons, path_join, lemma_pair_after_key, lines,
    next_line, pair_at, push_str, range_is, string_of, string_of_range, strip_cr,
};

verus! {

/// What a client sends to ask for the daemon's status.
pub const STATUS_REQUEST: &'static str = "status\n";

/// What the daemon reports about itself.
#[derive(Debug, Clone, PartialEq)]
pub struct Status {
    pub running: bool,
    pub hotkey: String,
    pub model: String,
    pub microphone: String,
    /// Whether the hotkey is held and audio is being captured right now.
    pub recording: bool,
    pub utterances: u64,
    /// Most recent first. Memory only; lost when the daemon stops.
    pub recent: Vec<String>,
}

pub struct StatusView {
    pub running: bool,
    pub hotkey: Seq<char>,
    pub model: Seq<char>,
    pub microphone: Seq<char>,
    pub recording: bool,
    pub utterances: u64,
    pub recent: Seq<Seq<char>>,
}

impl View for Status {
    type V = StatusView;

    open spec fn view(&self) -> StatusView {
        StatusView {
            running: self.running,
            hotkey: self.hotkey@,
            model: self.model@,
            microphone: self.microphone@,
            recording: self.recording,
            utterances: self.utterances,
            recent: self.recent@.map_values(|r: String| r@),
        }
    }
}

pub open spec fn empty_status() -> StatusView {
    StatusView {
        running: false,
        hotkey: Seq::empty(),
        model: Seq::empty(),
        microphone: Seq::empty(),
        recording: false,
        utterances: 0,
        recent: Seq::empty(),
    }
}

impl Default for Status {
    fn default() -> (st: Self)
        ensures
            st@ == empty_status(),
    {
        let st = Status {
            running: false,
            hotkey: String::new(),
            model: String::new(),
            microphone: String::new(),
            recording: false,
            utterances: 0,
            recent: Vec::new(),
        };
        assert(st@.recent =~= Seq::<Seq<char>>::empty());
        st
    }
}

pub open spec fn bool_text(b: bool) -> Seq<char> {
    if b {
        "true"@
    } else {
        "false"@
    }
}

/// One `key: value` line.
pub open spec fn field(key: Seq<char>, value: Seq<char>) -> Seq<char> {
    key + seq![':', ' '] + value + seq!['\n']
}

/// `s` with each newline turned into a space, so that it stays one line.
pub open spec fn no_newlines(s: Seq<char>) -> Seq<char> {
    Seq::new(s.len(), |i: int| if s[i] == '\n' { ' ' } else { s[i] })
}

/// One `recent:` line per entry, in order.
pub open spec fn recent_text(rs: Seq<Seq<char>>) -> Seq<char>
    decreases rs.len(),
{
    if rs.len() == 0 {
        Seq::empty()
    } else {
        field("recent"@, no_newlines(rs[0])) + recent_text(rs.drop_first())
    }
}

/// The text that `encode` writes for a status.
pub open spec fn encode_spec(st: StatusView) -> Seq<char> {
    field("running"@, bool_text(st.running)) + (field("hotkey"@, st.hotkey) + (field(
        "model"@,
        st.model,
    ) + (field("microphone"@, st.microphone) + (field("recording"@, bool_text(st.recording)) + (
    field("utterances"@, decimal(st.utterances as nat)) + recent_text(st.recent))))))
}

/// The field names that `decode` understands.
pub open spec fn known_key(k: Seq<char>) -> bool {
    ||| k == "running"@
    ||| k == "hotkey"@
    ||| k == "model"@
    ||| k == "microphone"@
    ||| k == "recording"@
    ||| k == "utterances"@
    ||| k == "recent"@
}

/// What a field named `k` with value `v` does to the status read so far.
pub open spec fn set_field(st: StatusView, k: Seq<char>, v: Seq<char>) -> StatusView {
    if k == "running"@ {
        StatusView { running: v == "true"@, ..st }
    } else if k == "hotkey"@ {
        StatusView { hotkey: v, ..st }
    } else if k == "model"@ {
        StatusView { model: v, ..st }
    } else if k == "microphone"@ {
        StatusView { microphone: v, ..st }
    } else if k == "recording"@ {
        StatusView { recording: v == "true"@, ..st }
    } else if k == "utterances"@ {
        StatusView {
            utterances: match parse_u64(v) {
                Some(n) => n,
                None => 0,
            },
            ..st
        }
    } else if k == "recent"@ {
        StatusView { recent: st.recent.push(v), ..st }
    } else {
        st
    }
}

/// What one line does to the status read so far: split at the first `": "`,
/// a known key sets its field, anything else is skipped.
pub open spec fn decode_line(st: StatusView, line: Seq<char>) -> StatusView {
    let p = pair_at(line, ':', ' ');
    if p >= line.len() {
        st
    } else {
        set_field(st, line.take(p), line.skip(p + 2))
    }
}

pub open spec fn decode_lines(st: StatusView, ls: Seq<Seq<char>>) -> StatusView
    decreases ls.len(),
{
    if ls.len() == 0 {
        st
    } else {
        decode_lines(decode_line(st, ls[0]), ls.drop_first())
    }
}

/// The status that `decode` reads from a text.
pub open spec fn decode_spec(text: Seq<char>) -> StatusView {
    decode_lines(empty_status(), lines(text))
}

fn push_bool(out: &mut Vec<char>, b: bool)
    ensures
        final(out)@ == old(out)@ + bool_text(b),
{
    if b {
        push_str(out, "true");
    } else {
        push_str(out, "false");
    }
}

fn push_key(out: &mut Vec<char>, key: &str)
    ensures
        final(out)@ == old(out)@ + key@ + seq![':', ' '],
{
    push_str(out, key);
    out.push(':');
    out.push(' ');
    assert(out@ =~= old(out)@ + key@ + seq![':', ' ']);
}

fn push_field(out: &mut Vec<char>, key: &str, value: &String)
    ensures
        final(out)@ == old(out)@ + field(key@, value@),
{
    push_key(out, key);
    push_str(out, value.as_str());
    out.push('\n');
    assert(out@ =~= old(out)@ + field(key@, value@));
}

fn push_no_newlines(out: &mut Vec<char>, s: &String)
    ensures
        final(out)@ == old(out)@ + no_newlines(s@),
{
    let cs = chars_of(s.as_str());
    let ghost start = out@;
    for i in 0..cs.len()
        invariant
            cs@ == s@,
            out@ == start + no_newlines(s@).take(i as int),
    {
        let c = cs[i];
        if c == '\n' {
            out.push(' ');
        } else {
            out.push(c);
        }
        assert(no_newlines(s@).take(i + 1) =~= no_newlines(s@).take(i as int).push(
            no_newlines(s@)[i as int],
        ));
    }
    assert(no_newlines(s@).take(cs@.len() as int) =~= no_newlines(s@));
}

/// Decodes one line `v[lo..hi]` into `st`.
fn decode_into(st: &mut Status, v: &Vec<char>, lo: usize, hi: usize)
    requires
        lo <= hi <= v@.len(),
    ensures
        final(st)@ == decode_line(old(st)@, v@.subrange(lo as int, hi as int)),
{
    let ghost line = v@.subrange(lo as int, hi as int);
    let p = find_pair(v, lo, hi, ':', ' ');
    if p == hi {
        return;
    }
    proof {
        crate::text::lemma_pair_at(line, ':', ' ');
    }
    assert(line.take(p - lo) =~= v@.subrange(lo as int, p as int));
    assert(line.skip(p - lo + 2) =~= v@.subrange(p + 2, hi as int));
    let vs = p + 2;
    if range_is(v, lo, p, "running") {
        st.running = range_is(v, vs, hi, "true");
    } else if range_is(v, lo, p, "hotkey") {
        st.hotkey = string_of_range(v, vs, hi);
    } else if range_is(v, lo, p, "model") {
        st.model = string_of_range(v, vs, hi);
    } else if range_is(v, lo, p, "microphone") {
        st.microphone = string_of_range(v, vs, hi);
    } else if range_is(v, lo, p, "recording") {
        st.recording = range_is(v, vs, hi, "true");
    } else if range_is(v, lo, p, "utterances") {
        st.utterances = match parse_u64_range(v, vs, hi) {
            Some(n) => n,
            None => 0,
        };
    } else if range_is(v, lo, p, "recent") {
        let entry = string_of_range(v, vs, hi);
        let ghost before = st.recent@;
        st.recent.push(entry);
        assert(st.recent@.map_values(|r: String| r@) =~= before.map_values(|r: String| r@).push(
            v@.subrange(vs as int, hi as int),
        ));
    }
}

impl Status {
    /// Renders as `key: value` lines, with `recent` repeated per entry and
    /// each newline in an entry turned into a space.
    pub fn encode(&self) -> (s: String)
        ensures
            s@ == encode_spec(self@),
    {
        let mut out: Vec<char> = Vec::new();
        push_key(&mut out, "running");
        push_bool(&mut out, self.running);
        out.push('\n');
        push_field(&mut out, "hotkey", &self.hotkey);
        push_field(&mut out, "model", &self.model);
        push_field(&mut out, "microphone", &self.microphone);
        push_key(&mut out, "recording");
        push_bool(&mut out, self.recording);
        out.push('\n');
        push_key(&mut out, "utterances");
        push_decimal(&mut out, self.utterances);
        out.push('\n');
        let ghost rs = self@.recent;
        let ghost head = out@;
        assert(head + recent_text(rs) =~= encode_spec(self@));
        assert(rs.skip(0) =~= rs);
        for i in 0..self.recent.len()
            invariant
                rs == self@.recent,
                rs.len() == self.recent@.len(),
                out@ + recent_text(rs.skip(i as int)) == encode_spec(self@),
        {
            let ghost before = out@;
            push_key(&mut out, "recent");
            push_no_newlines(&mut out, &self.recent[i]);
            out.push('\n');
            assert(rs.skip(i as int).drop_first() =~= rs.skip(i + 1));
            assert(rs.skip(i as int)[0] == self.recent@[i as int]@);
            assert(out@ =~= before + field("recent"@, no_newlines(rs.skip(i as int)[0])));
        }
        assert(recent_text(rs.skip(rs.len() as int)) =~= Seq::<char>::empty());
        assert(out@ =~= encode_spec(self@));
        string_of(&out)
    }

    /// Reads a status from its text. Lines without `": "` and fields this
    /// version does not know are ignored; an `utterances` that is not a
    /// number reads as 0.
    pub fn decode(text: &str) -> (st: Self)
        ensures
            st@ == decode_spec(text@),
    {
        let v = chars_of(text);
        let n = v.len();
        let mut st = Status::default();
        let mut start: usize = 0;
        assert(v@.subrange(0, n as int) =~= v@);
        while start < n
            invariant
                start <= n == v@.len(),
                v@ == text@,
                decode_spec(text@) == decode_lines(st@, lines(v@.subrange(start as int, n as int))),
            decreases n - start,
        {
            let (lo, hi, next) = next_line(&v, start);
            let ghost ls = lines(v@.subrange(start as int, n as int));
            assert(ls[0] == v@.subrange(lo as int, hi as int));
            assert(ls.drop_first() =~= lines(v@.subrange(next as int, n as int)));
            decode_into(&mut st, &v, lo, hi);
            start = next;
        }
        assert(lines(v@.subrange(n as int, n as int)) =~= Seq::<Seq<char>>::empty());
        st
    }
}

/// `$XDG_RUNTIME_DIR/<app>.sock`, falling back to `/tmp`: given the value
/// of `XDG_RUNTIME_DIR`, if it is set.
pub fn socket_path(runtime_dir: Option<String>) -> (p: String)
    ensures
        p@ == join_path(
            match runtime_dir {
                Some(d) => if d@.len() > 0 {
                    d@
                } else {
                    "/tmp"@
                },
                None => "/tmp"@,
            },
            "sensor.sock"@,
        ),
{
    let base = match runtime_dir {
        Some(d) => if !d.as_str().is_empty() {
            d
        } else {
            String::from_str("/tmp")
        },
        None => String::from_str("/tmp"),
    };
    path_join(base.as_str(), "sensor.sock")
}


pub open spec fn ends_with_cr(s: Seq<char>) -> bool {
    s.len() > 0 && s.last() == '\r'
}

/// A value that survives the one-line framing unchanged: no newline in it,
/// and no carriage return at its end (which line splitting would drop).
pub open spec fn framing_safe(s: Seq<char>) -> bool {
    !has_char(s, '\n') && !ends_with_cr(s)
}

/// A status as it reads back: each transcript with its newlines made spaces.
pub open spec fn as_sent(st: StatusView) -> StatusView {
    StatusView { recent: st.recent.map_values(|r: Seq<char>| no_newlines(r)), ..st }
}

proof fn lemma_no_newlines(r: Seq<char>)
    ensures
        !has_char(no_newlines(r), '\n'),
        ends_with_cr(no_newlines(r)) == ends_with_cr(r),
        !has_char(r, '\n') ==> no_newlines(r) == r,
{
    if !has_char(r, '\n') {
        assert(no_newlines(r) =~= r);
    }
}

proof fn lemma_decode_cons(st: StatusView, l: Seq<char>, rest: Seq<Seq<char>>)
    ensures
        decode_lines(st, seq![l] + rest) == decode_lines(decode_line(st, l), rest),
{
    assert((seq![l] + rest).drop_first() =~= rest);
}

/// How one field line of an encoded status decodes.
proof fn lemma_field(st: StatusView, k: Seq<char>, v: Seq<char>, rest: Seq<char>)
    requires
        !has_char(k, ':'),
        !has_char(k, '\n'),
        framing_safe(v),
    ensures
        decode_lines(st, lines(field(k, v) + rest)) == decode_lines(
            set_field(st, k, v),
            lines(rest),
        ),
{
    let l = k + seq![':', ' '] + v;
    assert(field(k, v) + rest =~= l + seq!['\n'] + rest);
    assert(!has_char(l, '\n')) by {
        if has_char(l, '\n') {
            let i = choose|i: int| 0 <= i < l.len() && l[i] == '\n';
            if i < k.len() {
                assert(k[i] == '\n');
            } else if i >= k.len() + 2 {
                assert(v[i - k.len() - 2] == '\n');
            }
        }
    }
    assert(strip_cr(l) == l) by {
        if v.len() > 0 {
            assert(l.last() == v.last());
        } else {
            assert(l.last() == ' ');
        }
    }
    lemma_lines_cons(l, rest);
    lemma_decode_cons(st, l, lines(rest));
    lemma_pair_after_key(k, ':', ' ', v);
    assert(l.take(k.len() as int) =~= k);
    assert(l.skip(k.len() + 2int) =~= v);
}

proof fn lemma_digits_safe(n: u64)
    ensures
        framing_safe(decimal(n as nat)),
{
    lemma_decimal(n as nat);
    let d = decimal(n as nat);
    assert(!has_char(d, '\n')) by {
        if has_char(d, '\n') {
            let i = choose|i: int| 0 <= i < d.len() && d[i] == '\n';
            assert(all_digits(d));
        }
    }
    assert(all_digits(d));
    assert(crate::numbers::is_digit(d[d.len() - 1]));
}

proof fn lemma_recent(st: StatusView, rs: Seq<Seq<char>>)
    requires
        forall|i: int| 0 <= i < rs.len() ==> !ends_with_cr(#[trigger] rs[i]),
    ensures
        decode_lines(st, lines(recent_text(rs))) == (StatusView {
            recent: st.recent + rs.map_values(|r: Seq<char>| no_newlines(r)),
            ..st
        }),
    decreases rs.len(),
{
    reveal_strlit("recent");
    reveal_strlit("running");
    reveal_strlit("hotkey");
    reveal_strlit("model");
    reveal_strlit("microphone");
    reveal_strlit("recording");
    reveal_strlit("utterances");
    if rs.len() == 0 {
        assert(lines(Seq::<char>::empty()) =~= Seq::<Seq<char>>::empty());
        assert(st.recent + rs.map_values(|r: Seq<char>| no_newlines(r)) =~= st.recent);
    } else {
        let k = "recent"@;
        assert(!has_char(k, ':') && !has_char(k, '\n')) by {
            assert(k =~= seq!['r', 'e', 'c', 'e', 'n', 't']);
        }
        lemma_no_newlines(rs[0]);
        lemma_field(st, k, no_newlines(rs[0]), recent_text(rs.drop_first()));
        let st1 = set_field(st, k, no_newlines(rs[0]));
        assert(st1 == StatusView { recent: st.recent.push(no_newlines(rs[0])), ..st });
        assert forall|i: int| 0 <= i < rs.drop_first().len() implies !ends_with_cr(
            #[trigger] rs.drop_first()[i],
        ) by {
            assert(rs.drop_first()[i] == rs[i + 1]);
        }
        lemma_recent(st1, rs.drop_first());
        assert(st.recent.push(no_newlines(rs[0])) + rs.drop_first().map_values(
            |r: Seq<char>| no_newlines(r),
        ) =~= st.recent + rs.map_values(|r: Seq<char>| no_newlines(r)));
    }
}

/// A status survives the round trip through its wire text: decoding what
/// `encode` wrote gives the same status back, with each newline inside a
/// transcript read back as a space (so that it cannot break the framing).
/// This holds for every status whose single-line fields hold no newline and
/// whose fields and transcripts do not end in a carriage return.
pub proof fn status_round_trip(st: Status)
    requires
        framing_safe(st@.hotkey),
        framing_safe(st@.model),
        framing_safe(st@.microphone),
        forall|i: int| 0 <= i < st@.recent.len() ==> !ends_with_cr(#[trigger] st@.recent[i]),
    ensures
        decode_spec(encode_spec(st@)) == as_sent(st@),
        (forall|i: int| 0 <= i < st@.recent.len() ==> !has_char(#[trigger] st@.recent[i], '\n'))
            ==> decode_spec(encode_spec(st@)) == st@,
{
    let v = st@;
    reveal_strlit("recent");
    reveal_strlit("running");
    reveal_strlit("hotkey");
    reveal_strlit("model");
    reveal_strlit("microphone");
    reveal_strlit("recording");
    reveal_strlit("utterances");
    reveal_strlit("true");
    reveal_strlit("false");
    assert(!has_char("running"@, ':') && !has_char("running"@, '\n')) by {
        assert("running"@ =~= seq!['r', 'u', 'n', 'n', 'i', 'n', 'g']);
    }
    assert(!has_char("hotkey"@, ':') && !has_char("hotkey"@, '\n')) by {
        assert("hotkey"@ =~= seq!['h', 'o', 't', 'k', 'e', 'y']);
    }
    assert(!has_char("model"@, ':') && !has_char("model"@, '\n')) by {
        assert("model"@ =~= seq!['m', 'o', 'd', 'e', 'l']);
    }
    assert(!has_char("microphone"@, ':') && !has_char("microphone"@, '\n')) by {
        assert("microphone"@ =~= seq!['m', 'i', 'c', 'r', 'o', 'p', 'h', 'o', 'n', 'e']);
    }
    assert(!has_char("recording"@, ':') && !has_char("recording"@, '\n')) by {
        assert("recording"@ =~= seq!['r', 'e', 'c', 'o', 'r', 'd', 'i', 'n', 'g']);
    }
    assert(!has_char("utterances"@, ':') && !has_char("utterances"@, '\n')) by {
        assert("utterances"@ =~= seq!['u', 't', 't', 'e', 'r', 'a', 'n', 'c', 'e', 's']);
    }
    assert(framing_safe("true"@) && framing_safe("false"@)) by {
        assert("true"@ =~= seq!['t', 'r', 'u', 'e']);
        assert("false"@ =~= seq!['f', 'a', 'l', 's', 'e']);
    }
    assert("microphone"@ != "utterances"@) by {
        assert("microphone"@[0] != "utterances"@[0]);
    }
    assert("hotkey"@ != "recent"@) by {
        assert("hotkey"@[0] != "recent"@[0]);
    }
    lemma_digits_safe(v.utterances);
    lemma_parse_decimal(v.utterances);
    let r6 = recent_text(v.recent);
    let r5 = field("utterances"@, decimal(v.utterances as nat)) + r6;
    let r4 = field("recording"@, bool_text(v.recording)) + r5;
    let r3 = field("microphone"@, v.microphone) + r4;
    let r2 = field("model"@, v.model) + r3;
    let r1 = field("hotkey"@, v.hotkey) + r2;
    let s0 = empty_status();
    lemma_field(s0, "running"@, bool_text(v.running), r1);
    let s1 = set_field(s0, "running"@, bool_text(v.running));
    assert(s1 == StatusView { running: v.running, ..s0 });
    lemma_field(s1, "hotkey"@, v.hotkey, r2);
    let s2 = set_field(s1, "hotkey"@, v.hotkey);
    assert(s2 == StatusView { hotkey: v.hotkey, ..s1 });
    lemma_field(s2, "model"@, v.model, r3);
    let s3 = set_field(s2, "model"@, v.model);
    assert(s3 == StatusView { model: v.model, ..s2 });
    lemma_field(s3, "microphone"@, v.microphone, r4);
    let s4 = set_field(s3, "microphone"@, v.microphone);
    assert(s4 == StatusView { microphone: v.microphone, ..s3 });
    lemma_field(s4, "recording"@, bool_text(v.recording), r5);
    let s5 = set_field(s4, "recording"@, bool_text(v.recording));
    assert(s5 == StatusView { recording: v.recording, ..s4 });
    lemma_field(s5, "utterances"@, decimal(v.utterances as nat), r6);
    let s6 = set_field(s5, "utterances"@, decimal(v.utterances as nat));
    assert(s6 == StatusView { utterances: v.utterances, ..s5 });
    lemma_recent(s6, v.recent);
    assert(Seq::<Seq<char>>::empty() + v.recent.map_values(|r: Seq<char>| no_newlines(r))
        =~= v.recent.map_values(|r: Seq<char>| no_newlines(r)));
    assert(decode_spec(encode_spec(v)) == as_sent(v));
    if forall|i: int| 0 <= i < v.recent.len() ==> !has_char(#[trigger] v.recent[i], '\n') {
        assert forall|i: int| 0 <= i < v.recent.len() implies no_newlines(v.recent[i])
            == v.recent[i] by {
            lemma_no_newlines(v.recent[i]);
        }
        assert(v.recent.map_values(|r: Seq<char>| no_newlines(r)) =~= v.recent);
    }
}


proof fn lemma_decode_append(st: StatusView, l1: Seq<Seq<char>>, l2: Seq<Seq<char>>)
    ensures
        decode_lines(st, l1 + l2) == decode_lines(decode_lines(st, l1), l2),
    decreases l1.len(),
{
    if l1.len() == 0 {
        assert(l1 + l2 =~= l2);
    } else {
        assert((l1 + l2)[0] == l1[0]);
        assert((l1 + l2).drop_first() =~= l1.drop_first() + l2);
        lemma_decode_append(decode_line(st, l1[0]), l1.drop_first(), l2);
    }
}

/// Fields that this version does not know are ignored: taking a line whose
/// key is not one of the status fields (or that is no `key: value` line at
/// all) out of a status text changes nothing that `decode` reads, wherever
/// the line stands.
pub proof fn unknown_field_ignored(before: Seq<char>, line: Seq<char>, after: Seq<char>)
    requires
        before.len() == 0 || before.last() == '\n',
        !has_char(line, '\n'),
        pair_at(strip_cr(line), ':', ' ') >= strip_cr(line).len() || !known_key(
            strip_cr(line).take(pair_at(strip_cr(line), ':', ' ')),
        ),
    ensures
        decode_spec(before + line + seq!['\n'] + after) == decode_spec(before + after),
{
    let tail = line + seq!['\n'] + after;
    assert(before + line + seq!['\n'] + after =~= before + tail);
    lemma_lines_append(before, tail);
    lemma_lines_append(before, after);
    lemma_lines_cons(line, after);
    let s = decode_lines(empty_status(), lines(before));
    lemma_decode_append(empty_status(), lines(before), lines(tail));
    lemma_decode_append(empty_status(), lines(before), lines(after));
    lemma_decode_cons(s, strip_cr(line), lines(after));
    assert(decode_line(s, strip_cr(line)) == s);
}

} // verus!
