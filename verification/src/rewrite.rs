//! Saving one setting into an existing config file: the line that sets it
//! is rewritten in place and every other line, comments included, is kept.

use vstd::prelude::*;

use crate::config::{apply_setting, default_config, parse_lines, parse_spec, ConfigView};
use crate::text::{
    all_ws, chars_of, find_char, has_char, is_ws, lemma_lines_cons, lemma_pos_of,
    lemma_pos_of_is, lemma_trim_end_is_take, lemma_trim_start_is_skip,
    lemma_trim_start_ws_prefix, lemma_trim_ws_suffix, lines, next_line, pos_of, push_range,
    push_str, range_is, string_of, strip_cr, trim, trim_range,
};

verus! {

/// Whether a raw config line sets `key` (a comment does not count).
pub open spec fn names_setting(raw: Seq<char>, key: Seq<char>) -> bool {
    let before = raw.take(pos_of(raw, '#'));
    let eq = pos_of(before, '=');
    eq < before.len() && trim(before.take(eq)) == key
}

/// The line that sets `key` to `value`.
pub open spec fn setting_line(key: Seq<char>, value: Seq<char>) -> Seq<char> {
    key + seq![' ', '=', ' '] + value + seq!['\n']
}

/// The lines `ls` with the first line that sets `key` made to set it to
/// `value` and any later ones dropped; the setting is added at the end if no
/// line set it (and `replaced` says none had yet).
pub open spec fn rewrite_lines(ls: Seq<Seq<char>>, key: Seq<char>, value: Seq<char>, replaced: bool) -> Seq<
    char,
>
    decreases ls.len(),
{
    if ls.len() == 0 {
        if replaced {
            Seq::empty()
        } else {
            setting_line(key, value)
        }
    } else if names_setting(ls[0], key) {
        (if replaced {
            Seq::empty()
        } else {
            setting_line(key, value)
        }) + rewrite_lines(ls.drop_first(), key, value, true)
    } else {
        ls[0] + seq!['\n'] + rewrite_lines(ls.drop_first(), key, value, replaced)
    }
}

/// Rewrites one setting of a config file's text, keeping every other line
/// as it was, comments included.
pub fn rewrite_setting(existing: &str, key: &str, value: &str) -> (out: String)
    ensures
        out@ == rewrite_lines(lines(existing@), key@, value@, false),
{
    let v = chars_of(existing);
    let n = v.len();
    let mut out: Vec<char> = Vec::new();
    let mut replaced = false;
    let mut start: usize = 0;
    assert(v@.subrange(0, n as int) =~= v@);
    while start < n
        invariant
            start <= n == v@.len(),
            v@ == existing@,
            out@ + rewrite_lines(lines(v@.subrange(start as int, n as int)), key@, value@, replaced)
                == rewrite_lines(lines(existing@), key@, value@, false),
        decreases n - start,
    {
        let (lo, hi, next) = next_line(&v, start);
        let ghost ls = lines(v@.subrange(start as int, n as int));
        let ghost raw = v@.subrange(lo as int, hi as int);
        assert(ls[0] == raw);
        assert(ls.drop_first() =~= lines(v@.subrange(next as int, n as int)));
        let h = find_char(&v, lo, hi, '#');
        assert(raw.take(h - lo) =~= v@.subrange(lo as int, h as int));
        let e = find_char(&v, lo, h, '=');
        let mut target = false;
        if e < h {
            assert(v@.subrange(lo as int, h as int).take(e - lo) =~= v@.subrange(lo as int, e as int));
            let (ka, kb) = trim_range(&v, lo, e);
            target = range_is(&v, ka, kb, key);
        }
        assert(target == names_setting(raw, key@));
        let ghost before = out@;
        if target {
            if !replaced {
                push_str(&mut out, key);
                out.push(' ');
                out.push('=');
                out.push(' ');
                push_str(&mut out, value);
                out.push('\n');
                assert(out@ =~= before + setting_line(key@, value@));
            } else {
                assert(before + Seq::<char>::empty() =~= before);
            }
            replaced = true;
        } else {
            push_range(&mut out, &v, lo, hi);
            out.push('\n');
            assert(out@ =~= before + raw + seq!['\n']);
        }
        start = next;
    }
    assert(lines(v@.subrange(n as int, n as int)) =~= Seq::<Seq<char>>::empty());
    if !replaced {
        let ghost before = out@;
        push_str(&mut out, key);
        out.push(' ');
        out.push('=');
        out.push(' ');
        push_str(&mut out, value);
        out.push('\n');
        assert(out@ =~= before + setting_line(key@, value@));
    } else {
        assert(out@ + Seq::<char>::empty() =~= out@);
    }
    string_of(&out)
}


/// The part of a line that the parser reads: before any `#`, trimmed.
pub open spec fn line_body(raw: Seq<char>) -> Seq<char> {
    trim(raw.take(pos_of(raw, '#')))
}

/// The setting that a line names, as the parser reads it.
pub open spec fn line_key(raw: Seq<char>) -> Option<Seq<char>> {
    let t = line_body(raw);
    if t.len() == 0 {
        None
    } else {
        let e = pos_of(t, '=');
        if e >= t.len() {
            None
        } else {
            Some(trim(t.take(e)))
        }
    }
}

/// `key = value`, the line that `rewrite_setting` writes, without its newline.
pub open spec fn setting_body(key: Seq<char>, value: Seq<char>) -> Seq<char> {
    key + seq![' ', '=', ' '] + value
}

/// Whether a line reads without error (wherever it stands).
pub open spec fn line_ok(raw: Seq<char>) -> bool {
    apply_setting(default_config(), raw, 0) is Ok
}

/// What a line that reads without error makes of the settings `c`.
pub open spec fn overlay(c: ConfigView, raw: Seq<char>) -> ConfigView {
    match apply_setting(c, raw, 0) {
        Ok(x) => x,
        Err(_) => c,
    }
}

/// `c` with the field named `k` taken from `d`.
pub open spec fn merge(c: ConfigView, k: Option<Seq<char>>, d: ConfigView) -> ConfigView {
    match k {
        None => c,
        Some(k) => if k == "hotkey"@ {
            ConfigView { hotkey: d.hotkey, ..c }
        } else if k == "model"@ {
            ConfigView { model: d.model, ..c }
        } else if k == "paste_shift"@ {
            ConfigView { paste_shift: d.paste_shift, ..c }
        } else {
            c
        },
    }
}

/// The lines of a rewritten file, in order.
pub open spec fn rewritten_lines(ls: Seq<Seq<char>>, key: Seq<char>, value: Seq<char>, replaced: bool) -> Seq<
    Seq<char>,
>
    decreases ls.len(),
{
    let kv = seq![strip_cr(setting_body(key, value))];
    if ls.len() == 0 {
        if replaced {
            Seq::empty()
        } else {
            kv
        }
    } else if names_setting(ls[0], key) {
        (if replaced {
            Seq::empty()
        } else {
            kv
        }) + rewritten_lines(ls.drop_first(), key, value, true)
    } else {
        seq![strip_cr(ls[0])] + rewritten_lines(ls.drop_first(), key, value, replaced)
    }
}

/// `trim(b)` is `b[a..z]` for some whitespace-free bounds.
proof fn lemma_trim_bounds(b: Seq<char>) -> (r: (int, int))
    ensures
        0 <= r.0 <= r.1 <= b.len(),
        trim(b) == b.subrange(r.0, r.1),
        all_ws(b.take(r.0)),
        all_ws(b.skip(r.1)),
{
    let a = lemma_trim_start_is_skip(b);
    let u = b.skip(a);
    let z = lemma_trim_end_is_take(u);
    assert(u.take(z) =~= b.subrange(a, a + z));
    assert forall|i: int| 0 <= i < b.skip(a + z).len() implies is_ws(#[trigger] b.skip(a + z)[i]) by {
        assert(b.skip(a + z)[i] == u.skip(z)[i]);
    }
    (a, a + z)
}

/// Splitting at the first `=` before or after trimming names the same key.
proof fn lemma_key_of_trimmed(b: Seq<char>)
    requires
        pos_of(b, '=') < b.len(),
    ensures
        trim(b).len() > 0,
        pos_of(trim(b), '=') < trim(b).len(),
        trim(trim(b).take(pos_of(trim(b), '='))) == trim(b.take(pos_of(b, '='))),
{
    let e = pos_of(b, '=');
    lemma_pos_of(b, '=');
    let (a, z) = lemma_trim_bounds(b);
    if e < a {
        assert(b.take(a)[e] == '=');
    }
    if e >= z {
        assert(b.skip(z)[e - z] == '=');
    }
    let t = trim(b);
    assert forall|k: int| 0 <= k < e - a implies t[k] != '=' by {
        assert(t[k] == b[a + k]);
    }
    assert(t[e - a] == b[e]);
    lemma_pos_of_is(t, '=', e - a);
    assert(t.take(e - a) =~= b.subrange(a, e));
    assert(b.take(e) =~= b.take(a) + b.subrange(a, e));
    lemma_trim_start_ws_prefix(b.take(a), b.subrange(a, e));
}

/// A line sets `key`, as `rewrite_setting` decides it, exactly when the
/// parser reads it as naming `key`.
proof fn lemma_names_setting(raw: Seq<char>, key: Seq<char>)
    ensures
        names_setting(raw, key) == (line_key(raw) == Some(key)),
{
    let b = raw.take(pos_of(raw, '#'));
    if pos_of(b, '=') < b.len() {
        lemma_key_of_trimmed(b);
    } else {
        lemma_pos_of(b, '=');
        let (a, z) = lemma_trim_bounds(b);
        let t = trim(b);
        assert(!has_char(t, '=')) by {
            if has_char(t, '=') {
                let i = choose|i: int| 0 <= i < t.len() && t[i] == '=';
                assert(t[i] == b[a + i]);
            }
        }
        lemma_pos_of(t, '=');
    }
}

/// Cutting a carriage return from a line's end changes neither what the
/// parser reads from it nor whether it sets a key.
proof fn lemma_strip_cr(raw: Seq<char>)
    ensures
        line_body(strip_cr(raw)) == line_body(raw),
        forall|key: Seq<char>| names_setting(strip_cr(raw), key) == names_setting(raw, key),
{
    if raw.len() > 0 && raw.last() == '\r' {
        let l2 = raw.drop_last();
        assert(raw =~= l2 + seq!['\r']);
        lemma_pos_of(l2, '#');
        lemma_pos_of(raw, '#');
        if pos_of(l2, '#') < l2.len() {
            lemma_pos_of_is(raw, '#', pos_of(l2, '#'));
            assert(raw.take(pos_of(raw, '#')) =~= l2.take(pos_of(l2, '#')));
        } else {
            assert forall|k: int| 0 <= k < raw.len() implies raw[k] != '#' by {
                if k < l2.len() {
                    assert(raw[k] == l2[k]);
                }
            }
            lemma_pos_of_is(raw, '#', raw.len() as int);
            assert(raw.take(pos_of(raw, '#')) =~= raw);
            assert(l2.take(pos_of(l2, '#')) =~= l2);
            assert(all_ws(seq!['\r']));
            lemma_trim_ws_suffix(l2, seq!['\r']);
            lemma_pos_of(l2, '=');
            if pos_of(l2, '=') < l2.len() {
                lemma_pos_of_is(raw, '=', pos_of(l2, '='));
                assert(raw.take(pos_of(l2, '=')) =~= l2.take(pos_of(l2, '=')));
            } else {
                assert forall|k: int| 0 <= k < raw.len() implies raw[k] != '=' by {
                    if k < l2.len() {
                        assert(raw[k] == l2[k]);
                    }
                }
                lemma_pos_of_is(raw, '=', raw.len() as int);
            }
        }
    }
}

/// Lines that the parser reads alike act alike.
proof fn lemma_same_body(c: ConfigView, l1: Seq<char>, l2: Seq<char>, n: nat)
    requires
        line_body(l1) == line_body(l2),
    ensures
        (apply_setting(c, l1, n) is Ok) == (apply_setting(c, l2, n) is Ok),
        apply_setting(c, l1, n) is Ok ==> apply_setting(c, l1, n) == apply_setting(c, l2, n),
        line_key(l1) == line_key(l2),
{
}

/// Whether a line reads without error depends on the line alone, and what it
/// does is to set the one field that it names.
proof fn lemma_effect(c: ConfigView, l: Seq<char>, n: nat)
    ensures
        (apply_setting(c, l, n) is Ok) == line_ok(l),
        line_ok(l) ==> apply_setting(c, l, n) == Ok::<ConfigView, crate::config::ConfigErrorView>(
            overlay(c, l),
        ),
        line_ok(l) ==> overlay(c, l) == merge(c, line_key(l), overlay(default_config(), l)),
        line_ok(l) && line_key(l) is Some ==> ({
            let k = line_key(l)->Some_0;
            k == "hotkey"@ || k == "model"@ || k == "paste_shift"@
        }),
{
}

/// A line that names another setting commutes with `key = value`.
proof fn lemma_commute(c: ConfigView, l: Seq<char>, kv: Seq<char>, key: Seq<char>)
    requires
        line_ok(l),
        line_ok(kv),
        line_key(kv) == Some(key),
        line_key(l) != Some(key),
    ensures
        overlay(overlay(c, kv), l) == overlay(overlay(c, l), kv),
{
    reveal_strlit("hotkey");
    reveal_strlit("model");
    reveal_strlit("paste_shift");
    lemma_effect(c, l, 0);
    lemma_effect(c, kv, 0);
    lemma_effect(overlay(c, kv), l, 0);
    lemma_effect(overlay(c, l), kv, 0);
}

/// A later `key = value` hides an earlier line that sets the same key.
proof fn lemma_override(c: ConfigView, l: Seq<char>, kv: Seq<char>, key: Seq<char>)
    requires
        line_ok(l),
        line_ok(kv),
        line_key(kv) == Some(key),
        line_key(l) == Some(key),
    ensures
        overlay(overlay(c, l), kv) == overlay(c, kv),
{
    reveal_strlit("hotkey");
    reveal_strlit("model");
    reveal_strlit("paste_shift");
    lemma_effect(c, l, 0);
    lemma_effect(c, kv, 0);
    lemma_effect(overlay(c, l), kv, 0);
}

proof fn lemma_fold(
    co: ConfigView,
    cn: ConfigView,
    ls: Seq<Seq<char>>,
    key: Seq<char>,
    value: Seq<char>,
    replaced: bool,
    n: nat,
    m: nat,
)
    requires
        line_ok(setting_body(key, value)),
        line_key(setting_body(key, value)) == Some(key),
        parse_lines(co, ls, n) is Ok,
        replaced ==> cn == overlay(co, setting_body(key, value)),
        !replaced ==> cn == co,
    ensures
        parse_lines(cn, rewritten_lines(ls, key, value, replaced), m) == Ok::<
            ConfigView,
            crate::config::ConfigErrorView,
        >(overlay(parse_lines(co, ls, n)->Ok_0, setting_body(key, value))),
    decreases ls.len(),
{
    let kv = setting_body(key, value);
    let kvs = strip_cr(kv);
    lemma_strip_cr(kv);
    lemma_same_body(cn, kvs, kv, m);
    lemma_effect(cn, kv, m);
    lemma_effect(cn, kvs, m);
    if ls.len() == 0 {
        let out = rewritten_lines(ls, key, value, replaced);
        assert(parse_lines(co, ls, n) == Ok::<ConfigView, crate::config::ConfigErrorView>(co));
        if !replaced {
            assert(out == seq![kvs]);
            assert(seq![kvs].drop_first() =~= Seq::<Seq<char>>::empty());
            assert(apply_setting(cn, kvs, m) == Ok::<ConfigView, crate::config::ConfigErrorView>(
                overlay(cn, kv),
            ));
            assert(parse_lines(cn, out, m) == parse_lines(overlay(cn, kv), seq![kvs].drop_first(), m + 1));
        } else {
            assert(out =~= Seq::<Seq<char>>::empty());
        }
    } else {
        let l = ls[0];
        let rest = ls.drop_first();
        lemma_effect(co, l, n);
        let co1 = overlay(co, l);
        assert(parse_lines(co, ls, n) == parse_lines(co1, rest, n + 1));
        lemma_names_setting(l, key);
        if names_setting(l, key) {
            lemma_override(co, l, kv, key);
            lemma_fold(co1, overlay(co1, kv), rest, key, value, true, n + 1, m + 1);
            lemma_fold(co1, overlay(co1, kv), rest, key, value, true, n + 1, m);
            let tail = rewritten_lines(rest, key, value, true);
            if !replaced {
                assert(rewritten_lines(ls, key, value, replaced) =~= seq![kvs] + tail);
                assert((seq![kvs] + tail)[0] == kvs);
                assert((seq![kvs] + tail).drop_first() =~= tail);
            } else {
                assert(rewritten_lines(ls, key, value, replaced) =~= tail);
            }
        } else {
            let ls0 = strip_cr(l);
            lemma_strip_cr(l);
            lemma_same_body(cn, ls0, l, m);
            lemma_effect(cn, l, m);
            lemma_effect(cn, ls0, m);
            if replaced {
                lemma_commute(co, l, kv, key);
            }
            let cn1 = overlay(cn, l);
            lemma_fold(co1, cn1, rest, key, value, replaced, n + 1, m + 1);
            let tail = rewritten_lines(rest, key, value, replaced);
            assert(rewritten_lines(ls, key, value, replaced) =~= seq![ls0] + tail);
            assert((seq![ls0] + tail)[0] == ls0);
            assert((seq![ls0] + tail).drop_first() =~= tail);
        }
    }
}

/// Every line that `lines` yields is free of newlines.
proof fn lemma_lines_no_newline(s: Seq<char>)
    ensures
        forall|i: int| 0 <= i < lines(s).len() ==> !has_char(#[trigger] lines(s)[i], '\n'),
    decreases s.len(),
{
    if s.len() > 0 {
        let i = pos_of(s, '\n');
        lemma_pos_of(s, '\n');
        if i < s.len() {
            lemma_lines_no_newline(s.skip(i + 1));
            let first = strip_cr(s.take(i));
            assert(!has_char(first, '\n')) by {
                if has_char(first, '\n') {
                    let j = choose|j: int| 0 <= j < first.len() && first[j] == '\n';
                    assert(s[j] == '\n');
                }
            }
            let ls = lines(s);
            assert forall|k: int| 0 <= k < ls.len() implies !has_char(#[trigger] ls[k], '\n') by {
                if k > 0 {
                    assert(ls[k] == lines(s.skip(i + 1))[k - 1]);
                }
            }
        }
    }
}

/// The lines of the rewritten text.
proof fn lemma_rewrite_lines(ls: Seq<Seq<char>>, key: Seq<char>, value: Seq<char>, replaced: bool)
    requires
        forall|i: int| 0 <= i < ls.len() ==> !has_char(#[trigger] ls[i], '\n'),
        !has_char(setting_body(key, value), '\n'),
    ensures
        lines(rewrite_lines(ls, key, value, replaced)) == rewritten_lines(ls, key, value, replaced),
    decreases ls.len(),
{
    let kv = setting_body(key, value);
    assert(setting_line(key, value) =~= kv + seq!['\n']);
    if ls.len() == 0 {
        if !replaced {
            lemma_lines_cons(kv, Seq::empty());
            assert(kv + seq!['\n'] + Seq::<char>::empty() =~= kv + seq!['\n']);
            assert(lines(Seq::<char>::empty()) =~= Seq::<Seq<char>>::empty());
            assert(seq![strip_cr(kv)] + Seq::<Seq<char>>::empty() =~= seq![strip_cr(kv)]);
        } else {
            assert(lines(Seq::<char>::empty()) =~= Seq::<Seq<char>>::empty());
        }
    } else {
        let rest = ls.drop_first();
        assert forall|i: int| 0 <= i < rest.len() implies !has_char(#[trigger] rest[i], '\n') by {
            assert(rest[i] == ls[i + 1]);
        }
        assert(!has_char(ls[0], '\n'));
        if names_setting(ls[0], key) {
            lemma_rewrite_lines(rest, key, value, true);
            let r = rewrite_lines(rest, key, value, true);
            if !replaced {
                lemma_lines_cons(kv, r);
                assert(setting_line(key, value) + r =~= kv + seq!['\n'] + r);
            } else {
                assert(Seq::<char>::empty() + r =~= r);
                assert(Seq::<Seq<char>>::empty() + rewritten_lines(rest, key, value, true)
                    =~= rewritten_lines(rest, key, value, true));
            }
        } else {
            lemma_rewrite_lines(rest, key, value, replaced);
            lemma_lines_cons(ls[0], rewrite_lines(rest, key, value, replaced));
        }
    }
}

/// Saving a setting and reading the file back gives the settings that the
/// file had before, with the saved setting taking its new value: the line
/// that set it is rewritten in place, later lines that set it are dropped,
/// and every other line reads as it did. This holds for each of the three
/// settings and any value that reads as a valid setting on a line of its own
/// (a value with a newline in it would write two lines).
pub proof fn saved_setting_reads_back(text: Seq<char>, key: Seq<char>, value: Seq<char>)
    requires
        key == "hotkey"@ || key == "model"@ || key == "paste_shift"@,
        !has_char(value, '\n'),
        line_ok(setting_body(key, value)),
        parse_spec(text) is Ok,
    ensures
        parse_spec(rewrite_lines(lines(text), key, value, false)) == Ok::<
            ConfigView,
            crate::config::ConfigErrorView,
        >(overlay(parse_spec(text)->Ok_0, setting_body(key, value))),
{
    reveal_strlit("hotkey");
    reveal_strlit("model");
    reveal_strlit("paste_shift");
    let kv = setting_body(key, value);
    let klen = key.len() as int;
    // The key names no comment, no `=`, no newline, and has no space at its ends.
    assert(!has_char(key, '#') && !has_char(key, '=') && !has_char(key, '\n')) by {
        if key == "hotkey"@ {
            assert(key =~= seq!['h', 'o', 't', 'k', 'e', 'y']);
        } else if key == "model"@ {
            assert(key =~= seq!['m', 'o', 'd', 'e', 'l']);
        } else {
            assert(key =~= seq!['p', 'a', 's', 't', 'e', '_', 's', 'h', 'i', 'f', 't']);
        }
    }
    assert(trim(key) == key) by {
        assert(key.len() > 0 && !is_ws(key[0]) && !is_ws(key.last())) by {
            if key == "hotkey"@ {
                assert(key =~= seq!['h', 'o', 't', 'k', 'e', 'y']);
            } else if key == "model"@ {
                assert(key =~= seq!['m', 'o', 'd', 'e', 'l']);
            } else {
                assert(key =~= seq!['p', 'a', 's', 't', 'e', '_', 's', 'h', 'i', 'f', 't']);
            }
        }
    }
    assert(!has_char(kv, '\n')) by {
        if has_char(kv, '\n') {
            let i = choose|i: int| 0 <= i < kv.len() && kv[i] == '\n';
            if i < klen {
                assert(key[i] == '\n');
            } else if i >= klen + 3 {
                assert(value[i - klen - 3] == '\n');
            }
        }
    }
    // `key = value` names `key`.
    lemma_pos_of(kv, '#');
    let p = pos_of(kv, '#');
    assert forall|k: int| 0 <= k < klen + 3 implies kv[k] != '#' by {
        if k < klen {
            assert(kv[k] == key[k]);
        }
    }
    let b = kv.take(p);
    assert(p >= klen + 3) by {
        if p < klen + 3 && p < kv.len() {
            assert(kv[p] == '#');
        }
    }
    assert forall|k: int| 0 <= k < klen + 1 implies b[k] != '=' by {
        if k < klen {
            assert(b[k] == key[k]);
        }
    }
    assert(b[klen + 1] == '=');
    lemma_pos_of_is(b, '=', klen + 1);
    assert(b.take(klen + 1) =~= key + seq![' ']);
    assert(all_ws(seq![' ']));
    lemma_trim_ws_suffix(key, seq![' ']);
    assert(names_setting(kv, key));
    lemma_names_setting(kv, key);
    // Both files read line by line.
    let ls = lines(text);
    lemma_lines_no_newline(text);
    lemma_rewrite_lines(ls, key, value, false);
    lemma_fold(default_config(), default_config(), ls, key, value, false, 1, 1);
}

} // verus!
