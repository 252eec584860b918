//! User configuration: a flat `key = value` file.
//!
//! Deliberately not TOML: three settings do not justify a parser and a
//! derive macro in a program that reads every keystroke. Blank lines and
//! `#` comments are ignored, each setting may appear more than once (the
//! last one wins), and the first bad line is reported by its number.

use std::collections::HashSet;
use vstd::prelude::*;

use crate::numbers::{decimal, push_decimal};
use crate::text::{
    all_ws, has_char, is_ws, lemma_pos_of, lemma_pos_of_is, lemma_trim_end_is_take, lemma_trim_start_append,
    lemma_trim_start_is_skip, lemma_trim_start_ws_prefix, lemma_trim_ws_suffix, trim_end, trim_start,
    chars_of, find_char, join_path, lines, next_line, path_join, pos_of, push_range, push_str, range_is, same_chars, string_of,
    string_of_range, trim, trim_range,
};

verus! {

broadcast use vstd::std_specs::hash::group_hash_axioms;

/// A Linux input key code, as evdev numbers keys.
pub type KeyCode = u16;

/// Right Alt: present on effectively every keyboard, rarely bound by
/// applications, and not part of the Ctrl+V chord used to paste.
pub const DEFAULT_MODIFIER: KeyCode = 100;

/// `.`, held with Right Alt: a chord rather than a single key, since a lone
/// modifier gets intercepted by browsers and a lone ordinary key steals a
/// character. `Right Alt + .` collides with essentially nothing and is
/// reachable with one hand. A starting point that the config overrides.
pub const DEFAULT_TRIGGER: KeyCode = 52;

pub const DEFAULT_MODEL: &'static str = "ggml-tiny.en.bin";

/// Key names are looked up among the codes below this bound.
pub const KEY_SCAN_LIMIT: u16 = 0x2ff;

/// The name that evdev's `Debug` gives the key with this code, such as
/// `KEY_F12` (or `unknown key: ..` for a code it has no name for).
pub uninterp spec fn evdev_key_name(code: u16) -> Seq<char>;

/// What `str::to_uppercase` makes of a string.
pub uninterp spec fn uppercase(s: Seq<char>) -> Seq<char>;

/// What `Debug` prints for a string: quoted, with escapes.
pub uninterp spec fn debug_quoted(s: Seq<char>) -> Seq<char>;

/// Calls evdev's `Debug` on `Key::new(code)`; its result is named by
/// `evdev_key_name`. No other code gets the same name: `Debug` prints the
/// name of a constant with that code (each constant's name is its own) or
/// `unknown key: ` followed by the code itself. Which name a code gets is
/// not spelled out.
#[verifier::external_body]
pub(crate) fn key_debug_name(code: u16) -> (name: String)
    ensures
        name@ == evdev_key_name(code),
        forall|j: u16| j != code ==> evdev_key_name(j) != name@,
{
    format!("{:?}", evdev::Key::new(code))
}

/// Calls `str::to_uppercase`; its result is named by `uppercase`.
#[verifier::external_body]
fn upper(s: &str) -> (up: String)
    ensures
        up@ == uppercase(s@),
{
    s.to_uppercase()
}

/// Calls `<str as Debug>::fmt`; its result is named by `debug_quoted`.
#[verifier::external_body]
pub(crate) fn quoted(s: &str) -> (q: String)
    ensures
        q@ == debug_quoted(s@),
{
    format!("{:?}", s)
}

pub open spec fn key_prefix() -> Seq<char> {
    seq!['K', 'E', 'Y', '_']
}

/// The evdev name that `name` asks for: trimmed, upper-cased, and given the
/// `KEY_` prefix unless it already has it.
pub open spec fn key_target(name: Seq<char>) -> Seq<char> {
    prefixed(uppercase(trim(name)))
}

/// The first code at or above `from` and below the scan limit whose evdev
/// name is `target`.
pub open spec fn first_named(target: Seq<char>, from: int) -> Option<KeyCode>
    decreases 0x2ff - from,
{
    if from < 0 || from >= 0x2ff {
        None
    } else if evdev_key_name(from as u16) == target {
        Some(from as u16)
    } else {
        first_named(target, from + 1)
    }
}

/// The key that `name` resolves to.
pub open spec fn key_lookup(name: Seq<char>) -> Option<KeyCode> {
    first_named(key_target(name), 0)
}

/// The hotkey that a config value names: one key, or `modifier + key`.
pub open spec fn hotkey_lookup(value: Seq<char>) -> Option<Hotkey> {
    let p = pos_of(value, '+');
    if p >= value.len() {
        match key_lookup(value) {
            Some(k) => Some(Hotkey { trigger: k, modifier: None }),
            None => None,
        }
    } else {
        match (key_lookup(value.take(p)), key_lookup(value.skip(p + 1))) {
            (Some(m), Some(k)) => Some(Hotkey { trigger: k, modifier: Some(m) }),
            _ => None,
        }
    }
}

/// The evdev name to look for, given a key name already upper-cased: the
/// name itself if it has the `KEY_` prefix, else the name with it.
pub open spec fn prefixed(upper: Seq<char>) -> Seq<char> {
    if upper.len() >= 4 && upper.take(4) == key_prefix() {
        upper
    } else {
        key_prefix() + upper
    }
}

/// Gives an upper-cased key name the `KEY_` prefix unless it has it.
pub fn key_target_of(upper: &str) -> (target: Vec<char>)
    ensures
        target@ == prefixed(upper@),
{
    let upc = chars_of(upper);
    let mut target: Vec<char> = Vec::new();
    if upc.len() >= 4 && upc[0] == 'K' && upc[1] == 'E' && upc[2] == 'Y' && upc[3] == '_' {
        assert(upc@.take(4) =~= key_prefix());
        push_range(&mut target, &upc, 0, upc.len());
    } else {
        proof {
            if upc@.len() >= 4 && upc@.take(4) == key_prefix() {
                assert(upc@.take(4)[0] == 'K');
                assert(upc@.take(4)[1] == 'E');
                assert(upc@.take(4)[2] == 'Y');
                assert(upc@.take(4)[3] == '_');
            }
        }
        target.push('K');
        target.push('E');
        target.push('Y');
        target.push('_');
        push_range(&mut target, &upc, 0, upc.len());
    }
    assert(upc@.subrange(0, upc@.len() as int) =~= upc@);
    assert(target@ =~= prefixed(upper@));
    target
}

/// Resolves an evdev key from its name, with or without the `KEY_` prefix
/// and in any case. evdev has no reverse lookup, so the keycode space is
/// scanned for the first code with that name.
pub fn key_by_name(name: &str) -> (r: Option<KeyCode>)
    ensures
        r == key_lookup(name@),
        r matches Some(k) ==> k < KEY_SCAN_LIMIT && evdev_key_name(k) == key_target(name@) && (
        forall|j: u16| j < k ==> evdev_key_name(j) != key_target(name@)),
        r is None ==> forall|j: u16| j < KEY_SCAN_LIMIT ==> evdev_key_name(j) != key_target(name@),
        forall|k: u16|
            k < KEY_SCAN_LIMIT && evdev_key_name(k) == key_target(name@) ==> r == Some(k),
{
    let cs = chars_of(name);
    let (a, b) = trim_range(&cs, 0, cs.len());
    assert(cs@.subrange(0, cs@.len() as int) =~= cs@);
    let trimmed = string_of_range(&cs, a, b);
    let up = upper(trimmed.as_str());
    let target = key_target_of(up.as_str());
    assert(target@ =~= key_target(name@));
    let mut code: u16 = 0;
    while code < KEY_SCAN_LIMIT
        invariant
            code <= KEY_SCAN_LIMIT,
            target@ == key_target(name@),
            key_lookup(name@) == first_named(target@, code as int),
            forall|j: u16| j < code ==> evdev_key_name(j) != target@,
        decreases KEY_SCAN_LIMIT - code,
    {
        let n = key_debug_name(code);
        let nc = chars_of(n.as_str());
        if same_chars(&nc, &target) {
            assert(forall|k: u16| k != code ==> evdev_key_name(k) != target@);
            return Some(code);
        }
        code = code + 1;
    }
    None
}

/// A push-to-talk key: one key alone, or a modifier held with it.
#[derive(Debug, Clone, Copy, PartialEq, Eq, Structural)]
pub struct Hotkey {
    pub trigger: KeyCode,
    pub modifier: Option<KeyCode>,
}

impl Hotkey {
    /// Whether this hotkey counts as held while exactly the keys in `down`
    /// are held.
    pub open spec fn held_in(self, down: Set<KeyCode>) -> bool {
        &&& down.contains(self.trigger)
        &&& match self.modifier {
            Some(m) => down.contains(m),
            None => true,
        }
    }

    pub fn single(trigger: KeyCode) -> (h: Hotkey)
        ensures
            h.trigger == trigger,
            h.modifier == None::<KeyCode>,
    {
        Hotkey { trigger, modifier: None }
    }

    pub fn chord(modifier: KeyCode, trigger: KeyCode) -> (h: Hotkey)
        ensures
            h.trigger == trigger,
            h.modifier == Some(modifier),
    {
        Hotkey { trigger, modifier: Some(modifier) }
    }

    /// Whether the hotkey is held, given the keys held on one device. Other
    /// keys held alongside do not matter.
    pub fn is_held(&self, down: &HashSet<KeyCode>) -> (r: bool)
        ensures
            r == self.held_in(down@),
    {
        if !down.contains(&self.trigger) {
            return false;
        }
        match self.modifier {
            Some(m) => down.contains(&m),
            None => true,
        }
    }
}

/// The hotkey used when the config sets none: Right Alt + `.`.
pub fn default_hotkey() -> (h: Hotkey)
    ensures
        h == (Hotkey { trigger: DEFAULT_TRIGGER, modifier: Some(DEFAULT_MODIFIER) }),
{
    Hotkey::chord(DEFAULT_MODIFIER, DEFAULT_TRIGGER)
}

/// Resolves a config value to a hotkey: a key name, or two key names joined
/// by `+` for a modifier held with a key (`RIGHTALT + DOT`).
pub fn hotkey_by_name(value: &str) -> (r: Option<Hotkey>)
    ensures
        r == hotkey_lookup(value@),
{
    let v = chars_of(value);
    let n = v.len();
    let p = find_char(&v, 0, n, '+');
    assert(v@.subrange(0, n as int) =~= v@);
    if p == n {
        return match key_by_name(value) {
            Some(k) => Some(Hotkey::single(k)),
            None => None,
        };
    }
    assert(v@.take(p as int) =~= v@.subrange(0, p as int));
    assert(v@.skip(p + 1) =~= v@.subrange(p + 1, n as int));
    let left = string_of_range(&v, 0, p);
    let right = string_of_range(&v, p + 1, n);
    match (key_by_name(left.as_str()), key_by_name(right.as_str())) {
        (Some(m), Some(k)) => Some(Hotkey::chord(m, k)),
        _ => None,
    }
}

/// A key name without evdev's `KEY_` prefix, as the config file writes it.
pub open spec fn short_name(n: Seq<char>) -> Seq<char> {
    if n.len() >= 4 && n.take(4) == key_prefix() {
        n.skip(4)
    } else {
        n
    }
}

/// The key's evdev name without its `KEY_` prefix (`F12` for `KEY_F12`).
pub open spec fn short_key_name(code: KeyCode) -> Seq<char> {
    short_name(evdev_key_name(code))
}

/// How a hotkey is written in the config file: `F12`, or `RIGHTALT + DOT`
/// for Right Alt held with `.`.
pub open spec fn hotkey_text(h: Hotkey) -> Seq<char> {
    match h.modifier {
        Some(m) => short_key_name(m) + " + "@ + short_key_name(h.trigger),
        None => short_key_name(h.trigger),
    }
}

/// How a hotkey is shown to people, by evdev's full names:
/// `KEY_RIGHTALT + KEY_DOT`.
pub open spec fn hotkey_description(h: Hotkey) -> Seq<char> {
    match h.modifier {
        Some(m) => evdev_key_name(m) + " + "@ + evdev_key_name(h.trigger),
        None => evdev_key_name(h.trigger),
    }
}

/// Drops the `KEY_` prefix from a key name that has it.
pub fn strip_key_prefix(name: &str) -> (s: String)
    ensures
        s@ == short_name(name@),
{
    let v = chars_of(name);
    let n = v.len();
    if n >= 4 && v[0] == 'K' && v[1] == 'E' && v[2] == 'Y' && v[3] == '_' {
        assert(v@.take(4) =~= key_prefix());
        assert(v@.subrange(4, n as int) =~= v@.skip(4));
        string_of_range(&v, 4, n)
    } else {
        proof {
            if v@.len() >= 4 && v@.take(4) == key_prefix() {
                assert(v@.take(4)[0] == 'K');
                assert(v@.take(4)[1] == 'E');
                assert(v@.take(4)[2] == 'Y');
                assert(v@.take(4)[3] == '_');
            }
        }
        assert(v@.subrange(0, n as int) =~= v@);
        string_of_range(&v, 0, n)
    }
}

/// The config name of a key: evdev's name without the `KEY_` prefix.
pub fn key_short_name(code: KeyCode) -> (s: String)
    ensures
        s@ == short_key_name(code),
{
    strip_key_prefix(key_debug_name(code).as_str())
}

impl Hotkey {
    /// The hotkey as the config file writes it, and as `hotkey_by_name`
    /// reads it back: `F12`, or `RIGHTALT + DOT`.
    pub fn encode(&self) -> (s: String)
        ensures
            s@ == hotkey_text(*self),
    {
        let mut out: Vec<char> = Vec::new();
        if let Some(m) = self.modifier {
            push_str(&mut out, key_short_name(m).as_str());
            push_str(&mut out, " + ");
        }
        push_str(&mut out, key_short_name(self.trigger).as_str());
        assert(out@ =~= hotkey_text(*self));
        string_of(&out)
    }

    /// The hotkey by evdev's names, for messages: `KEY_RIGHTALT + KEY_DOT`.
    pub fn describe(&self) -> (s: String)
        ensures
            s@ == hotkey_description(*self),
    {
        let mut out: Vec<char> = Vec::new();
        if let Some(m) = self.modifier {
            push_str(&mut out, key_debug_name(m).as_str());
            push_str(&mut out, " + ");
        }
        push_str(&mut out, key_debug_name(self.trigger).as_str());
        assert(out@ =~= hotkey_description(*self));
        string_of(&out)
    }
}

/// The settings that the daemon and the settings window read.
#[derive(Debug, Clone, PartialEq)]
pub struct Config {
    pub hotkey: Hotkey,
    pub model: Option<String>,
    /// Terminals need Ctrl+Shift+V; there is no reliable way to detect the
    /// focused app under Wayland, so this stays a user choice.
    pub paste_shift: bool,
}

pub struct ConfigView {
    pub hotkey: Hotkey,
    pub model: Option<Seq<char>>,
    pub paste_shift: bool,
}

impl View for Config {
    type V = ConfigView;

    open spec fn view(&self) -> ConfigView {
        ConfigView {
            hotkey: self.hotkey,
            model: match self.model {
                Some(m) => Some(m@),
                None => None,
            },
            paste_shift: self.paste_shift,
        }
    }
}

pub open spec fn default_config() -> ConfigView {
    ConfigView {
        hotkey: Hotkey { trigger: DEFAULT_TRIGGER, modifier: Some(DEFAULT_MODIFIER) },
        model: None,
        paste_shift: false,
    }
}

impl Default for Config {
    fn default() -> (c: Self)
        ensures
            c@ == default_config(),
    {
        Config { hotkey: default_hotkey(), model: None, paste_shift: false }
    }
}

/// Why a config file or path was refused. Lines are numbered from 1.
#[derive(Debug, Clone, PartialEq)]
pub enum ConfigError {
    /// A line that is neither blank, a comment, nor `key = value`.
    Syntax { line: usize, text: String },
    /// `hotkey` names no key (or chord of keys) that evdev knows.
    NoSuchKey { line: usize, name: String },
    /// `paste_shift` is neither `true` nor `false`.
    PasteShift { line: usize },
    /// A setting this program does not have.
    UnknownSetting { line: usize, name: String },
    /// Neither `XDG_CONFIG_HOME` nor `HOME` is set.
    NoHome,
}

pub enum ConfigErrorView {
    Syntax { line: nat, text: Seq<char> },
    NoSuchKey { line: nat, name: Seq<char> },
    PasteShift { line: nat },
    UnknownSetting { line: nat, name: Seq<char> },
    NoHome,
}

impl View for ConfigError {
    type V = ConfigErrorView;

    open spec fn view(&self) -> ConfigErrorView {
        match self {
            ConfigError::Syntax { line, text } => ConfigErrorView::Syntax {
                line: *line as nat,
                text: text@,
            },
            ConfigError::NoSuchKey { line, name } => ConfigErrorView::NoSuchKey {
                line: *line as nat,
                name: name@,
            },
            ConfigError::PasteShift { line } => ConfigErrorView::PasteShift { line: *line as nat },
            ConfigError::UnknownSetting { line, name } => ConfigErrorView::UnknownSetting {
                line: *line as nat,
                name: name@,
            },
            ConfigError::NoHome => ConfigErrorView::NoHome,
        }
    }
}

/// What one line does to the settings read so far.
pub open spec fn apply_setting(cfg: ConfigView, raw: Seq<char>, no: nat) -> Result<
    ConfigView,
    ConfigErrorView,
> {
    let line = trim(raw.take(pos_of(raw, '#')));
    if line.len() == 0 {
        Ok(cfg)
    } else {
        let eq = pos_of(line, '=');
        if eq >= line.len() {
            Err(ConfigErrorView::Syntax { line: no, text: raw })
        } else {
            let key = trim(line.take(eq));
            let value = trim(line.skip(eq + 1));
            if key == "hotkey"@ {
                match hotkey_lookup(value) {
                    Some(h) => Ok(ConfigView { hotkey: h, ..cfg }),
                    None => Err(ConfigErrorView::NoSuchKey { line: no, name: value }),
                }
            } else if key == "model"@ {
                Ok(ConfigView { model: Some(value), ..cfg })
            } else if key == "paste_shift"@ {
                if value == "true"@ {
                    Ok(ConfigView { paste_shift: true, ..cfg })
                } else if value == "false"@ {
                    Ok(ConfigView { paste_shift: false, ..cfg })
                } else {
                    Err(ConfigErrorView::PasteShift { line: no })
                }
            } else {
                Err(ConfigErrorView::UnknownSetting { line: no, name: key })
            }
        }
    }
}

/// The settings after the lines `ls`, the first of them numbered `no`.
pub open spec fn parse_lines(cfg: ConfigView, ls: Seq<Seq<char>>, no: nat) -> Result<
    ConfigView,
    ConfigErrorView,
>
    decreases ls.len(),
{
    if ls.len() == 0 {
        Ok(cfg)
    } else {
        match apply_setting(cfg, ls[0], no) {
            Ok(c) => parse_lines(c, ls.drop_first(), no + 1),
            Err(e) => Err(e),
        }
    }
}

/// The settings that a config file's text gives.
pub open spec fn parse_spec(text: Seq<char>) -> Result<ConfigView, ConfigErrorView> {
    parse_lines(default_config(), lines(text), 1)
}

/// Whether an executable result is the one that a spec result describes.
pub open spec fn config_result_is(
    r: Result<Config, ConfigError>,
    s: Result<ConfigView, ConfigErrorView>,
) -> bool {
    match s {
        Ok(c) => r matches Ok(x) && x@ == c,
        Err(e) => r matches Err(x) && x@ == e,
    }
}

fn apply_line(cfg: &mut Config, v: &Vec<char>, lo: usize, hi: usize, no: usize) -> (r: Result<
    (),
    ConfigError,
>)
    requires
        lo <= hi <= v@.len(),
    ensures
        match apply_setting(old(cfg)@, v@.subrange(lo as int, hi as int), no as nat) {
            Ok(c) => r is Ok && final(cfg)@ == c,
            Err(e) => r matches Err(x) && x@ == e,
        },
{
    let ghost raw = v@.subrange(lo as int, hi as int);
    let h = find_char(v, lo, hi, '#');
    assert(raw.take(h - lo) =~= v@.subrange(lo as int, h as int));
    let (a, b) = trim_range(v, lo, h);
    if a == b {
        return Ok(());
    }
    let ghost line = v@.subrange(a as int, b as int);
    let eq = find_char(v, a, b, '=');
    if eq == b {
        return Err(ConfigError::Syntax { line: no, text: string_of_range(v, lo, hi) });
    }
    assert(line.take(eq - a) =~= v@.subrange(a as int, eq as int));
    assert(line.skip(eq - a + 1) =~= v@.subrange(eq + 1, b as int));
    let (ka, kb) = trim_range(v, a, eq);
    let (va, vb) = trim_range(v, eq + 1, b);
    if range_is(v, ka, kb, "hotkey") {
        let value = string_of_range(v, va, vb);
        match hotkey_by_name(value.as_str()) {
            Some(h) => {
                cfg.hotkey = h;
                Ok(())
            },
            None => Err(ConfigError::NoSuchKey { line: no, name: value }),
        }
    } else if range_is(v, ka, kb, "model") {
        cfg.model = Some(string_of_range(v, va, vb));
        Ok(())
    } else if range_is(v, ka, kb, "paste_shift") {
        if range_is(v, va, vb, "true") {
            cfg.paste_shift = true;
            Ok(())
        } else if range_is(v, va, vb, "false") {
            cfg.paste_shift = false;
            Ok(())
        } else {
            Err(ConfigError::PasteShift { line: no })
        }
    } else {
        Err(ConfigError::UnknownSetting { line: no, name: string_of_range(v, ka, kb) })
    }
}

impl Config {
    /// Reads the settings from a config file's text. A file with nothing but
    /// blank lines and comments gives the defaults.
    pub fn parse(text: &str) -> (r: Result<Config, ConfigError>)
        ensures
            config_result_is(r, parse_spec(text@)),
    {
        let v = chars_of(text);
        let n = v.len();
        let mut cfg = Config::default();
        let mut start: usize = 0;
        let mut done: usize = 0;
        assert(v@.subrange(0, n as int) =~= v@);
        while start < n
            invariant
                start <= n == v@.len(),
                done <= start,
                v@ == text@,
                parse_spec(text@) == parse_lines(
                    cfg@,
                    lines(v@.subrange(start as int, n as int)),
                    (done + 1) as nat,
                ),
            decreases n - start,
        {
            let (lo, hi, next) = next_line(&v, start);
            let ghost ls = lines(v@.subrange(start as int, n as int));
            assert(ls[0] == v@.subrange(lo as int, hi as int));
            assert(ls.drop_first() =~= lines(v@.subrange(next as int, n as int)));
            match apply_line(&mut cfg, &v, lo, hi, done + 1) {
                Err(e) => {
                    return Err(e);
                },
                Ok(()) => {},
            }
            start = next;
            done = done + 1;
        }
        assert(lines(v@.subrange(n as int, n as int)) =~= Seq::<Seq<char>>::empty());
        Ok(cfg)
    }
}

/// The text of an error, with `q` standing for the quoted name or line.
pub open spec fn error_text_with(e: ConfigErrorView, q: Seq<char>) -> Seq<char> {
    match e {
        ConfigErrorView::Syntax { line, .. } => "line "@ + decimal(line)
            + ": expected `key = value`, got "@ + q,
        ConfigErrorView::NoSuchKey { line, .. } => "line "@ + decimal(line) + ": no such key "@ + q,
        ConfigErrorView::PasteShift { line } => "line "@ + decimal(line)
            + ": paste_shift must be true or false"@,
        ConfigErrorView::UnknownSetting { line, .. } => "line "@ + decimal(line)
            + ": unknown setting "@ + q,
        ConfigErrorView::NoHome => "neither XDG_CONFIG_HOME nor HOME is set"@,
    }
}

/// The line or name that an error quotes (empty for those that quote none).
pub open spec fn quoted_part(e: ConfigErrorView) -> Seq<char> {
    match e {
        ConfigErrorView::Syntax { text, .. } => text,
        ConfigErrorView::NoSuchKey { name, .. } => name,
        ConfigErrorView::UnknownSetting { name, .. } => name,
        _ => Seq::empty(),
    }
}

/// The text of an error, as the program reports it.
pub open spec fn error_text(e: ConfigErrorView) -> Seq<char> {
    error_text_with(e, debug_quoted(quoted_part(e)))
}

impl ConfigError {
    /// The error's text with `q` in place of the quoted line or name.
    pub fn render(&self, q: &str) -> (m: String)
        ensures
            m@ == error_text_with(self@, q@),
    {
        let mut out: Vec<char> = Vec::new();
        match self {
            ConfigError::Syntax { line, .. } => {
                push_str(&mut out, "line ");
                push_decimal(&mut out, *line as u64);
                push_str(&mut out, ": expected `key = value`, got ");
                push_str(&mut out, q);
            },
            ConfigError::NoSuchKey { line, .. } => {
                push_str(&mut out, "line ");
                push_decimal(&mut out, *line as u64);
                push_str(&mut out, ": no such key ");
                push_str(&mut out, q);
            },
            ConfigError::PasteShift { line } => {
                push_str(&mut out, "line ");
                push_decimal(&mut out, *line as u64);
                push_str(&mut out, ": paste_shift must be true or false");
            },
            ConfigError::UnknownSetting { line, .. } => {
                push_str(&mut out, "line ");
                push_decimal(&mut out, *line as u64);
                push_str(&mut out, ": unknown setting ");
                push_str(&mut out, q);
            },
            ConfigError::NoHome => {
                push_str(&mut out, "neither XDG_CONFIG_HOME nor HOME is set");
            },
        }
        assert(out@ =~= error_text_with(self@, q@));
        string_of(&out)
    }

    /// The error's text, such as `line 2: expected `key = value`, got "broken"`.
    pub fn message(&self) -> (m: String)
        ensures
            m@ == error_text(self@),
    {
        match self {
            ConfigError::Syntax { text, .. } => self.render(quoted(text.as_str()).as_str()),
            ConfigError::NoSuchKey { name, .. } => self.render(quoted(name.as_str()).as_str()),
            ConfigError::UnknownSetting { name, .. } => self.render(quoted(name.as_str()).as_str()),
            _ => self.render(""),
        }
    }
}

/// Whether a raw line is blank once its comment is cut.
pub open spec fn blank_line(raw: Seq<char>) -> bool {
    trim(raw.take(pos_of(raw, '#'))).len() == 0
}

proof fn lemma_blank_lines(cfg: ConfigView, ls: Seq<Seq<char>>, no: nat)
    requires
        forall|i: int| 0 <= i < ls.len() ==> blank_line(#[trigger] ls[i]),
    ensures
        parse_lines(cfg, ls, no) == Ok::<ConfigView, ConfigErrorView>(cfg),
    decreases ls.len(),
{
    if ls.len() > 0 {
        assert(blank_line(ls[0]));
        assert forall|i: int| 0 <= i < ls.drop_first().len() implies blank_line(
            #[trigger] ls.drop_first()[i],
        ) by {
            assert(ls.drop_first()[i] == ls[i + 1]);
        }
        lemma_blank_lines(cfg, ls.drop_first(), no + 1);
    }
}

/// A config file with nothing but blank lines, whitespace and comments in
/// it gives the default settings.
pub proof fn blank_config_is_default(text: Seq<char>)
    requires
        forall|i: int| 0 <= i < lines(text).len() ==> blank_line(#[trigger] lines(text)[i]),
    ensures
        parse_spec(text) == Ok::<ConfigView, ConfigErrorView>(default_config()),
{
    lemma_blank_lines(default_config(), lines(text), 1);
}

proof fn lemma_trimmed_ends(p: Seq<char>)
    requires
        trim(p) == p,
        p.len() > 0,
    ensures
        !is_ws(p.last()),
        !is_ws(p[0]),
{
    let t = trim_start(p);
    let j = lemma_trim_start_is_skip(p);
    let k = lemma_trim_end_is_take(t);
    assert(p == t.take(k));
    assert(p.last() == t[k - 1]);
    assert(p.len() == k);
    assert(t.len() >= k);
    assert(p[0] == t[0]);
    assert(t[0] == p.skip(j)[0]);
    if j > 0 {
        assert(t.len() == p.len() - j);
    }
}

/// A `model = <path>` line sets the model to exactly the path, inner spaces
/// included, and leaves every other setting at its default: for any path
/// with no `#`, no line break and no surrounding whitespace, the file
/// `model = <path>` reads as the defaults with that model.
pub proof fn model_line_keeps_the_whole_path(p: Seq<char>)
    requires
        !has_char(p, '#'),
        !has_char(p, '\n'),
        trim(p) == p,
    ensures
        parse_spec("model = "@ + p) == Ok::<ConfigView, ConfigErrorView>(
            ConfigView { model: Some(p), ..default_config() },
        ),
{
    reveal_strlit("model = ");
    reveal_strlit("model");
    reveal_strlit("hotkey");
    let x: Seq<char> = seq!['m', 'o', 'd', 'e', 'l', ' ', '=', ' '];
    assert("model = "@ =~= x);
    assert("model"@ =~= seq!['m', 'o', 'd', 'e', 'l']);
    assert("hotkey"@.len() == 6);
    let s = x + p;
    assert forall|i: int| 0 <= i < s.len() implies s[i] != '\n' && s[i] != '#' by {
        if i >= 8 {
            assert(s[i] == p[i - 8]);
            if p[i - 8] == '\n' || p[i - 8] == '#' {
                assert(has_char(p, p[i - 8]));
            }
        }
    }
    lemma_pos_of(s, '\n');
    lemma_pos_of(s, '#');
    if pos_of(s, '\n') < s.len() {
        assert(s[pos_of(s, '\n')] == '\n');
    }
    if pos_of(s, '#') < s.len() {
        assert(s[pos_of(s, '#')] == '#');
    }
    assert(lines(s) == seq![s]);
    assert(s.take(pos_of(s, '#')) =~= s);
    // The trimmed line.
    assert(!all_ws(x)) by {
        assert(!is_ws(x[0]));
    }
    lemma_trim_start_append(x, p);
    assert(trim_start(x) == x) by {
        assert(!is_ws(x[0]));
    }
    let line = if p.len() > 0 {
        s
    } else {
        x.take(7)
    };
    assert(trim_start(s) == s);
    if p.len() > 0 {
        lemma_trimmed_ends(p);
        assert(s.last() == p.last());
        assert(trim_end(s) == s);
    } else {
        assert(s =~= x);
        assert(x.drop_last() =~= x.take(7));
        assert(is_ws(x.last()));
        assert(!is_ws(x.take(7).last()));
        assert(trim_end(x.take(7)) == x.take(7));
        assert(trim_end(x) == trim_end(x.drop_last()));
        assert(trim_end(s) == x.take(7));
    }
    assert(trim(s) == line);
    assert(line[6] == '=');
    assert forall|i: int| 0 <= i < 6 implies line[i] != '=' by {}
    lemma_pos_of_is(line, '=', 6);
    // The key.
    let k6 = line.take(6);
    assert(k6 =~= seq!['m', 'o', 'd', 'e', 'l', ' ']);
    assert(trim_start(k6) == k6) by {
        assert(!is_ws(k6[0]));
    }
    assert(k6.drop_last() =~= seq!['m', 'o', 'd', 'e', 'l']);
    assert(trim_end(k6.drop_last()) == k6.drop_last()) by {
        assert(!is_ws(k6.drop_last().last()));
    }
    assert(trim(k6) == "model"@);
    // The value.
    let rest = line.skip(7);
    if p.len() > 0 {
        assert(rest =~= seq![' '] + p);
        assert(all_ws(seq![' ']));
        lemma_trim_start_ws_prefix(seq![' '], p);
        assert(trim(rest) == p);
    } else {
        assert(rest =~= Seq::<char>::empty());
        assert(p =~= Seq::<char>::empty());
    }
    assert(trim(rest) == p);
    assert(trim(k6) != "hotkey"@);
    assert(apply_setting(default_config(), s, 1) == Ok::<ConfigView, ConfigErrorView>(
        ConfigView { model: Some(p), ..default_config() },
    ));
    let c = ConfigView { model: Some(p), ..default_config() };
    assert(seq![s].drop_first() =~= Seq::<Seq<char>>::empty());
    assert(seq![s][0] == s);
    assert(parse_lines(c, Seq::<Seq<char>>::empty(), 2) == Ok::<ConfigView, ConfigErrorView>(c));
    assert(parse_lines(default_config(), seq![s], 1) == Ok::<ConfigView, ConfigErrorView>(c));
    assert("model = "@ + p == s);
}

/// The line number that an error names.
pub open spec fn error_line(e: ConfigErrorView) -> nat {
    match e {
        ConfigErrorView::Syntax { line, .. } => line,
        ConfigErrorView::NoSuchKey { line, .. } => line,
        ConfigErrorView::PasteShift { line } => line,
        ConfigErrorView::UnknownSetting { line, .. } => line,
        ConfigErrorView::NoHome => 0,
    }
}

proof fn lemma_apply_error_line(cfg: ConfigView, raw: Seq<char>, no: nat)
    ensures
        apply_setting(cfg, raw, no) matches Err(e) ==> error_line(e) == no,
{
}

proof fn lemma_first_bad_line(cfg: ConfigView, ls: Seq<Seq<char>>, no: nat)
    requires
        parse_lines(cfg, ls, no) is Err,
    ensures
        exists|k: int, c: ConfigView|
            0 <= k < ls.len() && parse_lines(cfg, ls.take(k), no) == Ok::<
                ConfigView,
                ConfigErrorView,
            >(c) && #[trigger] apply_setting(c, ls[k], no + k as nat) == Err::<
                ConfigView,
                ConfigErrorView,
            >(parse_lines(cfg, ls, no)->Err_0),
    decreases ls.len(),
{
    match apply_setting(cfg, ls[0], no) {
        Err(e) => {
            let k: int = 0;
            assert(ls.take(k) =~= Seq::<Seq<char>>::empty());
            assert(parse_lines(cfg, ls.take(k), no) == Ok::<ConfigView, ConfigErrorView>(cfg));
            assert(no + k as nat == no);
            assert(apply_setting(cfg, ls[k], no + k as nat) == Err::<ConfigView, ConfigErrorView>(
                parse_lines(cfg, ls, no)->Err_0,
            ));
        },
        Ok(c1) => {
            let rest = ls.drop_first();
            lemma_first_bad_line(c1, rest, no + 1);
            let (k, c) = choose|k: int, c: ConfigView|
                0 <= k < rest.len() && parse_lines(c1, rest.take(k), no + 1) == Ok::<
                    ConfigView,
                    ConfigErrorView,
                >(c) && #[trigger] apply_setting(c, rest[k], (no + 1) + k as nat) == Err::<
                    ConfigView,
                    ConfigErrorView,
                >(parse_lines(c1, rest, no + 1)->Err_0);
            let k1: int = k + 1;
            let t = ls.take(k1);
            assert(t[0] == ls[0]);
            assert(t.drop_first() =~= rest.take(k));
            assert(rest[k] == ls[k1]);
            assert(no + k1 as nat == (no + 1) + k as nat);
            assert(parse_lines(cfg, t, no) == Ok::<ConfigView, ConfigErrorView>(c));
            assert(apply_setting(c, ls[k1], no + k1 as nat) == Err::<
                ConfigView,
                ConfigErrorView,
            >(parse_lines(cfg, ls, no)->Err_0));
        },
    }
}

/// A refused config file is refused for its first bad line, and the error
/// names that line: every line before it reads without error, and the line
/// itself gives the error that is reported, numbered from 1.
pub proof fn error_names_first_bad_line(text: Seq<char>)
    requires
        parse_spec(text) is Err,
    ensures
        exists|k: int, c: ConfigView|
            0 <= k < lines(text).len() && parse_lines(default_config(), lines(text).take(k), 1)
                == Ok::<ConfigView, ConfigErrorView>(c) && #[trigger] apply_setting(
                c,
                lines(text)[k],
                (k + 1) as nat,
            ) == Err::<ConfigView, ConfigErrorView>(parse_spec(text)->Err_0) && error_line(
                parse_spec(text)->Err_0,
            ) == k + 1,
{
    lemma_first_bad_line(default_config(), lines(text), 1);
    let (k, c) = choose|k: int, c: ConfigView|
        0 <= k < lines(text).len() && parse_lines(default_config(), lines(text).take(k), 1)
            == Ok::<ConfigView, ConfigErrorView>(c) && #[trigger] apply_setting(
            c,
            lines(text)[k],
            1 + k as nat,
        ) == Err::<ConfigView, ConfigErrorView>(parse_spec(text)->Err_0);
    assert(1 + k as nat == (k + 1) as nat);
    lemma_apply_error_line(c, lines(text)[k], (k + 1) as nat);
}

/// A key's name resolves the same whatever its case and surrounding space,
/// and with or without the `KEY_` prefix: names that upper-case and trim to
/// the same text resolve alike, and a name that lacks the prefix resolves as
/// the prefixed one does.
pub proof fn key_name_forms(a: Seq<char>, b: Seq<char>)
    ensures
        uppercase(trim(a)) == uppercase(trim(b)) ==> key_lookup(a) == key_lookup(b),
        ({
            let u = uppercase(trim(a));
            !(u.len() >= 4 && u.take(4) == key_prefix()) && uppercase(trim(b)) == key_prefix() + u
        }) ==> key_lookup(a) == key_lookup(b),
{
    let u = uppercase(trim(a));
    let w = key_prefix() + u;
    if !(u.len() >= 4 && u.take(4) == key_prefix()) && uppercase(trim(b)) == w {
        assert(w.take(4) =~= key_prefix());
    }
}

proof fn lemma_first_named(target: Seq<char>, from: int, k: KeyCode)
    requires
        0 <= from <= k < 0x2ff,
        evdev_key_name(k) == target,
        forall|j: KeyCode| from <= j < k ==> evdev_key_name(j) != target,
    ensures
        first_named(target, from) == Some(k),
    decreases k - from,
{
    if from < k {
        let j = from as u16;
        assert(from <= j < k);
        lemma_first_named(target, from + 1, k);
    }
}

/// Whether `k` is the first code below the scan limit that evdev calls
/// `KEY_` followed by `x`.
pub open spec fn first_code_named(k: KeyCode, x: Seq<char>) -> bool {
    &&& k < KEY_SCAN_LIMIT
    &&& evdev_key_name(k) == key_prefix() + x
    &&& forall|j: KeyCode| j < k ==> evdev_key_name(j) != evdev_key_name(k)
}

/// Whether a name has the `KEY_` prefix.
pub open spec fn has_key_prefix(x: Seq<char>) -> bool {
    x.len() >= 4 && x.take(4) == key_prefix()
}

/// A key is found by its name: where `k` is the first code that evdev names
/// `KEY_` + `x`, a name that trims and upper-cases to `x` (when `x` does not
/// itself begin with `KEY_`) or to `KEY_` + `x` resolves to `k`.
pub proof fn key_found_by_name(k: KeyCode, x: Seq<char>, s: Seq<char>)
    ensures
        first_code_named(k, x) && ((uppercase(trim(s)) == x && !has_key_prefix(x)) || uppercase(
            trim(s),
        ) == key_prefix() + x) ==> key_lookup(s) == Some(k),
{
    if first_code_named(k, x) && ((uppercase(trim(s)) == x && !has_key_prefix(x)) || uppercase(
        trim(s),
    ) == key_prefix() + x) {
        let w = key_prefix() + x;
        assert(w.take(4) =~= key_prefix());
        assert(key_target(s) == w);
        assert forall|j: KeyCode| 0 <= j < k implies evdev_key_name(j) != w by {}
        lemma_first_named(w, 0, k);
    }
}

/// Whether a key's short name reads back as written: it is all upper case,
/// has no surrounding space, no `+`, and does not itself begin with `KEY_`.
pub open spec fn plain_key_name(x: Seq<char>) -> bool {
    &&& trim(x) == x
    &&& uppercase(x) == x
    &&& !has_char(x, '+')
    &&& !has_key_prefix(x)
}

/// Whether the key `k` is written in the config file by a name that reads
/// back as `k`.
pub open spec fn key_reads_back(k: KeyCode) -> bool {
    &&& plain_key_name(short_key_name(k))
    &&& first_code_named(k, short_key_name(k))
}

proof fn lemma_plain_name_found(k: KeyCode, w: Seq<char>)
    requires
        key_reads_back(k),
        trim(w) == short_key_name(k),
    ensures
        key_lookup(w) == Some(k),
{
    key_found_by_name(k, short_key_name(k), w);
}

/// A hotkey saved as `encode` writes it reads back as the same hotkey, for
/// keys whose evdev names are plain upper-case words such as `RIGHTALT` and
/// `DOT`, each the first code with its name.
pub proof fn saved_hotkey_reads_back(h: Hotkey)
    ensures
        key_reads_back(h.trigger) && (h.modifier matches Some(m) ==> key_reads_back(m))
            ==> hotkey_lookup(hotkey_text(h)) == Some(h),
{
    if key_reads_back(h.trigger) && (h.modifier matches Some(m) ==> key_reads_back(m)) {
        let t = short_key_name(h.trigger);
        lemma_pos_of(t, '+');
        match h.modifier {
            None => {
                lemma_plain_name_found(h.trigger, t);
            },
            Some(m) => {
                let x = short_key_name(m);
                let sep: Seq<char> = " + "@;
                let text = x + sep + t;
                assert(sep =~= seq![' ', '+', ' ']) by {
                    reveal_strlit(" + ");
                }
                assert(text == hotkey_text(h));
                lemma_pos_of(x, '+');
                assert forall|i: int| 0 <= i < x.len() + 1 implies text[i] != '+' by {
                    if i < x.len() {
                        assert(text[i] == x[i]);
                    }
                }
                let p: int = x.len() as int + 1;
                lemma_pos_of_is(text, '+', p);
                let left = text.take(p);
                let right = text.skip(p + 1);
                assert(left =~= x + seq![' ']);
                assert(right =~= seq![' '] + t);
                assert(all_ws(seq![' ']));
                lemma_trim_ws_suffix(x, seq![' ']);
                lemma_trim_start_ws_prefix(seq![' '], t);
                assert(trim(right) == trim(t));
                lemma_plain_name_found(m, left);
                lemma_plain_name_found(h.trigger, right);
            },
        }
    }
}

/// `$XDG_CONFIG_HOME/sensor/config`, falling back to `$HOME/.config`.
pub open spec fn config_path_spec(config_home: Option<Seq<char>>, home: Option<Seq<char>>) -> Option<
    Seq<char>,
> {
    let base = match config_home {
        Some(d) => if d.len() > 0 {
            Some(d)
        } else {
            match home {
                Some(h) => Some(join_path(h, ".config"@)),
                None => None,
            }
        },
        None => match home {
            Some(h) => Some(join_path(h, ".config"@)),
            None => None,
        },
    };
    match base {
        Some(b) => Some(join_path(join_path(b, crate::APP_NAME@), "config"@)),
        None => None,
    }
}

pub open spec fn opt_view(o: Option<String>) -> Option<Seq<char>> {
    match o {
        Some(s) => Some(s@),
        None => None,
    }
}

/// Where the config file lives, from the values of `XDG_CONFIG_HOME` and
/// `HOME`, if they are set. An empty `XDG_CONFIG_HOME` counts as unset.
pub fn config_path(config_home: Option<String>, home: Option<String>) -> (r: Result<
    String,
    ConfigError,
>)
    ensures
        match config_path_spec(opt_view(config_home), opt_view(home)) {
            Some(p) => r matches Ok(x) && x@ == p,
            None => r matches Err(e) && e == ConfigError::NoHome,
        },
{
    let base = match config_home {
        Some(d) if !d.as_str().is_empty() => d,
        _ => match home {
            Some(h) => path_join(h.as_str(), ".config"),
            None => {
                return Err(ConfigError::NoHome);
            },
        },
    };
    let dir = path_join(base.as_str(), crate::APP_NAME);
    Ok(path_join(dir.as_str(), "config"))
}

/// `$XDG_DATA_HOME/sensor/ggml-tiny.en.bin`, falling back to
/// `$HOME/.local/share`: where setup puts the speech model.
pub open spec fn model_path_spec(data_home: Option<Seq<char>>, home: Option<Seq<char>>) -> Option<
    Seq<char>,
> {
    let base = match data_home {
        Some(d) => if d.len() > 0 {
            Some(d)
        } else {
            match home {
                Some(h) => Some(join_path(join_path(h, ".local"@), "share"@)),
                None => None,
            }
        },
        None => match home {
            Some(h) => Some(join_path(join_path(h, ".local"@), "share"@)),
            None => None,
        },
    };
    match base {
        Some(b) => Some(join_path(join_path(b, crate::APP_NAME@), DEFAULT_MODEL@)),
        None => None,
    }
}

/// Where the speech model is kept, from the values of `XDG_DATA_HOME` and
/// `HOME`, if they are set; `None` when neither gives a place. An empty
/// `XDG_DATA_HOME` counts as unset.
pub fn default_model_path(data_home: Option<String>, home: Option<String>) -> (r: Option<String>)
    ensures
        r matches Some(x) ==> model_path_spec(opt_view(data_home), opt_view(home)) == Some(x@),
        r is None ==> model_path_spec(opt_view(data_home), opt_view(home)) is None,
{
    let base = match data_home {
        Some(d) if !d.as_str().is_empty() => d,
        _ => match home {
            Some(h) => {
                let local = path_join(h.as_str(), ".local");
                path_join(local.as_str(), "share")
            },
            None => {
                return None;
            },
        },
    };
    let dir = path_join(base.as_str(), crate::APP_NAME);
    Some(path_join(dir.as_str(), DEFAULT_MODEL))
}

} // verus!
