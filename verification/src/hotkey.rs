//! Deciding, from one keyboard's key events, when the push-to-talk key or
//! chord becomes held and when it is released.
//!
//! Chords are tracked per device: keys held on two different keyboards are
//! not a chord. Each device therefore gets its own `KeyWatch`.

use std::collections::HashSet;
use vstd::prelude::*;

use crate::config::{Hotkey, KeyCode};

verus! {

broadcast use vstd::std_specs::hash::group_hash_axioms;

#[derive(Debug, Clone, Copy, PartialEq, Eq, Structural)]
pub enum HotkeyEvent {
    Pressed,
    Released,
}

/// The keys held after one key event: value 0 is a release, 1 a press, and
/// anything else (2 is autorepeat) changes nothing.
pub open spec fn next_held(down: Set<KeyCode>, key: KeyCode, value: i32) -> Set<KeyCode> {
    if value == 0 {
        down.remove(key)
    } else if value == 1 {
        down.insert(key)
    } else {
        down
    }
}

/// The signal, if any, when the hotkey goes from `engaged` to being held or
/// not in `down`.
pub open spec fn signal_for(h: Hotkey, down: Set<KeyCode>, engaged: bool) -> Option<HotkeyEvent> {
    if h.held_in(down) == engaged {
        None
    } else if h.held_in(down) {
        Some(HotkeyEvent::Pressed)
    } else {
        Some(HotkeyEvent::Released)
    }
}

/// The signals that a sequence of key events gives, from the held keys
/// `down` and the engaged flag `engaged`.
pub open spec fn signals(h: Hotkey, down: Set<KeyCode>, engaged: bool, events: Seq<(KeyCode, i32)>) -> Seq<
    HotkeyEvent,
>
    decreases events.len(),
{
    if events.len() == 0 {
        Seq::empty()
    } else {
        let (key, value) = events[0];
        if value != 0 && value != 1 {
            signals(h, down, engaged, events.drop_first())
        } else {
            let d = next_held(down, key, value);
            match signal_for(h, d, engaged) {
                Some(s) => seq![s] + signals(h, d, h.held_in(d), events.drop_first()),
                None => signals(h, d, engaged, events.drop_first()),
            }
        }
    }
}

/// The keys held after a sequence of key events, from the held keys `down`.
pub open spec fn held_after(down: Set<KeyCode>, events: Seq<(KeyCode, i32)>) -> Set<KeyCode>
    decreases events.len(),
{
    if events.len() == 0 {
        down
    } else {
        held_after(next_held(down, events[0].0, events[0].1), events.drop_first())
    }
}

/// What one keyboard has held, and whether the hotkey was last reported held.
pub struct KeyWatch {
    hotkey: Hotkey,
    down: HashSet<KeyCode>,
    engaged: bool,
}

impl KeyWatch {
    pub closed spec fn hotkey(&self) -> Hotkey {
        self.hotkey
    }

    /// The keys currently held on this device.
    pub closed spec fn held(&self) -> Set<KeyCode> {
        self.down@
    }

    /// Whether the hotkey was last reported as held.
    pub closed spec fn engaged(&self) -> bool {
        self.engaged
    }

    /// The engaged flag always says whether the hotkey is held.
    pub open spec fn wf(&self) -> bool {
        self.engaged() == self.hotkey().held_in(self.held())
    }

    /// A watch over a device on which nothing is held yet.
    pub fn new(hotkey: Hotkey) -> (w: KeyWatch)
        ensures
            w.hotkey() == hotkey,
            w.held() == Set::<KeyCode>::empty(),
            !w.engaged(),
            w.wf(),
    {
        KeyWatch { hotkey, down: HashSet::new(), engaged: false }
    }

    /// Takes one key event (`value` 0 release, 1 press, 2 autorepeat) and
    /// returns the signal to send, if the hotkey became held or released.
    /// Holding the key must not re-trigger, so autorepeat is ignored.
    pub fn on_key(&mut self, key: KeyCode, value: i32) -> (signal: Option<HotkeyEvent>)
        requires
            old(self).wf(),
        ensures
            final(self).wf(),
            final(self).hotkey() == old(self).hotkey(),
            final(self).held() == next_held(old(self).held(), key, value),
            value != 0 && value != 1 ==> signal == None::<HotkeyEvent> && final(self).engaged()
                == old(self).engaged(),
            value == 0 || value == 1 ==> signal == signal_for(
                old(self).hotkey(),
                final(self).held(),
                old(self).engaged(),
            ),
    {
        if value == 0 {
            self.down.remove(&key);
        } else if value == 1 {
            self.down.insert(key);
        } else {
            return None;
        }
        let held = self.hotkey.is_held(&self.down);
        if held == self.engaged {
            return None;
        }
        self.engaged = held;
        if held {
            Some(HotkeyEvent::Pressed)
        } else {
            Some(HotkeyEvent::Released)
        }
    }

    /// Takes a batch of key events, in order, and returns the signals to
    /// send: exactly those that `signals` gives for the batch from this
    /// watch's held keys and engaged flag.
    pub fn on_keys(&mut self, events: &Vec<(KeyCode, i32)>) -> (out: Vec<HotkeyEvent>)
        requires
            old(self).wf(),
        ensures
            final(self).wf(),
            final(self).hotkey() == old(self).hotkey(),
            final(self).held() == held_after(old(self).held(), events@),
            out@ == signals(old(self).hotkey(), old(self).held(), old(self).engaged(), events@),
    {
        let ghost h = self.hotkey();
        let ghost d0 = self.held();
        let ghost e0 = self.engaged();
        let mut out: Vec<HotkeyEvent> = Vec::new();
        let mut i: usize = 0;
        assert(events@.skip(0) =~= events@);
        while i < events.len()
            invariant
                i <= events@.len(),
                self.wf(),
                self.hotkey() == h,
                held_after(d0, events@) == held_after(self.held(), events@.skip(i as int)),
                signals(h, d0, e0, events@) == out@ + signals(
                    h,
                    self.held(),
                    self.engaged(),
                    events@.skip(i as int),
                ),
            decreases events.len() - i,
        {
            let ghost rest = events@.skip(i as int);
            assert(rest[0] == events@[i as int]);
            assert(rest.drop_first() =~= events@.skip(i + 1));
            let (key, value) = events[i];
            let ghost before = out@;
            match self.on_key(key, value) {
                Some(sig) => {
                    out.push(sig);
                    assert(out@ =~= before + seq![sig]);
                },
                None => {},
            }
            i = i + 1;
        }
        assert(events@.skip(i as int) =~= Seq::<(KeyCode, i32)>::empty());
        assert(out@ + Seq::<HotkeyEvent>::empty() =~= out@);
        out
    }
}

/// The signals from one device alternate: starting from a state where the
/// engaged flag tracks the held keys, the first signal is `Pressed` exactly
/// when the hotkey was not engaged, and each signal is the opposite of the
/// one before. From a fresh watch, they read Pressed, Released, Pressed, ...
pub proof fn signals_alternate(
    h: Hotkey,
    down: Set<KeyCode>,
    engaged: bool,
    events: Seq<(KeyCode, i32)>,
)
    requires
        engaged == h.held_in(down),
    ensures
        forall|i: int|
            0 <= i < signals(h, down, engaged, events).len() ==> (#[trigger] signals(
                h,
                down,
                engaged,
                events,
            )[i] == HotkeyEvent::Pressed <==> (i % 2 == 0) == !engaged),
    decreases events.len(),
{
    if events.len() > 0 {
        let (key, value) = events[0];
        let rest = events.drop_first();
        if value != 0 && value != 1 {
            signals_alternate(h, down, engaged, rest);
        } else {
            let d = next_held(down, key, value);
            match signal_for(h, d, engaged) {
                Some(s) => {
                    signals_alternate(h, d, h.held_in(d), rest);
                    let out = signals(h, down, engaged, events);
                    let tail = signals(h, d, h.held_in(d), rest);
                    assert(out == seq![s] + tail);
                    assert forall|i: int| 0 <= i < out.len() implies (#[trigger] out[i]
                        == HotkeyEvent::Pressed <==> (i % 2 == 0) == !engaged) by {
                        if i > 0 {
                            assert(out[i] == tail[i - 1]);
                        }
                    }
                },
                None => {
                    signals_alternate(h, d, engaged, rest);
                },
            }
        }
    }
}


/// Only the configured hotkey is acted on: a key event for any other key
/// (typing while the hotkey is held, say) gives no signal.
pub proof fn other_keys_ignored(
    h: Hotkey,
    down: Set<KeyCode>,
    engaged: bool,
    key: KeyCode,
    value: i32,
)
    requires
        engaged == h.held_in(down),
        key != h.trigger,
        h.modifier != Some(key),
    ensures
        signal_for(h, next_held(down, key, value), engaged) == None::<HotkeyEvent>,
{
    let d = next_held(down, key, value);
    assert(d.contains(h.trigger) == down.contains(h.trigger));
    if let Some(m) = h.modifier {
        assert(d.contains(m) == down.contains(m));
    }
}

/// Whether the hotkey is held after each key event that presses or releases
/// a key, from the held keys `down`; autorepeat changes nothing and is
/// skipped.
pub open spec fn held_trace(h: Hotkey, down: Set<KeyCode>, events: Seq<(KeyCode, i32)>) -> Seq<bool>
    decreases events.len(),
{
    if events.len() == 0 {
        Seq::empty()
    } else {
        let (key, value) = events[0];
        if value != 0 && value != 1 {
            held_trace(h, down, events.drop_first())
        } else {
            let d = next_held(down, key, value);
            seq![h.held_in(d)] + held_trace(h, d, events.drop_first())
        }
    }
}

/// The signals that a sequence of held states gives from the engaged flag:
/// one at each change, `Pressed` when the hotkey becomes held and `Released`
/// when it stops being held.
pub open spec fn trace_signals(engaged: bool, trace: Seq<bool>) -> Seq<HotkeyEvent>
    decreases trace.len(),
{
    if trace.len() == 0 {
        Seq::empty()
    } else if trace[0] == engaged {
        trace_signals(engaged, trace.drop_first())
    } else {
        seq![
            if trace[0] {
                HotkeyEvent::Pressed
            } else {
                HotkeyEvent::Released
            },
        ] + trace_signals(trace[0], trace.drop_first())
    }
}

proof fn lemma_signals_by_trace(
    h: Hotkey,
    down: Set<KeyCode>,
    engaged: bool,
    events: Seq<(KeyCode, i32)>,
)
    ensures
        signals(h, down, engaged, events) == trace_signals(engaged, held_trace(h, down, events)),
    decreases events.len(),
{
    if events.len() > 0 {
        let (key, value) = events[0];
        let rest = events.drop_first();
        if value != 0 && value != 1 {
            lemma_signals_by_trace(h, down, engaged, rest);
        } else {
            let d = next_held(down, key, value);
            let t = held_trace(h, d, rest);
            let trace = seq![h.held_in(d)] + t;
            assert(trace[0] == h.held_in(d));
            assert(trace.drop_first() =~= t);
            lemma_signals_by_trace(h, d, engaged, rest);
            lemma_signals_by_trace(h, d, h.held_in(d), rest);
        }
    }
}

/// What a device sends depends only on whether the hotkey is held after
/// each key event: two event streams that hold and release the hotkey at the
/// same steps give the same signals, whatever other keys they carry, one at
/// each change of the held state. `KeyWatch::on_keys` sends exactly
/// `signals` for each batch, so this holds of a device's watch too.
pub proof fn same_held_same_signals(
    h: Hotkey,
    down1: Set<KeyCode>,
    events1: Seq<(KeyCode, i32)>,
    down2: Set<KeyCode>,
    events2: Seq<(KeyCode, i32)>,
    engaged: bool,
)
    ensures
        signals(h, down1, engaged, events1) == trace_signals(
            engaged,
            held_trace(h, down1, events1),
        ),
        held_trace(h, down1, events1) == held_trace(h, down2, events2) ==> signals(
            h,
            down1,
            engaged,
            events1,
        ) == signals(h, down2, engaged, events2),
{
    lemma_signals_by_trace(h, down1, engaged, events1);
    lemma_signals_by_trace(h, down2, engaged, events2);
}

/// The key codes that count as modifiers: both Shifts, Ctrls, Alts and Metas.
pub open spec fn is_modifier_key(k: KeyCode) -> bool {
    ||| k == 42
    ||| k == 54
    ||| k == 29
    ||| k == 97
    ||| k == 56
    ||| k == 100
    ||| k == 125
    ||| k == 126
}

/// Whether `k` is a modifier key.
pub fn is_modifier(k: KeyCode) -> (r: bool)
    ensures
        r == is_modifier_key(k),
{
    k == 42 || k == 54 || k == 29 || k == 97 || k == 56 || k == 100 || k == 125 || k == 126
}

/// The first key in `s` that is (or, with `modifier` false, is not) a modifier.
pub open spec fn first_key(s: Seq<KeyCode>, modifier: bool) -> Option<KeyCode>
    decreases s.len(),
{
    if s.len() == 0 {
        None
    } else if is_modifier_key(s[0]) == modifier {
        Some(s[0])
    } else {
        first_key(s.drop_first(), modifier)
    }
}

/// Whether `k` is one of the two Shift keys.
pub open spec fn is_shift_key(k: KeyCode) -> bool {
    k == 42 || k == 54
}

/// Whether `k` can be a chord's modifier: a modifier other than Shift, which
/// is held to reach a key rather than as part of a hotkey.
pub open spec fn is_chord_modifier(k: KeyCode) -> bool {
    is_modifier_key(k) && !is_shift_key(k)
}

/// The first key in `s` that can be a chord's modifier.
pub open spec fn first_chord_modifier(s: Seq<KeyCode>) -> Option<KeyCode>
    decreases s.len(),
{
    if s.len() == 0 {
        None
    } else if is_chord_modifier(s[0]) {
        Some(s[0])
    } else {
        first_chord_modifier(s.drop_first())
    }
}

/// The hotkey that a burst of presses asks for: the first key that is no
/// modifier (or the first key, if all were modifiers), chorded with the
/// first modifier other than Shift that was pressed, if that is another key.
pub open spec fn chosen_hotkey(seen: Seq<KeyCode>) -> Hotkey {
    let key = match first_key(seen, false) {
        Some(k) => k,
        None => seen[0],
    };
    match first_chord_modifier(seen) {
        Some(m) => if m != key {
            Hotkey { trigger: key, modifier: Some(m) }
        } else {
            Hotkey { trigger: key, modifier: None }
        },
        None => Hotkey { trigger: key, modifier: None },
    }
}

fn find_first(seen: &Vec<KeyCode>, modifier: bool) -> (r: Option<KeyCode>)
    ensures
        r == first_key(seen@, modifier),
{
    let mut i: usize = 0;
    assert(seen@.skip(0) =~= seen@);
    while i < seen.len()
        invariant
            i <= seen@.len(),
            first_key(seen@, modifier) == first_key(seen@.skip(i as int), modifier),
        decreases seen.len() - i,
    {
        assert(seen@.skip(i as int).drop_first() =~= seen@.skip(i + 1));
        if is_modifier(seen[i]) == modifier {
            return Some(seen[i]);
        }
        i = i + 1;
    }
    assert(seen@.skip(i as int) =~= Seq::<KeyCode>::empty());
    None
}

fn find_chord_modifier(seen: &Vec<KeyCode>) -> (r: Option<KeyCode>)
    ensures
        r == first_chord_modifier(seen@),
{
    let mut i: usize = 0;
    assert(seen@.skip(0) =~= seen@);
    while i < seen.len()
        invariant
            i <= seen@.len(),
            first_chord_modifier(seen@) == first_chord_modifier(seen@.skip(i as int)),
        decreases seen.len() - i,
    {
        assert(seen@.skip(i as int).drop_first() =~= seen@.skip(i + 1));
        let k = seen[i];
        if is_modifier(k) && k != 42 && k != 54 {
            return Some(k);
        }
        i = i + 1;
    }
    assert(seen@.skip(i as int) =~= Seq::<KeyCode>::empty());
    None
}

/// Picks the hotkey from the keys pressed in a short burst, in order.
/// Modifiers arrive before the key they modify, so a non-modifier is
/// preferred as the key, and the first modifier other than Shift becomes the
/// chord's modifier: holding Right Alt and pressing `.` binds Right Alt +
/// `.`. Holding Shift to reach a key does not bind Shift, so Shift then `/`
/// binds `/` alone. A modifier pressed alone is bound alone.
pub fn choose_hotkey(seen: &Vec<KeyCode>) -> (h: Hotkey)
    requires
        seen@.len() > 0,
    ensures
        h == chosen_hotkey(seen@),
{
    let key = match find_first(seen, false) {
        Some(k) => k,
        None => seen[0],
    };
    match find_chord_modifier(seen) {
        Some(m) => if m != key {
            Hotkey::chord(m, key)
        } else {
            Hotkey::single(key)
        },
        None => Hotkey::single(key),
    }
}

/// A modifier held, then a key pressed: the modifier keys are exactly the two
/// Shifts, Ctrls, Alts and Metas (codes 42, 54, 29, 97, 56, 100, 125, 126).
/// Ctrl, Alt or Meta followed by any other key binds the pair; Shift
/// followed by any other key binds that key alone; and any key that is no
/// modifier, pressed alone, binds itself.
pub proof fn modifier_then_key(m: KeyCode, k: KeyCode)
    ensures
        (m == 29 || m == 97 || m == 56 || m == 100 || m == 125 || m == 126) && !(k == 42 || k
            == 54 || k == 29 || k == 97 || k == 56 || k == 100 || k == 125 || k == 126)
            ==> chosen_hotkey(seq![m, k]) == (Hotkey { trigger: k, modifier: Some(m) }),
        (m == 42 || m == 54) && !(k == 42 || k == 54 || k == 29 || k == 97 || k == 56 || k == 100
            || k == 125 || k == 126) ==> chosen_hotkey(seq![m, k]) == (Hotkey {
            trigger: k,
            modifier: None,
        }),
        !(k == 42 || k == 54 || k == 29 || k == 97 || k == 56 || k == 100 || k == 125 || k == 126)
            ==> chosen_hotkey(seq![k]) == (Hotkey { trigger: k, modifier: None }),
{
    let s = seq![m, k];
    assert(s[0] == m);
    assert(s[1] == k);
    assert(s.drop_first() =~= seq![k]);
    assert(seq![k].drop_first() =~= Seq::<KeyCode>::empty());
    assert(first_chord_modifier(Seq::<KeyCode>::empty()) == None::<KeyCode>);
    if !(k == 42 || k == 54 || k == 29 || k == 97 || k == 56 || k == 100 || k == 125 || k == 126) {
        assert(first_key(seq![k], false) == Some(k));
        assert(first_chord_modifier(seq![k]) == None::<KeyCode>);
    }
}

/// Holding Shift to reach a key never binds Shift as a chord's modifier.
pub proof fn shift_is_never_a_chord_modifier(seen: Seq<KeyCode>)
    requires
        seen.len() > 0,
    ensures
        chosen_hotkey(seen).modifier matches Some(m) ==> !is_shift_key(m) && is_modifier_key(m),
{
    lemma_first_chord_modifier(seen);
}

proof fn lemma_first_chord_modifier(s: Seq<KeyCode>)
    ensures
        first_chord_modifier(s) matches Some(m) ==> is_chord_modifier(m),
    decreases s.len(),
{
    if s.len() > 0 && !is_chord_modifier(s[0]) {
        lemma_first_chord_modifier(s.drop_first());
    }
}

} // verus!
