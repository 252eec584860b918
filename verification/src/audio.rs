//! Which microphones to offer, and the rate that speech recognition wants.
//!
//! ALSA exposes the same hardware many times over -- raw `hw:`, `plughw:`,
//! `dsnoop:` and so on are plumbing, not choices -- so any device whose name
//! holds a `:` is hidden; PipeWire or PulseAudio sits in front of them on any
//! modern desktop.

use vstd::prelude::*;

use crate::text::{chars_of, has_char, find_char, lemma_pos_of};

verus! {

/// Whisper wants 16 kHz mono.
pub const TARGET_RATE: u32 = 16_000;

/// An input the user could plausibly choose.
#[derive(Debug, Clone, PartialEq)]
pub struct InputDevice {
    /// What the audio host calls it; what gets saved to config.
    pub id: String,
    /// What to show a person.
    pub label: String,
    pub is_default: bool,
}

pub struct InputDeviceView {
    pub id: Seq<char>,
    pub label: Seq<char>,
    pub is_default: bool,
}

impl View for InputDevice {
    type V = InputDeviceView;

    open spec fn view(&self) -> InputDeviceView {
        InputDeviceView { id: self.id@, label: self.label@, is_default: self.is_default }
    }
}

/// The name to show for a device.
pub open spec fn device_label(id: Seq<char>) -> Seq<char> {
    if id == "default"@ {
        "System default"@
    } else if id == "pipewire"@ {
        "PipeWire"@
    } else if id == "pulse"@ {
        "PulseAudio"@
    } else {
        id
    }
}

/// The device names worth offering, in order: those that could be read and
/// hold no `:`.
pub open spec fn offered(names: Seq<Option<Seq<char>>>) -> Seq<Seq<char>>
    decreases names.len(),
{
    if names.len() == 0 {
        Seq::empty()
    } else {
        let rest = offered(names.drop_last());
        match names.last() {
            Some(id) => if has_char(id, ':') {
                rest
            } else {
                rest.push(id)
            },
            None => rest,
        }
    }
}

/// Why no microphone can be offered.
#[derive(Debug, Clone, Copy, PartialEq, Eq, Structural)]
pub enum AudioError {
    NoMicrophone,
}

impl AudioError {
    pub fn message(&self) -> (m: &'static str)
        ensures
            m@ == "no usable microphone found"@,
    {
        "no usable microphone found"
    }
}

pub open spec fn option_view(o: Option<String>) -> Option<Seq<char>> {
    match o {
        Some(s) => Some(s@),
        None => None,
    }
}

fn label_for(id: &String) -> (l: String)
    ensures
        l@ == device_label(id@),
{
    let v = chars_of(id.as_str());
    let n = v.len();
    if crate::text::range_is(&v, 0, n, "default") {
        assert(v@.subrange(0, n as int) =~= v@);
        String::from_str("System default")
    } else if crate::text::range_is(&v, 0, n, "pipewire") {
        assert(v@.subrange(0, n as int) =~= v@);
        String::from_str("PipeWire")
    } else if crate::text::range_is(&v, 0, n, "pulse") {
        assert(v@.subrange(0, n as int) =~= v@);
        String::from_str("PulseAudio")
    } else {
        assert(v@.subrange(0, n as int) =~= v@);
        id.clone()
    }
}

/// The input devices worth offering, with the default marked, from the
/// names the audio host lists (`None` for a device whose name could not be
/// read) and the name of its default input device.
pub fn input_devices(names: Vec<Option<String>>, default_name: Option<String>) -> (r: Result<
    Vec<InputDevice>,
    AudioError,
>)
    ensures
        ({
            let ids = offered(names@.map_values(|o: Option<String>| option_view(o)));
            match r {
                Ok(ds) => ids.len() > 0 && ds@.len() == ids.len() && forall|i: int|
                    0 <= i < ids.len() ==> {
                        &&& (#[trigger] ds@[i])@.id == ids[i]
                        &&& ds@[i]@.label == device_label(ids[i])
                        &&& ds@[i]@.is_default == (option_view(default_name) == Some(ids[i]))
                    },
                Err(e) => ids.len() == 0 && e == AudioError::NoMicrophone,
            }
        }),
{
    let ghost all = names@.map_values(|o: Option<String>| option_view(o));
    let mut out: Vec<InputDevice> = Vec::new();
    let mut i: usize = 0;
    while i < names.len()
        invariant
            i <= names@.len(),
            all == names@.map_values(|o: Option<String>| option_view(o)),
            ({
                let ids = offered(all.take(i as int));
                &&& out@.len() == ids.len()
                &&& forall|j: int|
                    0 <= j < ids.len() ==> {
                        &&& (#[trigger] out@[j])@.id == ids[j]
                        &&& out@[j]@.label == device_label(ids[j])
                        &&& out@[j]@.is_default == (option_view(default_name) == Some(ids[j]))
                    }
            }),
        decreases names.len() - i,
    {
        assert(all.take(i + 1).drop_last() =~= all.take(i as int));
        assert(all.take(i + 1).last() == option_view(names@[i as int]));
        match &names[i] {
            Some(id) => {
                let v = chars_of(id.as_str());
                let c = find_char(&v, 0, v.len(), ':');
                assert(v@.subrange(0, v@.len() as int) =~= v@);
                proof {
                    lemma_pos_of(v@, ':');
                }
                if c == v.len() {
                    let is_default = match &default_name {
                        Some(d) => *d == *id,
                        None => false,
                    };
                    let label = label_for(id);
                    out.push(InputDevice { id: id.clone(), label, is_default });
                }
            },
            None => {},
        }
        i = i + 1;
    }
    assert(all.take(names@.len() as int) =~= all);
    if out.len() == 0 {
        return Err(AudioError::NoMicrophone);
    }
    Ok(out)
}

} // verus!
