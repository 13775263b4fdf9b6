//! MIDI events and the decoder that builds them from wire bytes.

use vstd::prelude::*;
use crate::text::{decimal, push_digits};

verus! {

/// Offset that centers the 14-bit pitch wheel value around zero.
pub const MIN_PITCHWHEEL: i16 = -8192;

/// A decoded MIDI message. Channel numbers are 1-based, as in the standard.
#[derive(Debug, Clone, Copy, PartialEq, Eq, Structural)]
#[allow(inconsistent_fields)]
pub enum MidiEvent {
    /// A note is released.
    NoteOff { channel: u8, note: u8, velocity: u8 },
    /// A note is played.
    NoteOn { channel: u8, note: u8, velocity: u8 },
    /// Pressure applied to a single key.
    PolyphonicAftertouch { channel: u8, note: u8, pressure: u8 },
    /// A control parameter changes.
    ControlChange { channel: u8, control_no: u8, value: u8 },
    /// Another instrument sound is selected.
    ProgramChange { channel: u8, program: u8 },
    /// Pressure applied to the whole channel.
    ChannelAftertouch { channel: u8, pressure: u8 },
    /// The pitch wheel moved; `value` lies in `[-8192, 8191]` for 7-bit data bytes.
    PitchBendChange { channel: u8, value: i16 },
    SystemExclusive {},
    MidiTimeCodeQtrFrame {},
    SongPositionPointer {},
    SongSelect { song_num: u8 },
    TuneRequest {},
    EndOfSysEx {},
    TimingClock {},
    Start {},
    Continue {},
    Stop {},
    ActiveSensing {},
    SystemReset {},
    Undefined {},
}

/// Why a raw message could not be decoded.
#[derive(Debug, Clone, Copy, PartialEq, Eq, Structural)]
pub enum DecodeError {
    /// The high nibble of the status byte names no message family.
    UnknownEventKind(u8),
}

impl DecodeError {
    /// The text of this error.
    pub open spec fn spec_message(&self) -> Seq<char> {
        match *self {
            DecodeError::UnknownEventKind(family) => "Unknown MIDI event ID: "@ + decimal(
                family as int,
            ),
        }
    }

    /// Returns the text of this error.
    pub fn message(&self) -> (text: String)
        ensures
            text@ == self.spec_message(),
    {
        match *self {
            DecodeError::UnknownEventKind(family) => {
                let mut text = "Unknown MIDI event ID: ".to_owned();
                push_digits(&mut text, family as u128);
                text
            },
        }
    }
}

/// Number of bytes the decoder reads from a message that starts with `status`.
pub open spec fn message_len(status: u8) -> nat {
    let family = status / 16;
    if family == 0x8 || family == 0x9 || family == 0xa || family == 0xb || family == 0xe {
        3
    } else if family == 0xc || family == 0xd || status == 0xf3 {
        2
    } else {
        1
    }
}

/// The system message selected by the low nibble of a `0xF_` status byte.
pub open spec fn system_event(selector: u8, data: u8) -> MidiEvent {
    if selector == 0x0 {
        MidiEvent::SystemExclusive {  }
    } else if selector == 0x1 {
        MidiEvent::MidiTimeCodeQtrFrame {  }
    } else if selector == 0x2 {
        MidiEvent::SongPositionPointer {  }
    } else if selector == 0x3 {
        MidiEvent::SongSelect { song_num: data }
    } else if selector == 0x6 {
        MidiEvent::TuneRequest {  }
    } else if selector == 0x7 {
        MidiEvent::EndOfSysEx {  }
    } else if selector == 0x8 {
        MidiEvent::TimingClock {  }
    } else if selector == 0xa {
        MidiEvent::Start {  }
    } else if selector == 0xb {
        MidiEvent::Continue {  }
    } else if selector == 0xc {
        MidiEvent::Stop {  }
    } else if selector == 0xe {
        MidiEvent::ActiveSensing {  }
    } else if selector == 0xf {
        MidiEvent::SystemReset {  }
    } else {
        MidiEvent::Undefined {  }
    }
}

/// The centered pitch wheel value carried by two data bytes, least significant first.
pub open spec fn pitch_bend_value(lsb: u8, msb: u8) -> int {
    msb * 128 + lsb - 8192
}

/// What a raw message means. `bytes` holds at least `message_len(bytes[0])` bytes.
pub open spec fn decoded(bytes: Seq<u8>) -> Result<MidiEvent, DecodeError> {
    let family = bytes[0] / 16;
    let low = bytes[0] % 16;
    let channel = (low + 1) as u8;
    if family == 0x8 {
        Ok(MidiEvent::NoteOff { channel, note: bytes[1], velocity: bytes[2] })
    } else if family == 0x9 {
        Ok(MidiEvent::NoteOn { channel, note: bytes[1], velocity: bytes[2] })
    } else if family == 0xa {
        Ok(MidiEvent::PolyphonicAftertouch { channel, note: bytes[1], pressure: bytes[2] })
    } else if family == 0xb {
        Ok(MidiEvent::ControlChange { channel, control_no: bytes[1], value: bytes[2] })
    } else if family == 0xc {
        Ok(MidiEvent::ProgramChange { channel, program: bytes[1] })
    } else if family == 0xd {
        Ok(MidiEvent::ChannelAftertouch { channel, pressure: bytes[1] })
    } else if family == 0xe {
        Ok(
            MidiEvent::PitchBendChange {
                channel,
                value: pitch_bend_value(bytes[1], bytes[2]) as i16,
            },
        )
    } else if family == 0xf {
        Ok(system_event(low, if low == 0x3 { bytes[1] } else { 0 }))
    } else {
        Err(DecodeError::UnknownEventKind(family))
    }
}

impl MidiEvent {
    /// The canonical kind name, against which rules match their name pattern.
    pub open spec fn spec_kind_name(&self) -> Seq<char> {
        match self {
            MidiEvent::NoteOff { .. } => "note-off"@,
            MidiEvent::NoteOn { .. } => "note-on"@,
            MidiEvent::PolyphonicAftertouch { .. } => "polyphonic-aftertouch"@,
            MidiEvent::ControlChange { .. } => "control-change"@,
            MidiEvent::ProgramChange { .. } => "program-change"@,
            MidiEvent::ChannelAftertouch { .. } => "channel-aftertouch"@,
            MidiEvent::PitchBendChange { .. } => "pitch-bend-change"@,
            MidiEvent::SystemExclusive { .. } => "system-exclusive"@,
            MidiEvent::MidiTimeCodeQtrFrame { .. } => "midi-time-code-qtr-frame"@,
            MidiEvent::SongPositionPointer { .. } => "song-position-pointer"@,
            MidiEvent::SongSelect { .. } => "song-select"@,
            MidiEvent::TuneRequest { .. } => "tone-request"@,
            MidiEvent::EndOfSysEx { .. } => "end-of-sys-ex"@,
            MidiEvent::TimingClock { .. } => "timing-clock"@,
            MidiEvent::Start { .. } => "start"@,
            MidiEvent::Continue { .. } => "continue"@,
            MidiEvent::Stop { .. } => "stop"@,
            MidiEvent::ActiveSensing { .. } => "active-sensing"@,
            MidiEvent::SystemReset { .. } => "system-reset"@,
            MidiEvent::Undefined { .. } => "undefined"@,
        }
    }

    /// Returns the canonical kind name of this event.
    pub fn kind_name(&self) -> (name: &'static str)
        ensures
            name@ == self.spec_kind_name(),
    {
        match self {
            MidiEvent::NoteOff { .. } => "note-off",
            MidiEvent::NoteOn { .. } => "note-on",
            MidiEvent::PolyphonicAftertouch { .. } => "polyphonic-aftertouch",
            MidiEvent::ControlChange { .. } => "control-change",
            MidiEvent::ProgramChange { .. } => "program-change",
            MidiEvent::ChannelAftertouch { .. } => "channel-aftertouch",
            MidiEvent::PitchBendChange { .. } => "pitch-bend-change",
            MidiEvent::SystemExclusive { .. } => "system-exclusive",
            MidiEvent::MidiTimeCodeQtrFrame { .. } => "midi-time-code-qtr-frame",
            MidiEvent::SongPositionPointer { .. } => "song-position-pointer",
            MidiEvent::SongSelect { .. } => "song-select",
            MidiEvent::TuneRequest { .. } => "tone-request",
            MidiEvent::EndOfSysEx { .. } => "end-of-sys-ex",
            MidiEvent::TimingClock { .. } => "timing-clock",
            MidiEvent::Start { .. } => "start",
            MidiEvent::Continue { .. } => "continue",
            MidiEvent::Stop { .. } => "stop",
            MidiEvent::ActiveSensing { .. } => "active-sensing",
            MidiEvent::SystemReset { .. } => "system-reset",
            MidiEvent::Undefined { .. } => "undefined",
        }
    }
}

impl MidiEvent {
    /// The channel of a channel-voice message.
    pub open spec fn channel_field(&self) -> Option<int> {
        match *self {
            MidiEvent::NoteOff { channel, .. } => Some(channel as int),
            MidiEvent::NoteOn { channel, .. } => Some(channel as int),
            MidiEvent::PolyphonicAftertouch { channel, .. } => Some(channel as int),
            MidiEvent::ControlChange { channel, .. } => Some(channel as int),
            MidiEvent::ProgramChange { channel, .. } => Some(channel as int),
            MidiEvent::ChannelAftertouch { channel, .. } => Some(channel as int),
            MidiEvent::PitchBendChange { channel, .. } => Some(channel as int),
            _ => None,
        }
    }

    /// The field that a value predicate is checked against.
    pub open spec fn value_field(&self) -> Option<int> {
        match *self {
            MidiEvent::NoteOff { note, .. } => Some(note as int),
            MidiEvent::NoteOn { note, .. } => Some(note as int),
            MidiEvent::PolyphonicAftertouch { note, .. } => Some(note as int),
            MidiEvent::ControlChange { value, .. } => Some(value as int),
            MidiEvent::ProgramChange { program, .. } => Some(program as int),
            MidiEvent::ChannelAftertouch { pressure, .. } => Some(pressure as int),
            MidiEvent::PitchBendChange { value, .. } => Some(value as int),
            MidiEvent::SongSelect { song_num } => Some(song_num as int),
            _ => None,
        }
    }

    /// The field that a velocity predicate is checked against.
    pub open spec fn velocity_field(&self) -> Option<int> {
        match *self {
            MidiEvent::NoteOff { velocity, .. } => Some(velocity as int),
            MidiEvent::NoteOn { velocity, .. } => Some(velocity as int),
            MidiEvent::PolyphonicAftertouch { pressure, .. } => Some(pressure as int),
            _ => None,
        }
    }

    /// The field that a controller-number predicate is checked against.
    pub open spec fn controller_field(&self) -> Option<int> {
        match *self {
            MidiEvent::ControlChange { control_no, .. } => Some(control_no as int),
            _ => None,
        }
    }
}

/// Decodes one system message from the low nibble of its status byte.
fn decode_system(selector: u8, data: u8) -> (event: MidiEvent)
    ensures
        event == system_event(selector, data),
{
    match selector {
        0x0 => MidiEvent::SystemExclusive {  },
        0x1 => MidiEvent::MidiTimeCodeQtrFrame {  },
        0x2 => MidiEvent::SongPositionPointer {  },
        0x3 => MidiEvent::SongSelect { song_num: data },
        0x6 => MidiEvent::TuneRequest {  },
        0x7 => MidiEvent::EndOfSysEx {  },
        0x8 => MidiEvent::TimingClock {  },
        0xa => MidiEvent::Start {  },
        0xb => MidiEvent::Continue {  },
        0xc => MidiEvent::Stop {  },
        0xe => MidiEvent::ActiveSensing {  },
        0xf => MidiEvent::SystemReset {  },
        _ => MidiEvent::Undefined {  },
    }
}

/// Tests whether `bytes` holds every byte that the decoder reads from it.
pub fn is_complete_message(bytes: &[u8]) -> (complete: bool)
    ensures
        complete == (bytes@.len() >= 1 && bytes@.len() >= message_len(bytes@[0])),
{
    if bytes.len() == 0 {
        return false;
    }
    let status: u8 = bytes[0];
    let family: u8 = status / 16;
    let needed: usize = if family == 0x8 || family == 0x9 || family == 0xa || family == 0xb
        || family == 0xe {
        3
    } else if family == 0xc || family == 0xd || status == 0xf3 {
        2
    } else {
        1
    };
    bytes.len() >= needed
}

/// Decodes a raw MIDI message.
///
/// The high nibble of the first byte selects the message family. A family
/// below `0x8` is not a status byte and yields `UnknownEventKind`. The caller
/// hands over at least the bytes that the family reads.
pub fn decode_raw_midi(bytes: &[u8]) -> (result: Result<MidiEvent, DecodeError>)
    requires
        bytes@.len() >= 1,
        bytes@.len() >= message_len(bytes@[0]),
    ensures
        result == decoded(bytes@),
        result is Err <==> bytes@[0] < 0x80,
{
    let status: u8 = bytes[0];
    let event_type: u8 = status >> 4;
    let low: u8 = status & 0x0f;
    assert(event_type == status / 16 && low == status % 16) by (bit_vector)
        requires
            event_type == status >> 4,
            low == status & 0x0f,
    ;
    let channel: u8 = low + 1;
    let event = match event_type {
        0x8 => MidiEvent::NoteOff { channel, note: bytes[1], velocity: bytes[2] },
        0x9 => MidiEvent::NoteOn { channel, note: bytes[1], velocity: bytes[2] },
        0xa => MidiEvent::PolyphonicAftertouch { channel, note: bytes[1], pressure: bytes[2] },
        0xb => MidiEvent::ControlChange { channel, control_no: bytes[1], value: bytes[2] },
        0xc => MidiEvent::ProgramChange { channel, program: bytes[1] },
        0xd => MidiEvent::ChannelAftertouch { channel, pressure: bytes[1] },
        0xe => {
            let msb: i32 = bytes[2] as i32;
            let lsb: i32 = bytes[1] as i32;
            let wide: i32 = msb * 128 + lsb + (MIN_PITCHWHEEL as i32);
            MidiEvent::PitchBendChange { channel, value: wide as i16 }
        },
        0xf => {
            let data: u8 = if low == 0x3 {
                bytes[1]
            } else {
                0
            };
            decode_system(low, data)
        },
        _ => {
            return Err(DecodeError::UnknownEventKind(event_type));
        },
    };
    Ok(event)
}

/// A decoded pitch wheel value of 7-bit data bytes lies in `[-8192, 8191]`.
pub proof fn lemma_pitch_bend_is_centered(lsb: u8, msb: u8)
    requires
        lsb < 128,
        msb < 128,
    ensures
        -8192 <= pitch_bend_value(lsb, msb) <= 8191,
{
}

/// A decoded channel is counted from one: it lies in `[1, 16]`.
pub proof fn lemma_decoded_channel_is_one_based(bytes: Seq<u8>)
    requires
        bytes.len() >= 1,
        decoded(bytes) is Ok,
    ensures
        decoded(bytes)->Ok_0.channel_field() matches Some(channel) ==> 1 <= channel <= 16,
        decoded(bytes)->Ok_0.channel_field() is Some <==> 0x80 <= bytes[0] < 0xf0,
{
    let low = bytes[0] % 16;
    assert(0 <= low < 16);
}

} // verus!
