use midi_router::midi::{decode_raw_midi, is_complete_message, DecodeError, MidiEvent};

#[test]
fn test_decode_raw_midi_note_off() {
    let bytes = vec![133, 123, 25];

    let result = decode_raw_midi(&bytes);

    let expected = MidiEvent::NoteOff {
        channel: 6,
        note: 123,
        velocity: 25,
    };
    assert!(result.is_ok());
    assert_eq!(expected, result.unwrap());
}

#[test]
fn test_decode_raw_midi_note_on() {
    let bytes = vec![144, 0, 0];

    let result = decode_raw_midi(&bytes);

    let expected = MidiEvent::NoteOn {
        channel: 1,
        note: 0,
        velocity: 0,
    };
    assert!(result.is_ok());
    assert_eq!(expected, result.unwrap());
}

#[test]
fn test_decode_raw_midi_polyphonic_aftertouch() {
    let bytes = vec![175, 127, 127];

    let result = decode_raw_midi(&bytes);

    let expected = MidiEvent::PolyphonicAftertouch {
        channel: 16,
        note: 127,
        pressure: 127,
    };
    assert!(result.is_ok());
    assert_eq!(expected, result.unwrap());
}

#[test]
fn test_decode_raw_midi_control_change() {
    let bytes = vec![190, 5, 5];

    let result = decode_raw_midi(&bytes);

    let expected = MidiEvent::ControlChange {
        channel: 15,
        control_no: 5,
        value: 5,
    };
    assert!(result.is_ok());
    assert_eq!(expected, result.unwrap());
}

#[test]
fn test_decode_raw_midi_pitch_bend_change_positive() {
    let bytes = vec![230, 66, 123];

    let result = decode_raw_midi(&bytes);

    let expected = MidiEvent::PitchBendChange {
        channel: 7,
        value: 7618,
    };
    assert!(result.is_ok());
    assert_eq!(expected, result.unwrap());
}

#[test]
fn test_decode_raw_midi_pitch_bend_change_negative() {
    let bytes = vec![230, 66, 28];

    let result = decode_raw_midi(&bytes);

    let expected = MidiEvent::PitchBendChange {
        channel: 7,
        value: -4542,
    };
    assert!(result.is_ok());
    assert_eq!(expected, result.unwrap());
}

#[test]
fn test_decode_raw_midi_pitch_bend_change_max() {
    let bytes = vec![230, 127, 127];

    let result = decode_raw_midi(&bytes);

    let expected = MidiEvent::PitchBendChange {
        channel: 7,
        value: 8191,
    };
    assert!(result.is_ok());
    assert_eq!(expected, result.unwrap());
}

#[test]
fn test_decode_raw_midi_pitch_bend_change_min() {
    let bytes = vec![230, 0, 0];

    let result = decode_raw_midi(&bytes);

    let expected = MidiEvent::PitchBendChange {
        channel: 7,
        value: -8192,
    };
    assert!(result.is_ok());
    assert_eq!(expected, result.unwrap());
}

#[test]
fn test_decode_raw_midi_pitch_bend_change_zero() {
    let bytes = vec![230, 0, 64];

    let result = decode_raw_midi(&bytes);

    let expected = MidiEvent::PitchBendChange {
        channel: 7,
        value: 0,
    };
    assert!(result.is_ok());
    assert_eq!(expected, result.unwrap());
}

#[test]
fn test_decode_program_change_and_channel_aftertouch_read_two_bytes() {
    assert_eq!(
        decode_raw_midi(&[0xC2, 17]),
        Ok(MidiEvent::ProgramChange { channel: 3, program: 17 })
    );
    assert_eq!(
        decode_raw_midi(&[0xDF, 99]),
        Ok(MidiEvent::ChannelAftertouch { channel: 16, pressure: 99 })
    );
}

#[test]
fn test_decode_unknown_event_kind() {
    assert_eq!(decode_raw_midi(&[0x00]), Err(DecodeError::UnknownEventKind(0)));
    assert_eq!(decode_raw_midi(&[0x7F, 1, 2]), Err(DecodeError::UnknownEventKind(7)));
    assert_eq!(decode_raw_midi(&[0x45]), Err(DecodeError::UnknownEventKind(4)));
}

#[test]
fn test_decode_system_messages() {
    assert_eq!(decode_raw_midi(&[0xF0]), Ok(MidiEvent::SystemExclusive {}));
    assert_eq!(decode_raw_midi(&[0xF1]), Ok(MidiEvent::MidiTimeCodeQtrFrame {}));
    assert_eq!(decode_raw_midi(&[0xF2]), Ok(MidiEvent::SongPositionPointer {}));
    assert_eq!(decode_raw_midi(&[0xF3, 9]), Ok(MidiEvent::SongSelect { song_num: 9 }));
    assert_eq!(decode_raw_midi(&[0xF4]), Ok(MidiEvent::Undefined {}));
    assert_eq!(decode_raw_midi(&[0xF5]), Ok(MidiEvent::Undefined {}));
    assert_eq!(decode_raw_midi(&[0xF6]), Ok(MidiEvent::TuneRequest {}));
    assert_eq!(decode_raw_midi(&[0xF7]), Ok(MidiEvent::EndOfSysEx {}));
    assert_eq!(decode_raw_midi(&[0xF8]), Ok(MidiEvent::TimingClock {}));
    assert_eq!(decode_raw_midi(&[0xF9]), Ok(MidiEvent::Undefined {}));
    assert_eq!(decode_raw_midi(&[0xFA]), Ok(MidiEvent::Start {}));
    assert_eq!(decode_raw_midi(&[0xFB]), Ok(MidiEvent::Continue {}));
    assert_eq!(decode_raw_midi(&[0xFC]), Ok(MidiEvent::Stop {}));
    assert_eq!(decode_raw_midi(&[0xFD]), Ok(MidiEvent::Undefined {}));
    assert_eq!(decode_raw_midi(&[0xFE]), Ok(MidiEvent::ActiveSensing {}));
    assert_eq!(decode_raw_midi(&[0xFF]), Ok(MidiEvent::SystemReset {}));
}

#[test]
fn test_decode_pitch_bend_with_full_data_bytes() {
    assert_eq!(
        decode_raw_midi(&[0xE0, 255, 255]),
        Ok(MidiEvent::PitchBendChange { channel: 1, value: 24703 })
    );
}

#[test]
fn test_kind_names() {
    assert_eq!(MidiEvent::NoteOff { channel: 1, note: 0, velocity: 0 }.kind_name(), "note-off");
    assert_eq!(MidiEvent::NoteOn { channel: 1, note: 0, velocity: 0 }.kind_name(), "note-on");
    assert_eq!(
        MidiEvent::PolyphonicAftertouch { channel: 1, note: 0, pressure: 0 }.kind_name(),
        "polyphonic-aftertouch"
    );
    assert_eq!(
        MidiEvent::ControlChange { channel: 1, control_no: 0, value: 0 }.kind_name(),
        "control-change"
    );
    assert_eq!(MidiEvent::ProgramChange { channel: 1, program: 0 }.kind_name(), "program-change");
    assert_eq!(
        MidiEvent::ChannelAftertouch { channel: 1, pressure: 0 }.kind_name(),
        "channel-aftertouch"
    );
    assert_eq!(MidiEvent::PitchBendChange { channel: 1, value: 0 }.kind_name(), "pitch-bend-change");
    assert_eq!(MidiEvent::SystemExclusive {}.kind_name(), "system-exclusive");
    assert_eq!(MidiEvent::MidiTimeCodeQtrFrame {}.kind_name(), "midi-time-code-qtr-frame");
    assert_eq!(MidiEvent::SongPositionPointer {}.kind_name(), "song-position-pointer");
    assert_eq!(MidiEvent::SongSelect { song_num: 0 }.kind_name(), "song-select");
    assert_eq!(MidiEvent::TuneRequest {}.kind_name(), "tone-request");
    assert_eq!(MidiEvent::EndOfSysEx {}.kind_name(), "end-of-sys-ex");
    assert_eq!(MidiEvent::TimingClock {}.kind_name(), "timing-clock");
    assert_eq!(MidiEvent::Start {}.kind_name(), "start");
    assert_eq!(MidiEvent::Continue {}.kind_name(), "continue");
    assert_eq!(MidiEvent::Stop {}.kind_name(), "stop");
    assert_eq!(MidiEvent::ActiveSensing {}.kind_name(), "active-sensing");
    assert_eq!(MidiEvent::SystemReset {}.kind_name(), "system-reset");
    assert_eq!(MidiEvent::Undefined {}.kind_name(), "undefined");
}

#[test]
fn test_is_complete_message() {
    assert!(!is_complete_message(&[]));
    assert!(is_complete_message(&[0x00]));
    assert!(is_complete_message(&[0x7f]));
    for status in [0x80u8, 0x9f, 0xa0, 0xb5, 0xe6] {
        assert!(!is_complete_message(&[status]));
        assert!(!is_complete_message(&[status, 1]));
        assert!(is_complete_message(&[status, 1, 2]));
        assert!(is_complete_message(&[status, 1, 2, 3]));
    }
    for status in [0xc0u8, 0xcf, 0xd0, 0xd7, 0xf3] {
        assert!(!is_complete_message(&[status]));
        assert!(is_complete_message(&[status, 1]));
    }
    for status in [0xf0u8, 0xf1, 0xf2, 0xf4, 0xf8, 0xff] {
        assert!(is_complete_message(&[status]));
    }
}

#[test]
fn test_decode_error_message() {
    assert_eq!(DecodeError::UnknownEventKind(7).message(), "Unknown MIDI event ID: 7");
    assert_eq!(DecodeError::UnknownEventKind(0).message(), "Unknown MIDI event ID: 0");
    assert_eq!(decode_raw_midi(&[0x45]).err().unwrap().message(), "Unknown MIDI event ID: 4");
}
