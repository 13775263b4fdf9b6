use std::collections::HashSet;

use midi_router::midi::{DecodeError, MidiEvent};
use midi_router::pattern::NamePattern;
use midi_router::routing::{Action, Condition, NumericRange, RoutingTable, Rule};

#[test]
fn test_condition_matches_values() {
    let condition = Condition {
        event_pattern: None,
        channel_pattern: Some(NumericRange { start: 0, end: 8 }),
        value_pattern: Some(NumericRange { start: -16, end: 15 }),
        velocity_pattern: Some(NumericRange { start: 20, end: 40 }), // a.k.a. pressure
        controller_pattern: Some(NumericRange { start: 5, end: 10 }),
    };

    let note_off_event_ch0 = MidiEvent::NoteOff {
        note: 0,
        channel: 0,
        velocity: 20,
    };
    assert!(condition.matches(&note_off_event_ch0));

    let note_off_event_ch8 = MidiEvent::NoteOff {
        note: 0,
        channel: 8,
        velocity: 20,
    };
    assert!(condition.matches(&note_off_event_ch8));

    let note_off_event_ch9 = MidiEvent::NoteOff {
        note: 0,
        channel: 9,
        velocity: 20,
    };
    assert!(!condition.matches(&note_off_event_ch9));

    let note_on_event = MidiEvent::NoteOn {
        note: 0,
        channel: 0,
        velocity: 20,
    };
    assert!(condition.matches(&note_on_event));

    let note_on_event_val_15 = MidiEvent::NoteOn {
        note: 15,
        channel: 0,
        velocity: 20,
    };
    assert!(condition.matches(&note_on_event_val_15));

    let note_on_event_val_16 = MidiEvent::NoteOn {
        note: 16,
        channel: 0,
        velocity: 20,
    };
    assert!(!condition.matches(&note_on_event_val_16));

    let note_on_event_vel_15 = MidiEvent::NoteOn {
        note: 0,
        channel: 0,
        velocity: 20,
    };
    assert!(condition.matches(&note_on_event_vel_15));

    let note_on_event_vel_19 = MidiEvent::NoteOn {
        note: 0,
        channel: 0,
        velocity: 19,
    };
    assert!(!condition.matches(&note_on_event_vel_19));

    let note_on_event_vel_40 = MidiEvent::NoteOn {
        note: 0,
        channel: 0,
        velocity: 40,
    };
    assert!(condition.matches(&note_on_event_vel_40));

    let note_on_event_vel_41 = MidiEvent::NoteOn {
        note: 0,
        channel: 0,
        velocity: 41,
    };
    assert!(!condition.matches(&note_on_event_vel_41));

    let polyphonic_aftertouch_event = MidiEvent::PolyphonicAftertouch {
        note: 0,
        channel: 0,
        pressure: 20,
    };
    assert!(condition.matches(&polyphonic_aftertouch_event));

    let control_change_event_cn4 = MidiEvent::ControlChange {
        channel: 0,
        control_no: 4,
        value: 0,
    };
    assert!(!condition.matches(&control_change_event_cn4));

    let control_change_event_cn5 = MidiEvent::ControlChange {
        channel: 0,
        control_no: 5,
        value: 0,
    };
    assert!(condition.matches(&control_change_event_cn5));

    let control_change_event_cn10 = MidiEvent::ControlChange {
        channel: 0,
        control_no: 10,
        value: 0,
    };
    assert!(condition.matches(&control_change_event_cn10));

    let control_change_event_cn11 = MidiEvent::ControlChange {
        channel: 0,
        control_no: 11,
        value: 0,
    };
    assert!(!condition.matches(&control_change_event_cn11));

    let control_change_event_val15 = MidiEvent::ControlChange {
        channel: 0,
        control_no: 5,
        value: 15,
    };
    assert!(condition.matches(&control_change_event_val15));

    let control_change_event_val16 = MidiEvent::ControlChange {
        channel: 0,
        control_no: 5,
        value: 16,
    };
    assert!(!condition.matches(&control_change_event_val16));
}

#[test]
fn test_condition_matches_pattern() {
    let condition = Condition {
        event_pattern: Some(NamePattern::new("note-[onf]{2,3}").unwrap()),
        ..Default::default()
    };

    let note_off_event = MidiEvent::NoteOff {
        note: 0,
        channel: 0,
        velocity: 0,
    };
    assert!(condition.matches(&note_off_event));

    let note_on_event = MidiEvent::NoteOn {
        note: 0,
        channel: 0,
        velocity: 0,
    };
    assert!(condition.matches(&note_on_event));

    let polyphonic_aftertouch_event = MidiEvent::PolyphonicAftertouch {
        note: 0,
        channel: 0,
        pressure: 0,
    };
    assert!(!condition.matches(&polyphonic_aftertouch_event));
}

fn forward_to(port: &str) -> Action {
    Action::ForwardTo { output_port: port.to_string() }
}

#[test]
fn test_routing_table_get_all_output_ports() {
    let create_condition = || Condition { ..Default::default() };
    let routing_table = RoutingTable {
        rules: vec![
            Rule {
                condition: create_condition(),
                actions: vec![
                    Action::ForwardTo { output_port: "drums".to_string() },
                    Action::ForwardTo { output_port: "lead".to_string() },
                ],
            },
            Rule {
                condition: create_condition(),
                actions: vec![
                    Action::ForwardTo { output_port: "lead".to_string() },
                    Action::ForwardTo { output_port: "pads".to_string() },
                ],
            },
            Rule { condition: create_condition(), actions: Vec::new() },
            Rule {
                condition: create_condition(),
                actions: vec![Action::ForwardTo { output_port: "pads".to_string() }],
            },
        ],
    };
    let output_ports = routing_table.get_all_output_ports();

    let expected: Vec<_> = vec!["drums", "lead", "pads"].into_iter().map(String::from).collect();
    assert_eq!(output_ports.len(), 3);
    let as_set: HashSet<&String> = output_ports.into_iter().collect();
    assert_eq!(as_set, expected.iter().collect());
}

fn create_rule(pattern: &str, output_ports: Vec<&str>) -> Rule {
    Rule {
        condition: Condition {
            event_pattern: Some(NamePattern::new(pattern).unwrap()),
            channel_pattern: None,
            value_pattern: None,
            velocity_pattern: None,
            controller_pattern: None,
        },
        actions: output_ports.iter().map(|p| forward_to(p)).collect(),
    }
}

#[test]
fn test_routing_table_get_output_ports() {
    let routing_table = RoutingTable {
        rules: vec![
            create_rule("note-off", vec!["x", "xx", "xxx"]),
            create_rule("note-on", vec!["a", "b", "c"]),
            create_rule("note-*", vec!["x", "y", "z"]),
        ],
    };
    let output_ports = routing_table.get_output_ports(MidiEvent::NoteOff {
        channel: 0,
        note: 0,
        velocity: 0,
    });

    let expected: Vec<_> = vec!["x", "xx", "xxx", "x", "y", "z"];
    assert_eq!(output_ports, expected);
}

#[test]
fn test_all_matching_rules_fire_in_rule_then_action_order() {
    let routing_table = RoutingTable {
        rules: vec![
            create_rule("note-off", vec!["a1", "a2", "a3"]),
            create_rule("note-.*", vec!["b1", "a2", "b3"]),
            create_rule(".*", vec!["c1", "c2", "a1"]),
        ],
    };
    let event = MidiEvent::NoteOff { channel: 3, note: 60, velocity: 0 };
    let output_ports = routing_table.get_output_ports(event);
    assert_eq!(output_ports, vec!["a1", "a2", "a3", "b1", "a2", "b3", "c1", "c2", "a1"]);
    // The same table and event give the same list again.
    assert_eq!(routing_table.get_output_ports(event), output_ports);
    assert_eq!(
        routing_table.get_all_output_ports(),
        vec!["a1", "a2", "a3", "b1", "b3", "c1", "c2"]
    );
}

#[test]
fn test_rule_without_actions_matches_and_drops() {
    let routing_table = RoutingTable {
        rules: vec![create_rule(".*", vec![]), create_rule("start", vec!["clock"])],
    };
    assert!(routing_table.get_output_ports(MidiEvent::Stop {}).is_empty());
    assert_eq!(routing_table.get_output_ports(MidiEvent::Start {}), vec!["clock"]);
    assert_eq!(routing_table.get_all_output_ports(), vec!["clock"]);
}

#[test]
fn test_empty_table_routes_nowhere() {
    let routing_table = RoutingTable { rules: Vec::new() };
    assert!(routing_table.get_output_ports(MidiEvent::TimingClock {}).is_empty());
    assert!(routing_table.get_all_output_ports().is_empty());
}

#[test]
fn test_is_within_is_inclusive() {
    let bytes = NumericRange { start: 5u8, end: 12u8 };
    assert!(!bytes.is_within(4));
    assert!(bytes.is_within(5));
    assert!(bytes.is_within(12));
    assert!(!bytes.is_within(13));
    let signed = NumericRange { start: -8192i16, end: 8191i16 };
    assert!(!signed.is_within(-8193));
    assert!(signed.is_within(-8192));
    assert!(signed.is_within(8191));
    assert!(!signed.is_within(8192));
    let reversed = NumericRange { start: 10i16, end: 5i16 };
    assert!(!reversed.is_within(7));
}

#[test]
fn test_predicates_without_a_field_are_ignored() {
    let condition = Condition {
        event_pattern: None,
        channel_pattern: Some(NumericRange { start: 1, end: 1 }),
        value_pattern: Some(NumericRange { start: 100, end: 200 }),
        velocity_pattern: Some(NumericRange { start: 1, end: 1 }),
        controller_pattern: Some(NumericRange { start: 1, end: 1 }),
    };
    // System messages carry none of the fields.
    assert!(condition.matches(&MidiEvent::TimingClock {}));
    assert!(condition.matches(&MidiEvent::Undefined {}));
    // Song select carries a value only.
    assert!(condition.matches(&MidiEvent::SongSelect { song_num: 100 }));
    assert!(!condition.matches(&MidiEvent::SongSelect { song_num: 99 }));
    // Program change: channel and value; velocity and controller are ignored.
    assert!(condition.matches(&MidiEvent::ProgramChange { channel: 1, program: 127 }));
    assert!(!condition.matches(&MidiEvent::ProgramChange { channel: 2, program: 127 }));
    assert!(!condition.matches(&MidiEvent::ChannelAftertouch { channel: 1, pressure: 5 }));
    // Pitch bend: the signed value is compared.
    assert!(condition.matches(&MidiEvent::PitchBendChange { channel: 1, value: 150 }));
    assert!(!condition.matches(&MidiEvent::PitchBendChange { channel: 1, value: -150 }));
    // Control change: velocity is ignored, the controller number is not.
    assert!(condition.matches(&MidiEvent::ControlChange { channel: 1, control_no: 1, value: 100 }));
    assert!(!condition.matches(&MidiEvent::ControlChange { channel: 1, control_no: 2, value: 100 }));
}

#[test]
fn test_name_pattern_searches_anywhere_in_the_text() {
    let pattern = NamePattern::new("note").unwrap();
    assert_eq!(pattern.as_str(), "note");
    assert!(pattern.is_match("note-on"));
    assert!(pattern.is_match("a-note"));
    assert!(!pattern.is_match("not"));
    let anchored = NamePattern::new("^note-on$").unwrap();
    assert!(anchored.is_match("note-on"));
    assert!(!anchored.is_match("note-on2"));
    assert!(NamePattern::new("no[te-*").is_err());
}

#[test]
fn test_fields_match_ignores_the_name_pattern() {
    let condition = Condition {
        event_pattern: Some(NamePattern::new("^stop$").unwrap()),
        channel_pattern: Some(NumericRange { start: 2, end: 4 }),
        value_pattern: None,
        velocity_pattern: None,
        controller_pattern: None,
    };
    let in_range = MidiEvent::NoteOn { channel: 3, note: 1, velocity: 1 };
    let out_of_range = MidiEvent::NoteOn { channel: 5, note: 1, velocity: 1 };
    assert!(condition.fields_match(&in_range));
    assert!(!condition.fields_match(&out_of_range));
    assert!(!condition.matches(&in_range));
    assert!(condition.matches(&MidiEvent::Stop {}));
}

#[test]
fn test_routed_ports_are_among_all_output_ports() {
    let routing_table = RoutingTable {
        rules: vec![
            create_rule("note-.*", vec!["a", "b"]),
            create_rule("control-change", vec!["c"]),
            create_rule(".*", vec!["b", "d"]),
        ],
    };
    let all = routing_table.get_all_output_ports();
    assert_eq!(all, vec!["a", "b", "c", "d"]);
    let events = [
        MidiEvent::NoteOn { channel: 1, note: 2, velocity: 3 },
        MidiEvent::ControlChange { channel: 1, control_no: 2, value: 3 },
        MidiEvent::Stop {},
    ];
    let expected = [vec!["a", "b", "b", "d"], vec!["c", "b", "d"], vec!["b", "d"]];
    for (event, ports) in events.iter().zip(expected.iter()) {
        let routed = routing_table.get_output_ports(*event);
        assert_eq!(&routed, ports);
        for port in routed {
            assert!(all.iter().any(|name| name.as_str() == port));
        }
    }
}

#[test]
fn test_get_ports_from_actions() {
    let actions = vec![forward_to("x"), forward_to("y"), forward_to("x")];
    assert_eq!(RoutingTable::get_ports_from_actions(&actions), vec!["x", "y", "x"]);
    assert_eq!(RoutingTable::get_port_from_action(&actions[1]), "y");
    assert!(RoutingTable::get_ports_from_actions(&Vec::new()).is_empty());
}

#[test]
fn test_route_raw_midi() {
    let routing_table = RoutingTable {
        rules: vec![
            create_rule("note-off", vec!["x", "xx"]),
            create_rule("pitch-bend-change", vec!["bend"]),
            create_rule("note-.*", vec!["x", "y"]),
        ],
    };
    assert_eq!(
        routing_table.route_raw_midi(&[0x85, 0x7B, 0x19]),
        Ok((MidiEvent::NoteOff { channel: 6, note: 123, velocity: 25 }, vec!["x", "xx", "x", "y"]))
    );
    assert_eq!(
        routing_table.route_raw_midi(&[0xE6, 0, 64]),
        Ok((MidiEvent::PitchBendChange { channel: 7, value: 0 }, vec!["bend"]))
    );
    assert_eq!(routing_table.route_raw_midi(&[0xF8]), Ok((MidiEvent::TimingClock {}, vec![])));
    assert_eq!(
        routing_table.route_raw_midi(&[0x10, 1, 2]),
        Err(DecodeError::UnknownEventKind(1))
    );
}
