use midi_hack::midi::{
    build_key_message, decimal_text, is_known_message_type, pitch_class, pitch_class_text,
    KeyMessage, MidiMessageTypes, KEEP_ALIVE, KEY_DOWN, KEY_UP, TIME_KEEPING, VELOCITY,
};
use midi_hack::speech::{get_interval_name, get_pronunciation, same_text};
use midi_hack::time::{get_time, update_time, LogicalClock, INCREMENT};

fn event(kind: MidiMessageTypes, key: u8) -> KeyMessage {
    KeyMessage { timestamp: 7, message_type: kind, key }
}

#[test]
fn note_names_of_one_octave() {
    let names: Vec<&str> =
        (60u8..72).map(|key| event(MidiMessageTypes::NoteOn, key).note_name()).collect();
    assert_eq!(
        names,
        vec!["C", "C#", "D", "Eb", "E", "F", "F#", "G", "Ab", "A", "Bb", "B"]
    );
}

#[test]
fn note_name_of_the_lowest_and_highest_keys() {
    assert_eq!(event(MidiMessageTypes::NoteOn, 0).note_name(), "C");
    assert_eq!(event(MidiMessageTypes::NoteOn, 21).note_name(), "A");
    assert_eq!(event(MidiMessageTypes::NoteOn, 127).note_name(), "G");
    assert_eq!(event(MidiMessageTypes::NoteOn, 255).note_name(), "Eb");
}

#[test]
fn readable_note_has_the_octave() {
    assert_eq!(event(MidiMessageTypes::NoteOn, 60).readable_note(), "C5");
    assert_eq!(event(MidiMessageTypes::NoteOn, 0).readable_note(), "C0");
    assert_eq!(event(MidiMessageTypes::NoteOn, 70).readable_note(), "Bb5");
    assert_eq!(event(MidiMessageTypes::NoteOn, 127).readable_note(), "G10");
    assert_eq!(event(MidiMessageTypes::NoteOn, 255).readable_note(), "Eb21");
}

#[test]
fn message_text() {
    assert_eq!(event(MidiMessageTypes::NoteOn, 60).to_string(), "NoteOnC5 ");
    assert_eq!(event(MidiMessageTypes::NoteOff, 61).to_string(), "NoteOffC#5 ");
}

#[test]
fn message_type_name_and_status_byte() {
    assert_eq!(MidiMessageTypes::NoteOn.name(), "NoteOn");
    assert_eq!(MidiMessageTypes::NoteOff.name(), "NoteOff");
    assert_eq!(MidiMessageTypes::NoteOn.status_byte(), 144);
    assert_eq!(MidiMessageTypes::NoteOff.status_byte(), 128);
}

#[test]
fn encode_is_status_key_velocity() {
    assert_eq!(event(MidiMessageTypes::NoteOn, 60).encode(), [144, 60, 100]);
    assert_eq!(event(MidiMessageTypes::NoteOff, 21).encode(), [128, 21, 100]);
    assert_eq!(VELOCITY, 0x64);
}

#[test]
fn from_midi_reads_kind_and_key() {
    let down = KeyMessage::from_midi(42, &[KEY_DOWN, 60, 99]);
    assert_eq!(
        down,
        KeyMessage { timestamp: 42, message_type: MidiMessageTypes::NoteOn, key: 60 }
    );
    let up = KeyMessage::from_midi(43, &[KEY_UP, 61, 0]);
    assert_eq!(
        up,
        KeyMessage { timestamp: 43, message_type: MidiMessageTypes::NoteOff, key: 61 }
    );
    assert_eq!(build_key_message(43, &[KEY_UP, 61]), up);
}

#[test]
fn encode_then_from_midi_gives_the_event_back() {
    let event = KeyMessage { timestamp: 5, message_type: MidiMessageTypes::NoteOff, key: 77 };
    assert_eq!(KeyMessage::from_midi(5, &event.encode()), event);
}

#[test]
fn parse_takes_note_events_only() {
    assert_eq!(
        KeyMessage::parse(1, &[144, 60, 100]),
        Some(KeyMessage { timestamp: 1, message_type: MidiMessageTypes::NoteOn, key: 60 })
    );
    assert_eq!(
        KeyMessage::parse(1, &[128, 60, 0]),
        Some(KeyMessage { timestamp: 1, message_type: MidiMessageTypes::NoteOff, key: 60 })
    );
    assert_eq!(KeyMessage::parse(1, &[254]), None);
    assert_eq!(KeyMessage::parse(1, &[208, 60, 0]), None);
    assert_eq!(KeyMessage::parse(1, &[144, 60]), None);
    assert_eq!(KeyMessage::parse(1, &[144, 60, 100, 0]), None);
    assert_eq!(KeyMessage::parse(1, &[]), None);
}

#[test]
fn known_message_types() {
    for status in [KEY_DOWN, KEY_UP, KEEP_ALIVE, TIME_KEEPING] {
        assert!(is_known_message_type(status));
    }
    assert!(!is_known_message_type(0));
    assert!(!is_known_message_type(145));
}

#[test]
fn pitch_class_counts_from_a() {
    assert_eq!(pitch_class(60), 3);
    assert_eq!(pitch_class(57), 0);
    assert_eq!(pitch_class(68), 11);
    assert_eq!(pitch_class(255), 6);
}

#[test]
fn pitch_class_names_count_from_a() {
    let names: Vec<&str> = (0u8..12).map(pitch_class_text).collect();
    assert_eq!(
        names,
        vec!["A", "Bb", "B", "C", "C#", "D", "Eb", "E", "F", "F#", "G", "Ab"]
    );
}

#[test]
fn decimal_text_of_numbers() {
    assert_eq!(decimal_text(0), "0");
    assert_eq!(decimal_text(9), "9");
    assert_eq!(decimal_text(10), "10");
    assert_eq!(decimal_text(30000), "30000");
    assert_eq!(decimal_text(u64::MAX), "18446744073709551615");
}

#[test]
fn pronunciation_spells_out_flats() {
    assert_eq!(get_pronunciation("Bb"), "B Flat");
    assert_eq!(get_pronunciation("Eb"), "E Flat");
    assert_eq!(get_pronunciation("Ab"), "A Flat");
    assert_eq!(get_pronunciation("C#"), "C#");
    assert_eq!(get_pronunciation("B"), "B");
    assert_eq!(get_pronunciation(""), "");
}

#[test]
fn interval_names() {
    let names: Vec<&str> = (0u8..=13).map(get_interval_name).collect();
    assert_eq!(
        names,
        vec![
            "unison",
            "half step",
            "whole step",
            "minor third",
            "major third",
            "perfect fourth",
            "tritone",
            "tonic",
            "minor sixth",
            "major sixth",
            "minor seventh",
            "major seventh",
            "octave",
            "unknown interval"
        ]
    );
    assert_eq!(get_interval_name(255), "unknown interval");
}

#[test]
fn same_text_compares_characters() {
    assert!(same_text("Bb", "Bb"));
    assert!(!same_text("Bb", "B"));
    assert!(!same_text("Bb", "Eb"));
    assert!(same_text("", ""));
    assert!(same_text("perfect fourth", "perfect fourth"));
    assert!(!same_text("perfect fourth", "perfect fourtH"));
}

#[test]
fn clock_starts_at_zero_and_steps_by_increment() {
    let mut clock = LogicalClock::new();
    assert_eq!(get_time(&clock), 0);
    assert_eq!(update_time(&mut clock), 0);
    assert_eq!(get_time(&clock), 100);
    assert_eq!(update_time(&mut clock), 100);
    assert_eq!(update_time(&mut clock), 200);
    assert_eq!(get_time(&clock), 300);
    assert_eq!(INCREMENT, 100);
}

#[test]
fn clock_never_runs_backwards() {
    let mut clock = LogicalClock::new();
    let mut last = get_time(&clock);
    for _ in 0..1000 {
        let prior = update_time(&mut clock);
        assert_eq!(prior, last);
        assert!(get_time(&clock) > prior);
        last = get_time(&clock);
    }
    assert_eq!(last, 100_000);
}
