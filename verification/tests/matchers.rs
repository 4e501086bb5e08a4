use midi_hack::key_handler::{HoldData, HoldStatus, KeyStatus, TimeBucketedSparseKeyData};
use midi_hack::midi::{KeyMessage, MidiMessageTypes};
use midi_hack::music::{
    all_keys_down_others_allowed, checked_detect_run, detect_run, is_chronological,
    is_minor_maj_7_chord, is_minor_maj_7_chord_in_holds, minor_maj_7_chord_within,
    scale_matches_increments, RunLengthMismatch, CHORD_ROOT, CHORD_WINDOW,
};
use std::collections::{BTreeMap, HashSet};

const MAJOR: [u8; 7] = [2, 2, 1, 2, 2, 2, 1];
const HARMONIC_MINOR: [u8; 7] = [2, 1, 2, 2, 1, 3, 1];

fn down(key: u8, timestamp: u64) -> KeyMessage {
    KeyMessage { timestamp, message_type: MidiMessageTypes::NoteOn, key }
}

fn up(key: u8, timestamp: u64) -> KeyMessage {
    KeyMessage { timestamp, message_type: MidiMessageTypes::NoteOff, key }
}

fn played(keys: &[u8]) -> Vec<KeyMessage> {
    let mut events = Vec::new();
    for (i, key) in keys.iter().enumerate() {
        events.push(down(*key, 2 * i as u64));
        events.push(up(*key, 2 * i as u64 + 1));
    }
    events
}

fn key_ups_newest_first(keys: &[u8]) -> Vec<KeyMessage> {
    let mut events: Vec<KeyMessage> =
        keys.iter().enumerate().map(|(i, key)| up(*key, i as u64)).collect();
    events.reverse();
    events
}

fn bucket_at(tick: u64, entries: &[(u8, HoldStatus)]) -> TimeBucketedSparseKeyData {
    let mut buf = BTreeMap::new();
    let bucket = entries.iter().map(|(key, status)| KeyStatus { key: *key, status: *status });
    buf.insert(tick, bucket.collect());
    buf
}

#[test]
fn c_major_scale_matches() {
    let events = played(&[60, 62, 64, 65, 67, 69, 71, 72]);
    assert_eq!(events.len(), 16);
    assert!(scale_matches_increments(&events, MAJOR));
}

#[test]
fn scale_with_two_notes_swapped_does_not_match() {
    let events = played(&[60, 64, 62, 65, 67, 69, 71, 72]);
    assert!(!scale_matches_increments(&events, MAJOR));
}

#[test]
fn harmonic_minor_scale_matches_its_own_pattern_only() {
    let events = played(&[57, 59, 60, 62, 64, 65, 68, 69]);
    assert!(scale_matches_increments(&events, HARMONIC_MINOR));
    assert!(!scale_matches_increments(&events, MAJOR));
}

#[test]
fn scale_of_wrong_length_does_not_match() {
    assert!(!scale_matches_increments(&Vec::new(), MAJOR));
    assert!(!scale_matches_increments(&played(&[60, 62, 64, 65, 67, 69, 71]), MAJOR));
    let mut events = played(&[60, 62, 64, 65, 67, 69, 71, 72]);
    events.push(down(74, 100));
    assert!(!scale_matches_increments(&events, MAJOR));
}

#[test]
fn scale_with_overlapping_notes_does_not_match() {
    let mut events = played(&[60, 62, 64, 65, 67, 69, 71, 72]);
    events.swap(1, 2);
    assert!(!scale_matches_increments(&events, MAJOR));
}

#[test]
fn scale_with_release_of_another_key_does_not_match() {
    let mut events = played(&[60, 62, 64, 65, 67, 69, 71, 72]);
    events[15] = up(71, 15);
    assert!(!scale_matches_increments(&events, MAJOR));
}

#[test]
fn descending_scale_does_not_match() {
    let events = played(&[72, 71, 69, 67, 65, 64, 62, 60]);
    assert!(!scale_matches_increments(&events, MAJOR));
}

#[test]
fn a_second_octave_never_matches() {
    let again = played(&[60, 62, 64, 65, 67, 69, 71, 72, 60, 62, 64, 65, 67, 69, 71, 72]);
    assert_eq!(again.len(), 32);
    assert!(!scale_matches_increments(&again, MAJOR));
    let onward = played(&[60, 62, 64, 65, 67, 69, 71, 72, 74, 76, 77, 79, 81, 83, 84, 86]);
    assert!(!scale_matches_increments(&onward, MAJOR));
}

#[test]
fn detect_run_finds_the_root_of_an_ascending_scale() {
    let events = key_ups_newest_first(&[60, 62, 64, 65, 67, 69, 71, 72]);
    let root = detect_run(&events, &[2, 2, 1, 2, 2, 2, 1]);
    assert_eq!(root, Some(up(60, 0)));
}

#[test]
fn detect_run_finds_up_and_down() {
    let events =
        key_ups_newest_first(&[65, 67, 69, 70, 72, 74, 76, 77, 76, 74, 72, 70, 69, 67, 65]);
    let template = [2, 2, 1, 2, 2, 2, 1, -1, -2, -2, -2, -1, -2, -2];
    assert_eq!(detect_run(&events, &template), Some(up(65, 0)));
}

#[test]
fn detect_run_rejects_a_wrong_step() {
    let events = key_ups_newest_first(&[60, 62, 64, 66, 67, 69, 71, 72]);
    assert_eq!(detect_run(&events, &[2, 2, 1, 2, 2, 2, 1]), None);
    let backwards = key_ups_newest_first(&[72, 71, 69, 67, 65, 64, 62, 60]);
    assert_eq!(detect_run(&backwards, &[2, 2, 1, 2, 2, 2, 1]), None);
}

#[test]
fn detect_run_reads_the_template_oldest_step_first() {
    let events = key_ups_newest_first(&[60, 61, 63]);
    assert_eq!(detect_run(&events, &[1, 2]), Some(up(60, 0)));
    assert_eq!(detect_run(&events, &[2, 1]), None);
}

#[test]
fn detect_run_of_one_event_is_that_event() {
    assert_eq!(detect_run(&[up(60, 9)], &[]), Some(up(60, 9)));
}

#[test]
fn detect_run_spans_the_whole_keyboard() {
    let events = [up(0, 1), up(127, 0)];
    assert_eq!(detect_run(&events, &[-127]), Some(up(127, 0)));
    let wide = [up(255, 1), up(128, 0)];
    assert_eq!(detect_run(&wide, &[127]), Some(up(128, 0)));
    let wider = [up(255, 1), up(0, 0)];
    assert_eq!(detect_run(&wider, &[-1]), None);
}

#[test]
fn checked_detect_run_reports_a_length_mismatch() {
    let events = key_ups_newest_first(&[60, 62, 64]);
    assert_eq!(
        checked_detect_run(&events, &[2, 2, 1]),
        Err(RunLengthMismatch { events: 3, increments: 3 })
    );
    assert_eq!(
        checked_detect_run(&events, &[2]),
        Err(RunLengthMismatch { events: 3, increments: 1 })
    );
    assert_eq!(
        checked_detect_run(&[], &[]),
        Err(RunLengthMismatch { events: 0, increments: 0 })
    );
    assert_eq!(checked_detect_run(&events, &[2, 2]), Ok(Some(up(60, 0))));
    assert_eq!(checked_detect_run(&events, &[2, 3]), Ok(None));
}

#[test]
fn chord_in_log_is_found() {
    let events = played(&[60, 63, 67, 71]);
    assert_eq!(events.len(), 8);
    assert!(is_minor_maj_7_chord(&events));
}

#[test]
fn chord_in_log_in_any_order_and_octave() {
    let events = played(&[83, 48, 75, 55]);
    assert!(is_minor_maj_7_chord(&events));
}

#[test]
fn chord_in_log_needs_eight_events_and_four_note_ons() {
    let mut events = vec![down(60, 0), down(63, 1), down(67, 2), down(71, 3)];
    assert!(!is_minor_maj_7_chord(&events));
    events.extend([up(60, 4), up(63, 5), up(67, 6)]);
    assert!(!is_minor_maj_7_chord(&events));
    events.push(up(71, 7));
    assert!(is_minor_maj_7_chord(&events));
    let ups_only: Vec<KeyMessage> = (0..8).map(|i| up(60, i)).collect();
    assert!(!is_minor_maj_7_chord(&ups_only));
}

#[test]
fn chord_in_log_with_a_fifth_note_in_the_window_is_not_found() {
    let events = played(&[60, 63, 67, 71, 62]);
    assert!(!is_minor_maj_7_chord(&events));
}

#[test]
fn chord_in_log_with_a_note_played_twice_is_found() {
    let doubled = played(&[60, 60, 63, 67, 71]);
    assert!(is_minor_maj_7_chord(&doubled));
    let doubled_last = played(&[60, 63, 67, 71, 71]);
    assert!(is_minor_maj_7_chord(&doubled_last));
    let octaves = played(&[48, 60, 63, 75, 67, 71, 83]);
    assert!(is_minor_maj_7_chord(&octaves));
}

#[test]
fn chord_in_log_after_a_stray_note_within_the_window_is_not_found() {
    let mut events = vec![down(50, 0), up(50, 1)];
    for (i, key) in [60u8, 63, 67, 71].iter().enumerate() {
        events.push(down(*key, 1_000 + i as u64));
        events.push(up(*key, 1_000 + i as u64));
    }
    assert!(!is_minor_maj_7_chord(&events));
}

#[test]
fn chord_in_log_is_looked_for_run_by_run() {
    let mut events = Vec::new();
    for (key, stamp) in [(60u8, 0u64), (63, 10), (50, 20), (67, 30_000), (71, 30_010)] {
        events.push(down(key, stamp));
        events.push(up(key, stamp));
    }
    assert!(!is_minor_maj_7_chord(&events));
    let mut later = Vec::new();
    let notes = [(50u8, 0u64), (52, 10), (60, 30_000), (63, 30_010), (67, 30_020), (71, 30_030)];
    for (key, stamp) in notes {
        later.push(down(key, stamp));
        later.push(up(key, stamp));
    }
    assert!(is_minor_maj_7_chord(&later));
}

#[test]
fn chord_in_log_respects_the_window() {
    let mut events = Vec::new();
    for (i, key) in [60u8, 63, 67, 71].iter().enumerate() {
        events.push(down(*key, i as u64 * 10_000));
        events.push(up(*key, i as u64 * 10_000 + 1));
    }
    assert!(!is_minor_maj_7_chord(&events));
    assert!(minor_maj_7_chord_within(&events, CHORD_ROOT, 30_001));
    let mut close = Vec::new();
    for (i, key) in [60u8, 63, 67, 71].iter().enumerate() {
        close.push(down(*key, i as u64 * 9_999));
        close.push(up(*key, i as u64 * 9_999 + 1));
    }
    assert!(is_minor_maj_7_chord(&close));
    assert_eq!(CHORD_WINDOW, 30_000);
}

#[test]
fn chord_in_log_after_a_stray_note_is_found_once_the_stray_is_out_of_the_window() {
    let mut events = vec![down(50, 0), up(50, 1)];
    for (i, key) in [60u8, 63, 67, 71].iter().enumerate() {
        events.push(down(*key, 40_000 + i as u64));
        events.push(up(*key, 40_000 + i as u64));
    }
    assert!(is_minor_maj_7_chord(&events));
}

#[test]
fn chord_in_log_on_another_root() {
    let events = played(&[62, 65, 69, 73]);
    assert!(!is_minor_maj_7_chord(&events));
    assert!(minor_maj_7_chord_within(&events, 62, CHORD_WINDOW));
    assert!(minor_maj_7_chord_within(&events, 2, CHORD_WINDOW));
    assert!(!minor_maj_7_chord_within(&events, 63, CHORD_WINDOW));
}

#[test]
fn chronological_logs() {
    assert!(is_chronological(&Vec::new()));
    assert!(is_chronological(&vec![down(60, 5)]));
    assert!(is_chronological(&vec![down(60, 5), up(60, 5), down(61, 6)]));
    assert!(!is_chronological(&vec![down(60, 5), up(60, 4), down(61, 6)]));
    assert!(!is_chronological(&vec![down(60, 5), up(60, 6), down(61, 0)]));
}

#[test]
fn held_chord_tolerates_other_keys() {
    let root = 48;
    let buf = bucket_at(
        700,
        &[
            (root, HoldStatus::DOWN),
            (root + 3, HoldStatus::PRESS),
            (root + 7, HoldStatus::DOWN),
            (root + 11, HoldStatus::DOWN),
            (90, HoldStatus::DOWN),
        ],
    );
    assert!(is_minor_maj_7_chord_in_holds(&buf, root));
}

#[test]
fn held_chord_needs_every_key_sounding() {
    let root = 48;
    let released = bucket_at(
        700,
        &[
            (root, HoldStatus::DOWN),
            (root + 3, HoldStatus::EMPTY),
            (root + 7, HoldStatus::DOWN),
            (root + 11, HoldStatus::DOWN),
        ],
    );
    assert!(!is_minor_maj_7_chord_in_holds(&released, root));
    let missing = bucket_at(
        700,
        &[(root, HoldStatus::DOWN), (root + 3, HoldStatus::DOWN), (root + 7, HoldStatus::DOWN)],
    );
    assert!(!is_minor_maj_7_chord_in_holds(&missing, root));
    let other_octave = bucket_at(
        700,
        &[
            (root, HoldStatus::DOWN),
            (root + 3, HoldStatus::DOWN),
            (root + 7, HoldStatus::DOWN),
            (root + 23, HoldStatus::DOWN),
        ],
    );
    assert!(!is_minor_maj_7_chord_in_holds(&other_octave, root));
}

#[test]
fn held_chord_counts_keys_not_entries() {
    let root = 48;
    let doubled_root = bucket_at(
        700,
        &[
            (root, HoldStatus::DOWN),
            (root, HoldStatus::PRESS),
            (root + 3, HoldStatus::DOWN),
            (root + 7, HoldStatus::DOWN),
        ],
    );
    assert!(!is_minor_maj_7_chord_in_holds(&doubled_root, root));
    let doubled_and_whole = bucket_at(
        700,
        &[
            (root, HoldStatus::DOWN),
            (root, HoldStatus::PRESS),
            (root + 3, HoldStatus::DOWN),
            (root + 7, HoldStatus::DOWN),
            (root + 11, HoldStatus::DOWN),
        ],
    );
    assert!(is_minor_maj_7_chord_in_holds(&doubled_and_whole, root));
}

#[test]
fn held_chord_looks_at_the_most_recent_bucket_only() {
    let root = 60;
    let mut buf = bucket_at(
        100,
        &[
            (root, HoldStatus::DOWN),
            (root + 3, HoldStatus::DOWN),
            (root + 7, HoldStatus::DOWN),
            (root + 11, HoldStatus::DOWN),
        ],
    );
    assert!(is_minor_maj_7_chord_in_holds(&buf, root));
    buf.insert(200, vec![KeyStatus { key: root, status: HoldStatus::DOWN }]);
    assert!(!is_minor_maj_7_chord_in_holds(&buf, root));
    assert!(!is_minor_maj_7_chord_in_holds(&BTreeMap::new(), root));
}

#[test]
fn held_chord_through_the_projection() {
    let mut holds = HoldData::new(16);
    for (i, key) in [60u8, 65, 63, 67, 71].iter().enumerate() {
        holds.update(down(*key, i as u64), i as u64 * 100);
    }
    assert!(is_minor_maj_7_chord_in_holds(&holds.raw_buf(), 60));
    holds.update(up(67, 9), 900);
    assert!(!is_minor_maj_7_chord_in_holds(&holds.raw_buf(), 60));
}

#[test]
fn all_keys_down_with_any_set_of_keys() {
    let buf = bucket_at(
        5,
        &[(10, HoldStatus::DOWN), (20, HoldStatus::PRESS), (30, HoldStatus::EMPTY)],
    );
    assert!(all_keys_down_others_allowed(&buf, HashSet::from([10, 20])));
    assert!(all_keys_down_others_allowed(&buf, HashSet::from([20])));
    assert!(all_keys_down_others_allowed(&buf, HashSet::new()));
    assert!(!all_keys_down_others_allowed(&buf, HashSet::from([10, 30])));
    assert!(!all_keys_down_others_allowed(&buf, HashSet::from([10, 20, 40])));
    assert!(!all_keys_down_others_allowed(&BTreeMap::new(), HashSet::new()));
}
