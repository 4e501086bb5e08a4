use midi_hack::key_handler::{
    always_true, HoldData, HoldStatus, KeyDb, KeyStatus, TimeBucketedSparseKeyData,
};
use midi_hack::midi::{KeyMessage, MidiMessageTypes};

fn press(key: u8, timestamp: u64) -> KeyMessage {
    KeyMessage { timestamp, message_type: MidiMessageTypes::NoteOn, key }
}

fn release(key: u8, timestamp: u64) -> KeyMessage {
    KeyMessage { timestamp, message_type: MidiMessageTypes::NoteOff, key }
}

fn held(key: u8, status: HoldStatus) -> KeyStatus {
    KeyStatus { key, status }
}

fn ticks_of(buf: &TimeBucketedSparseKeyData) -> Vec<u64> {
    buf.keys().copied().collect()
}

#[test]
fn down_like_is_press_or_down() {
    assert!(HoldStatus::PRESS.down_like());
    assert!(HoldStatus::DOWN.down_like());
    assert!(!HoldStatus::EMPTY.down_like());
}

#[test]
fn new_projection_is_empty() {
    let holds = HoldData::new(4);
    assert!(holds.raw_buf().is_empty());
}

#[test]
fn note_off_without_bucket_is_ignored() {
    let mut holds = HoldData::new(4);
    holds.update(release(60, 1), 100);
    assert!(holds.raw_buf().is_empty());
}

#[test]
fn first_note_on_opens_a_bucket() {
    let mut holds = HoldData::new(4);
    holds.update(press(60, 1), 100);
    let buf = holds.raw_buf();
    assert_eq!(ticks_of(&buf), vec![100]);
    assert_eq!(buf[&100], vec![held(60, HoldStatus::PRESS)]);
}

#[test]
fn press_down_empty_then_gone() {
    let mut holds = HoldData::new(8);
    holds.update(press(60, 1), 0);
    holds.update(press(64, 2), 100);
    holds.update(release(60, 3), 200);
    holds.update(press(67, 4), 300);
    let buf = holds.raw_buf();
    assert_eq!(buf[&0], vec![held(60, HoldStatus::PRESS)]);
    assert_eq!(buf[&100], vec![held(60, HoldStatus::DOWN), held(64, HoldStatus::PRESS)]);
    assert_eq!(buf[&200], vec![held(60, HoldStatus::EMPTY), held(64, HoldStatus::DOWN)]);
    assert_eq!(buf[&300], vec![held(64, HoldStatus::DOWN), held(67, HoldStatus::PRESS)]);
}

#[test]
fn press_then_release_is_never_down() {
    let mut holds = HoldData::new(8);
    holds.update(press(60, 1), 0);
    holds.update(release(60, 2), 100);
    holds.update(release(60, 3), 200);
    let buf = holds.raw_buf();
    assert_eq!(buf[&0], vec![held(60, HoldStatus::PRESS)]);
    assert_eq!(buf[&100], vec![held(60, HoldStatus::EMPTY)]);
    assert_eq!(buf[&200], Vec::<KeyStatus>::new());
}

#[test]
fn a_key_pressed_twice_has_two_entries() {
    let mut holds = HoldData::new(8);
    holds.update(press(60, 1), 0);
    holds.update(press(60, 2), 100);
    let buf = holds.raw_buf();
    assert_eq!(buf[&100], vec![held(60, HoldStatus::DOWN), held(60, HoldStatus::PRESS)]);
    holds.update(release(60, 3), 200);
    assert_eq!(
        holds.raw_buf()[&200],
        vec![held(60, HoldStatus::EMPTY), held(60, HoldStatus::EMPTY)]
    );
}

#[test]
fn events_at_one_tick_share_a_bucket() {
    let mut holds = HoldData::new(2);
    holds.update(press(60, 1), 100);
    holds.update(press(64, 2), 100);
    holds.update(press(67, 3), 100);
    let buf = holds.raw_buf();
    assert_eq!(ticks_of(&buf), vec![100]);
    assert_eq!(
        buf[&100],
        vec![
            held(60, HoldStatus::DOWN),
            held(64, HoldStatus::DOWN),
            held(67, HoldStatus::PRESS)
        ]
    );
}

#[test]
fn retention_is_bounded_to_the_most_recent() {
    let mut holds = HoldData::new(3);
    for i in 0..7u64 {
        holds.update(press(60 + i as u8, i), i * 100);
        let expected = if i < 3 { i as usize + 1 } else { 3 };
        assert_eq!(holds.raw_buf().len(), expected);
    }
    assert_eq!(ticks_of(&holds.raw_buf()), vec![400, 500, 600]);
}

#[test]
fn capacity_of_one_keeps_the_last_bucket() {
    let mut holds = HoldData::new(1);
    holds.update(press(60, 1), 0);
    holds.update(press(62, 2), 100);
    holds.update(release(60, 3), 200);
    let buf = holds.raw_buf();
    assert_eq!(ticks_of(&buf), vec![200]);
    assert_eq!(buf[&200], vec![held(60, HoldStatus::EMPTY), held(62, HoldStatus::DOWN)]);
}

#[test]
fn same_tick_at_capacity_evicts_nothing() {
    let mut holds = HoldData::new(2);
    holds.update(press(60, 1), 0);
    holds.update(press(62, 2), 100);
    holds.update(press(64, 3), 100);
    assert_eq!(ticks_of(&holds.raw_buf()), vec![0, 100]);
}

#[test]
fn an_earlier_tick_is_stored_after_eviction() {
    let mut holds = HoldData::new(2);
    holds.update(press(60, 1), 100);
    holds.update(press(62, 2), 200);
    holds.update(press(64, 3), 50);
    let buf = holds.raw_buf();
    assert_eq!(ticks_of(&buf), vec![50, 200]);
    assert_eq!(
        buf[&50],
        vec![held(60, HoldStatus::DOWN), held(62, HoldStatus::DOWN), held(64, HoldStatus::PRESS)]
    );
}

#[test]
fn hold_data_clear_empties_and_keeps_capacity() {
    let mut holds = HoldData::new(2);
    holds.update(press(60, 1), 0);
    holds.clear();
    assert!(holds.raw_buf().is_empty());
    holds.update(press(60, 1), 0);
    holds.update(press(61, 1), 1);
    holds.update(press(62, 1), 2);
    assert_eq!(holds.raw_buf().len(), 2);
}

#[test]
fn hold_data_clone_is_a_copy() {
    let mut holds = HoldData::new(2);
    holds.update(press(60, 1), 0);
    let copy = holds.clone();
    holds.update(press(61, 2), 100);
    assert_eq!(ticks_of(&copy.raw_buf()), vec![0]);
    assert_eq!(ticks_of(&holds.raw_buf()), vec![0, 100]);
}

#[test]
fn push_appends_to_log_and_updates_holds() {
    let mut db = KeyDb::new(4);
    db.push_msg(press(60, 10), 100);
    db.push_msg(release(60, 20), 200);
    assert_eq!(db.flat_message_log(), vec![press(60, 10), release(60, 20)]);
    let holds = db.get_hold_data();
    assert_eq!(holds[&100], vec![held(60, HoldStatus::PRESS)]);
    assert_eq!(holds[&200], vec![held(60, HoldStatus::EMPTY)]);
}

#[test]
fn clear_twice_is_clear_once() {
    let mut once = KeyDb::new(4);
    let mut twice = KeyDb::new(4);
    for db in [&mut once, &mut twice] {
        db.push_msg(press(60, 10), 100);
        db.push_msg(release(60, 20), 200);
    }
    once.clear();
    twice.clear();
    twice.clear();
    assert_eq!(once.flat_message_log(), twice.flat_message_log());
    assert_eq!(once.get_hold_data(), twice.get_hold_data());
    assert!(twice.flat_message_log().is_empty());
    assert!(twice.get_hold_data().is_empty());
    once.push_msg(press(61, 30), 300);
    twice.push_msg(press(61, 30), 300);
    assert_eq!(once.get_hold_data(), twice.get_hold_data());
}

#[test]
fn newest_first_without_filter() {
    let mut db = KeyDb::new(4);
    let events = [press(60, 1), release(60, 2), press(62, 3), release(62, 4), press(64, 5)];
    for (i, e) in events.iter().enumerate() {
        db.push_msg(*e, i as u64 * 100);
    }
    for n in 0..=events.len() {
        let got = db.last_n_messages_reverse_chron(None::<fn(&KeyMessage) -> bool>, n);
        let mut expected: Vec<KeyMessage> = events[events.len() - n..].to_vec();
        expected.reverse();
        assert_eq!(got, expected);
    }
    let all = db.last_n_messages_reverse_chron(None::<fn(&KeyMessage) -> bool>, 99);
    assert_eq!(all.len(), 5);
    assert_eq!(all[0], press(64, 5));
}

#[test]
fn newest_first_with_always_true() {
    let mut db = KeyDb::new(4);
    db.push_msg(press(60, 1), 0);
    db.push_msg(release(60, 2), 100);
    db.push_msg(press(62, 3), 200);
    let got = db.last_n_messages_reverse_chron(Some(always_true), 2);
    assert_eq!(got, vec![press(62, 3), release(60, 2)]);
}

#[test]
fn newest_first_with_custom_filter() {
    let mut db = KeyDb::new(4);
    for (i, key) in [60u8, 72, 61, 73, 62].iter().enumerate() {
        db.push_msg(press(*key, i as u64), i as u64);
    }
    let high = db.last_n_messages_reverse_chron(Some(|m: &KeyMessage| m.key >= 72), 5);
    assert_eq!(high, vec![press(73, 3), press(72, 1)]);
    let low = db.last_n_messages_reverse_chron(Some(|m: &KeyMessage| m.key < 72), 2);
    assert_eq!(low, vec![press(62, 4), press(61, 2)]);
    let none = db.last_n_messages_reverse_chron(Some(|m: &KeyMessage| m.key < 72), 0);
    assert!(none.is_empty());
}

#[test]
fn key_ups_and_key_downs_reversed() {
    let mut db = KeyDb::new(4);
    let events =
        [press(60, 1), release(60, 2), press(62, 3), release(62, 4), press(64, 5), release(64, 6)];
    for (i, e) in events.iter().enumerate() {
        db.push_msg(*e, i as u64);
    }
    assert_eq!(db.last_n_key_ups_reversed(2), vec![release(64, 6), release(62, 4)]);
    assert_eq!(db.last_n_key_downs_reversed(2), vec![press(64, 5), press(62, 3)]);
    assert_eq!(db.last_n_key_ups_reversed(10).len(), 3);
    assert!(db.last_n_key_downs_reversed(0).is_empty());
}

#[test]
fn always_true_holds() {
    assert!(always_true(&press(0, 0)));
    assert!(always_true(&release(127, u64::MAX)));
}
