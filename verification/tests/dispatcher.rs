use midi_hack::dispatch::{
    DispatchAction, KeyLogAndDispatch, RunEndListener, HEARTBEATS_PER_AUTO_NEW_RUN,
};
use midi_hack::key_handler::{ControlMessage, KeyDb};
use midi_hack::midi::{KeyMessage, MidiMessageTypes};

fn key_down(key: u8, timestamp: u64) -> KeyMessage {
    KeyMessage { timestamp, message_type: MidiMessageTypes::NoteOn, key }
}

fn key_up(key: u8, timestamp: u64) -> KeyMessage {
    KeyMessage { timestamp, message_type: MidiMessageTypes::NoteOff, key }
}

fn new_run() -> DispatchAction {
    DispatchAction::Enqueue(ControlMessage::NewRun)
}

fn dispatcher() -> KeyLogAndDispatch {
    KeyLogAndDispatch::new(KeyDb::new(256))
}

#[test]
fn accept_stores_and_forwards() {
    let mut dispatch = dispatcher();
    let actions = dispatch.accept(key_down(60, 5), 100);
    assert_eq!(actions, vec![DispatchAction::Forward(key_down(60, 5))]);
    assert_eq!(dispatch.key_db().flat_message_log(), vec![key_down(60, 5)]);
    assert_eq!(dispatch.key_db().get_hold_data().len(), 1);
    assert_eq!(dispatch.most_recent_insert(), 5);
}

#[test]
fn most_recent_insert_is_the_greatest_timestamp() {
    let mut dispatch = dispatcher();
    dispatch.accept(key_down(60, 50), 100);
    dispatch.accept(key_up(60, 20), 200);
    assert_eq!(dispatch.most_recent_insert(), 50);
    dispatch.accept(key_down(61, 51), 300);
    assert_eq!(dispatch.most_recent_insert(), 51);
}

#[test]
fn new_run_resets_store_and_heartbeats() {
    let mut dispatch = dispatcher();
    dispatch.accept(key_down(60, 5), 100);
    dispatch.accept(key_up(60, 6), 200);
    for _ in 0..3 {
        dispatch.handle_control_message(ControlMessage::Heartbeat);
    }
    assert_eq!(dispatch.heartbeat_count(), 3);
    let actions = dispatch.handle_control_message(ControlMessage::NewRun);
    assert_eq!(actions, vec![DispatchAction::Print]);
    assert!(dispatch.key_db().flat_message_log().is_empty());
    assert!(dispatch.key_db().get_hold_data().is_empty());
    assert_eq!(dispatch.heartbeat_count(), 0);
    assert_eq!(dispatch.most_recent_insert(), 6);
}

#[test]
fn print_changes_nothing() {
    let mut dispatch = dispatcher();
    dispatch.accept(key_down(60, 5), 100);
    dispatch.handle_control_message(ControlMessage::Heartbeat);
    let actions = dispatch.handle_control_message(ControlMessage::Print);
    assert_eq!(actions, vec![DispatchAction::Print]);
    assert_eq!(dispatch.key_db().flat_message_log(), vec![key_down(60, 5)]);
    assert_eq!(dispatch.heartbeat_count(), 1);
}

#[test]
fn an_event_ends_the_idle_time() {
    let mut dispatch = dispatcher();
    dispatch.handle_control_message(ControlMessage::Heartbeat);
    dispatch.handle_control_message(ControlMessage::Heartbeat);
    assert_eq!(dispatch.heartbeat_count(), 2);
    dispatch.accept(key_down(60, 5), 100);
    assert_eq!(dispatch.heartbeat_count(), 0);
    for _ in 0..100 {
        assert!(dispatch.handle_control_message(ControlMessage::Heartbeat).is_empty());
    }
    dispatch.accept(key_up(60, 6), 200);
    for _ in 0..100 {
        assert!(dispatch.handle_control_message(ControlMessage::Heartbeat).is_empty());
    }
    assert_eq!(dispatch.handle_control_message(ControlMessage::Heartbeat), vec![new_run()]);
}

#[test]
fn idle_run_asks_for_a_new_run_after_more_than_a_hundred_heartbeats() {
    let mut dispatch = dispatcher();
    dispatch.accept(key_down(60, 5), 100);
    assert_eq!(HEARTBEATS_PER_AUTO_NEW_RUN, 100);
    for beat in 1..=100usize {
        let actions = dispatch.handle_control_message(ControlMessage::Heartbeat);
        assert!(actions.is_empty());
        assert_eq!(dispatch.heartbeat_count(), beat);
    }
    for _ in 0..3 {
        let actions = dispatch.handle_control_message(ControlMessage::Heartbeat);
        assert_eq!(actions, vec![new_run()]);
        assert_eq!(dispatch.heartbeat_count(), 101);
        assert_eq!(dispatch.key_db().flat_message_log().len(), 1);
    }
    let actions = dispatch.handle_control_message(ControlMessage::NewRun);
    assert_eq!(actions, vec![DispatchAction::Print]);
    assert!(dispatch.key_db().flat_message_log().is_empty());
    assert!(dispatch.key_db().get_hold_data().is_empty());
    assert_eq!(dispatch.heartbeat_count(), 0);
    assert!(dispatch.handle_control_message(ControlMessage::Heartbeat).is_empty());
    assert_eq!(dispatch.heartbeat_count(), 1);
}

#[test]
fn idle_limit_can_be_set() {
    let mut dispatch = KeyLogAndDispatch::with_idle_limit(KeyDb::new(4), 2);
    dispatch.accept(key_down(60, 5), 100);
    assert!(dispatch.handle_control_message(ControlMessage::Heartbeat).is_empty());
    assert!(dispatch.handle_control_message(ControlMessage::Heartbeat).is_empty());
    assert_eq!(dispatch.handle_control_message(ControlMessage::Heartbeat), vec![new_run()]);
    assert_eq!(dispatch.heartbeat_count(), 3);
    let mut restless = KeyLogAndDispatch::with_idle_limit(KeyDb::new(4), 0);
    assert_eq!(restless.handle_control_message(ControlMessage::Heartbeat), vec![new_run()]);
    assert_eq!(restless.heartbeat_count(), 1);
}

#[test]
fn scale_listener_asks_for_a_new_run() {
    let mut dispatch = dispatcher();
    dispatch.add_listener(RunEndListener::Scale { deltas: [2, 2, 1, 2, 2, 2, 1] });
    let keys = [60u8, 62, 64, 65, 67, 69, 71, 72];
    let mut stamp = 0;
    for (i, key) in keys.iter().enumerate() {
        stamp += 1;
        let actions = dispatch.accept(key_down(*key, stamp), stamp * 100);
        assert_eq!(actions, vec![DispatchAction::Forward(key_down(*key, stamp))]);
        stamp += 1;
        let actions = dispatch.accept(key_up(*key, stamp), stamp * 100);
        if i < 7 {
            assert_eq!(actions, vec![DispatchAction::Forward(key_up(*key, stamp))]);
        } else {
            assert_eq!(actions, vec![new_run(), DispatchAction::Forward(key_up(*key, stamp))]);
        }
    }
    assert_eq!(dispatch.key_db().flat_message_log().len(), 16);
    let actions = dispatch.handle_control_message(ControlMessage::NewRun);
    assert_eq!(actions, vec![DispatchAction::Print]);
    assert!(dispatch.key_db().flat_message_log().is_empty());
    assert!(dispatch.key_db().get_hold_data().is_empty());
    assert_eq!(dispatch.heartbeat_count(), 0);
    assert_eq!(dispatch.most_recent_insert(), 16);
}

#[test]
fn interval_run_listener_asks_for_a_new_run() {
    let mut dispatch = dispatcher();
    dispatch.add_listener(RunEndListener::IntervalRun { increments: vec![4, 3] });
    let mut last = Vec::new();
    for (i, key) in [50u8, 60, 64, 67].iter().enumerate() {
        dispatch.accept(key_down(*key, i as u64), i as u64);
        last = dispatch.accept(key_up(*key, i as u64), i as u64);
    }
    assert_eq!(last, vec![new_run(), DispatchAction::Forward(key_up(67, 3))]);
}

#[test]
fn interval_run_listener_waits_for_enough_note_offs() {
    let mut dispatch = dispatcher();
    dispatch.add_listener(RunEndListener::IntervalRun { increments: vec![4, 3] });
    dispatch.accept(key_down(64, 0), 0);
    dispatch.accept(key_up(64, 1), 1);
    dispatch.accept(key_down(67, 2), 2);
    let actions = dispatch.accept(key_up(67, 3), 3);
    assert_eq!(actions, vec![DispatchAction::Forward(key_up(67, 3))]);
    assert_eq!(dispatch.key_db().flat_message_log().len(), 4);
}

#[test]
fn held_chord_listener_asks_for_a_new_run() {
    let mut dispatch = dispatcher();
    dispatch.add_listener(RunEndListener::IntervalRun { increments: vec![1, 1, 1] });
    dispatch.add_listener(RunEndListener::HeldChord { root_key: 60 });
    let mut last = Vec::new();
    for (i, key) in [60u8, 63, 67, 71].iter().enumerate() {
        last = dispatch.accept(key_down(*key, i as u64), i as u64 * 100);
    }
    assert_eq!(last, vec![new_run(), DispatchAction::Forward(key_down(71, 3))]);
    assert_eq!(dispatch.key_db().get_hold_data().len(), 4);
}

#[test]
fn listeners_hold_their_settings() {
    let scale = RunEndListener::Scale { deltas: [2, 1, 2, 2, 1, 3, 1] };
    let mut db = KeyDb::new(8);
    assert!(!scale.on_keypress(&db, key_down(60, 0)));
    let keys = [57u8, 59, 60, 62, 64, 65, 68, 69];
    for (i, key) in keys.iter().enumerate() {
        db.push_msg(key_down(*key, i as u64), i as u64);
        db.push_msg(key_up(*key, i as u64), i as u64);
    }
    assert!(scale.on_keypress(&db, key_up(69, 7)));
    let major = RunEndListener::Scale { deltas: [2, 2, 1, 2, 2, 2, 1] };
    assert!(!major.on_keypress(&db, key_up(69, 7)));
    let empty_run = RunEndListener::IntervalRun { increments: Vec::new() };
    assert!(empty_run.on_keypress(&db, key_up(69, 7)));
    assert!(!empty_run.on_keypress(&KeyDb::new(8), key_up(69, 7)));
}

#[test]
fn log_line_shows_the_events_and_the_ticks_between_them() {
    let mut dispatch = dispatcher();
    assert_eq!(dispatch.log_line(), "KeyBuffer [ most_recent_insert = 0 ] [ keys = ]");
    dispatch.accept(key_down(60, 1000), 100);
    assert_eq!(
        dispatch.log_line(),
        "KeyBuffer [ most_recent_insert = 1000 ] [ keys = NoteOnC5 ]"
    );
    dispatch.accept(key_up(60, 1250), 200);
    dispatch.accept(key_down(70, 1250), 200);
    assert_eq!(
        dispatch.log_line(),
        "KeyBuffer [ most_recent_insert = 1250 ] [ keys = NoteOnC5 250 NoteOffC5 0 NoteOnBb5 ]"
    );
}
