//! The dispatcher: what becomes of the store, and what is to be done, when
//! an event or a control message arrives.

use crate::key_handler::{ControlMessage, KeyDb};
use crate::log_model::{chronological, newest_matching, of_kind, StoreState};
use crate::midi::{decimal_digits, decimal_text, message_text_of, KeyMessage, MidiMessageTypes};
use crate::music::{
    detect_run, held_in_latest, is_minor_maj_7_chord_in_holds, minor_maj_7_keys, run_matches,
    scale_matches, scale_matches_increments,
};
use vstd::prelude::*;
use vstd::string::*;

verus! {

/// The heartbeats for which a run may stay idle.
pub const HEARTBEATS_PER_AUTO_NEW_RUN: usize = 100;

/// One thing that the dispatcher asks its surroundings to do.
#[derive(Debug, Clone, Copy, PartialEq, Eq, Structural)]
pub enum DispatchAction {
    /// Print the state of the store.
    Print,
    /// Hand the event on to the practice program.
    Forward(KeyMessage),
    /// Put a control message into the queue of control messages.
    Enqueue(ControlMessage),
}

/// A detector that says when a run has ended.
pub enum RunEndListener {
    /// The whole log is a scale with these intervals.
    Scale { deltas: [u8; 7] },
    /// The most recent note-offs are a run with these increments.
    IntervalRun { increments: Vec<i8> },
    /// The minor chord with a major seventh on this key sounds.
    HeldChord { root_key: u8 },
}

impl RunEndListener {
    /// The detector can be asked: its run has a length that can be counted,
    /// and its chord lies within the keys.
    pub open spec fn wf(&self) -> bool {
        match self {
            RunEndListener::Scale { deltas } => true,
            RunEndListener::IntervalRun { increments } => increments@.len() < usize::MAX,
            RunEndListener::HeldChord { root_key } => root_key + 11 <= u8::MAX,
        }
    }

    /// Whether the detector finds its pattern in the store.
    pub open spec fn fires(&self, store: StoreState) -> bool {
        match self {
            RunEndListener::Scale { deltas } => scale_matches(store.log, deltas@),
            RunEndListener::IntervalRun { increments } => {
                let ups = newest_matching(
                    store.log,
                    of_kind(MidiMessageTypes::NoteOff),
                    (increments@.len() + 1) as nat,
                );
                ups.len() == increments@.len() + 1 && run_matches(ups, increments@)
            },
            RunEndListener::HeldChord { root_key } => held_in_latest(
                store.holds,
                minor_maj_7_keys(*root_key),
            ),
        }
    }

    /// Looks through the store after a key was pressed, and says whether the
    /// run has ended.
    pub fn on_keypress(&self, key_db: &KeyDb, _latest: KeyMessage) -> (ended: bool)
        requires
            self.wf(),
        ensures
            ended == self.fires(key_db@),
    {
        match self {
            RunEndListener::Scale { deltas } => {
                let log = key_db.flat_message_log();
                scale_matches_increments(&log, *deltas)
            },
            RunEndListener::IntervalRun { increments } => {
                let ups = key_db.last_n_key_ups_reversed(increments.len() + 1);
                if ups.len() == increments.len() + 1 {
                    detect_run(ups.as_slice(), increments.as_slice()).is_some()
                } else {
                    false
                }
            },
            RunEndListener::HeldChord { root_key } => {
                let holds = key_db.get_hold_data();
                is_minor_maj_7_chord_in_holds(&holds, *root_key)
            },
        }
    }
}

/// Whether one of the detectors finds its pattern in the store.
pub open spec fn any_fires(listeners: Seq<RunEndListener>, store: StoreState) -> bool {
    exists|i: int| 0 <= i < listeners.len() && (#[trigger] listeners[i]).fires(store)
}

/// Whether every detector can be asked.
pub open spec fn all_wf(listeners: Seq<RunEndListener>) -> bool {
    forall|i: int| 0 <= i < listeners.len() ==> (#[trigger] listeners[i]).wf()
}

/// What the dispatcher holds: the store, the greatest timestamp that it has
/// seen, the heartbeats for which the run has been idle, and the number of
/// heartbeats that a run may stay idle.
#[verifier::ext_equal]
pub struct DispatchState {
    pub store: StoreState,
    pub most_recent_insert: u64,
    pub heartbeat_count: nat,
    pub idle_limit: nat,
}

impl DispatchState {
    /// The state after the run was ended: the store reset, the heartbeats
    /// counted from nothing.
    pub open spec fn ended(self) -> DispatchState {
        DispatchState {
            store: self.store.cleared(),
            most_recent_insert: self.most_recent_insert,
            heartbeat_count: 0,
            idle_limit: self.idle_limit,
        }
    }

    /// The state after the event `msg` was taken into the store at `tick`.
    /// The run is idle no longer: the heartbeats are counted from nothing.
    pub open spec fn stored(self, msg: KeyMessage, tick: u64) -> DispatchState {
        DispatchState {
            store: self.store.pushed(msg, tick),
            most_recent_insert: if msg.timestamp > self.most_recent_insert {
                msg.timestamp
            } else {
                self.most_recent_insert
            },
            heartbeat_count: 0,
            idle_limit: self.idle_limit,
        }
    }

    /// The state and the actions after the event `msg` was accepted at
    /// `tick`: it is taken into the store; if a detector then finds its
    /// pattern, a new run is asked for; and the event is handed on.
    pub open spec fn accepted(self, msg: KeyMessage, tick: u64, listeners: Seq<RunEndListener>) -> (
        DispatchState,
        Seq<DispatchAction>,
    ) {
        let stored = self.stored(msg, tick);
        if any_fires(listeners, stored.store) {
            (
                stored,
                seq![
                    DispatchAction::Enqueue(ControlMessage::NewRun),
                    DispatchAction::Forward(msg),
                ],
            )
        } else {
            (stored, seq![DispatchAction::Forward(msg)])
        }
    }

    /// The state after a heartbeat: the heartbeat is counted, unless the
    /// run is past its idle time already.
    pub open spec fn counted(self) -> DispatchState {
        DispatchState {
            store: self.store,
            most_recent_insert: self.most_recent_insert,
            heartbeat_count: if self.heartbeat_count <= self.idle_limit {
                self.heartbeat_count + 1
            } else {
                self.heartbeat_count
            },
            idle_limit: self.idle_limit,
        }
    }

    /// The state and the actions after a heartbeat: the heartbeat is
    /// counted, and for a run that has then been idle for more heartbeats
    /// than it may, a new run is asked for.
    pub open spec fn beaten(self) -> (DispatchState, Seq<DispatchAction>) {
        let counted = self.counted();
        if counted.heartbeat_count > counted.idle_limit {
            (counted, seq![DispatchAction::Enqueue(ControlMessage::NewRun)])
        } else {
            (counted, Seq::empty())
        }
    }

    /// The state and the actions after a control message: a heartbeat is
    /// counted; a new run ends the run and has the state printed; a print
    /// has the state printed and changes nothing.
    pub open spec fn controlled(self, msg: ControlMessage) -> (DispatchState, Seq<DispatchAction>) {
        match msg {
            ControlMessage::Heartbeat => self.beaten(),
            ControlMessage::NewRun => (self.ended(), seq![DispatchAction::Print]),
            ControlMessage::Print => (self, seq![DispatchAction::Print]),
        }
    }

    /// The store is well formed, and the heartbeats are no more than one run
    /// can count.
    pub open spec fn wf(self) -> bool {
        &&& self.store.wf()
        &&& self.idle_limit < usize::MAX
        &&& self.heartbeat_count <= self.idle_limit + 1
    }
}

/// The text of the events of a log: each event as its text, and before
/// each but the first the time that passed since the event before it.
pub open spec fn log_entries_text(log: Seq<KeyMessage>) -> Seq<char>
    decreases log.len(),
{
    if log.len() == 0 {
        Seq::empty()
    } else if log.len() == 1 {
        message_text_of(log[0])
    } else {
        log_entries_text(log.drop_last()) + decimal_digits(
            (log.last().timestamp - log[log.len() - 2].timestamp) as nat,
        ) + seq![' '] + message_text_of(log.last())
    }
}

/// The line that shows the log.
pub open spec fn log_line_text(most_recent_insert: u64, log: Seq<KeyMessage>) -> Seq<char> {
    "KeyBuffer [ most_recent_insert = "@ + decimal_digits(most_recent_insert as nat)
        + " ] [ keys = "@ + log_entries_text(log) + "]"@
}

/// Run reset. After a new run the log and the hold projection are empty,
/// and the run has been idle for no heartbeat.
pub proof fn lemma_new_run_resets(state: DispatchState)
    ensures
        state.controlled(ControlMessage::NewRun).0.store.log == Seq::<KeyMessage>::empty(),
        state.controlled(ControlMessage::NewRun).0.store.holds == Map::<
            u64,
            Seq<crate::key_handler::KeyStatus>,
        >::empty(),
        state.controlled(ControlMessage::NewRun).0.heartbeat_count == 0,
        state.controlled(ControlMessage::NewRun).0.store.capacity == state.store.capacity,
        state.wf() ==> state.controlled(ControlMessage::NewRun).0.wf(),
{
}

/// The dispatcher: owns the store, takes in events and control messages.
pub struct KeyLogAndDispatch {
    key_db: KeyDb,
    most_recent_insert: u64,
    keypress_listeners: Vec<RunEndListener>,
    heartbeat_count: usize,
    idle_limit: usize,
}

impl View for KeyLogAndDispatch {
    type V = DispatchState;

    closed spec fn view(&self) -> DispatchState {
        DispatchState {
            store: self.key_db@,
            most_recent_insert: self.most_recent_insert,
            heartbeat_count: self.heartbeat_count as nat,
            idle_limit: self.idle_limit as nat,
        }
    }
}

impl KeyLogAndDispatch {
    /// The detectors that are asked after each event.
    pub closed spec fn listeners(&self) -> Seq<RunEndListener> {
        self.keypress_listeners@
    }

    /// The state is well formed, and every detector can be asked.
    pub open spec fn wf(&self) -> bool {
        self@.wf() && all_wf(self.listeners())
    }

    /// A dispatcher over the store `key_db`, with no detector, that lets a
    /// run stay idle for a hundred heartbeats.
    pub fn new(key_db: KeyDb) -> (dispatch: KeyLogAndDispatch)
        requires
            key_db@.wf(),
        ensures
            dispatch.wf(),
            dispatch.listeners() == Seq::<RunEndListener>::empty(),
            dispatch@ == (DispatchState {
                store: key_db@,
                most_recent_insert: 0,
                heartbeat_count: 0,
                idle_limit: HEARTBEATS_PER_AUTO_NEW_RUN as nat,
            }),
    {
        KeyLogAndDispatch::with_idle_limit(key_db, HEARTBEATS_PER_AUTO_NEW_RUN)
    }

    /// A dispatcher over the store `key_db`, with no detector, that lets a
    /// run stay idle for `idle_limit` heartbeats.
    pub fn with_idle_limit(key_db: KeyDb, idle_limit: usize) -> (dispatch: KeyLogAndDispatch)
        requires
            key_db@.wf(),
            idle_limit < usize::MAX,
        ensures
            dispatch.wf(),
            dispatch.listeners() == Seq::<RunEndListener>::empty(),
            dispatch@ == (DispatchState {
                store: key_db@,
                most_recent_insert: 0,
                heartbeat_count: 0,
                idle_limit: idle_limit as nat,
            }),
    {
        KeyLogAndDispatch {
            key_db,
            most_recent_insert: 0,
            keypress_listeners: Vec::new(),
            heartbeat_count: 0,
            idle_limit,
        }
    }

    /// Registers a detector.
    pub fn add_listener(&mut self, listener: RunEndListener)
        requires
            old(self).wf(),
            listener.wf(),
        ensures
            final(self).wf(),
            final(self)@ == old(self)@,
            final(self).listeners() == old(self).listeners().push(listener),
    {
        self.keypress_listeners.push(listener);
        assert forall|i: int| 0 <= i < self.listeners().len() implies (#[trigger] self.listeners()[
            i
        ]).wf() by {
            if i < old(self).listeners().len() {
                assert(self.listeners()[i] == old(self).listeners()[i]);
            }
        }
    }

    /// The heartbeats for which the run has been idle.
    pub fn heartbeat_count(&self) -> (count: usize)
        ensures
            count == self@.heartbeat_count,
    {
        self.heartbeat_count
    }

    /// The greatest timestamp among the events accepted so far.
    pub fn most_recent_insert(&self) -> (timestamp: u64)
        ensures
            timestamp == self@.most_recent_insert,
    {
        self.most_recent_insert
    }

    /// The store.
    pub fn key_db(&self) -> (key_db: &KeyDb)
        ensures
            key_db@ == self@.store,
    {
        &self.key_db
    }

    /// Accepts the event `message`, which arrived at tick `tick`.
    pub fn accept(&mut self, message: KeyMessage, tick: u64) -> (actions: Vec<DispatchAction>)
        requires
            old(self).wf(),
        ensures
            final(self).wf(),
            final(self).listeners() == old(self).listeners(),
            final(self)@ == old(self)@.accepted(message, tick, old(self).listeners()).0,
            actions@ == old(self)@.accepted(message, tick, old(self).listeners()).1,
    {
        let mut actions: Vec<DispatchAction> = Vec::new();
        self.key_db.push_msg(message, tick);
        if message.timestamp > self.most_recent_insert {
            self.most_recent_insert = message.timestamp;
        }
        self.heartbeat_count = 0;
        if self.call_listeners(message) {
            actions.push(DispatchAction::Enqueue(ControlMessage::NewRun));
        }
        actions.push(DispatchAction::Forward(message));
        assert(actions@ =~= old(self)@.accepted(message, tick, old(self).listeners()).1);
        actions
    }

    /// Ends the run: resets the store, counts the heartbeats from nothing,
    /// and has the state printed.
    fn end_run(&mut self, actions: &mut Vec<DispatchAction>)
        requires
            old(self).wf(),
        ensures
            final(self).wf(),
            final(self).listeners() == old(self).listeners(),
            final(self)@ == old(self)@.ended(),
            final(actions)@ == old(actions)@.push(DispatchAction::Print),
    {
        self.key_db.clear();
        self.heartbeat_count = 0;
        actions.push(DispatchAction::Print);
    }

    /// Asks each detector, and says whether one of them finds its pattern.
    fn call_listeners(&self, message: KeyMessage) -> (hit_end: bool)
        requires
            self.wf(),
        ensures
            hit_end == any_fires(self.listeners(), self@.store),
    {
        let mut hit_end = false;
        let mut i: usize = 0;
        while i < self.keypress_listeners.len()
            invariant
                i <= self.keypress_listeners@.len(),
                self.wf(),
                hit_end == exists|j: int|
                    0 <= j < i && (#[trigger] self.keypress_listeners@[j]).fires(self.key_db@),
            decreases self.keypress_listeners@.len() - i,
        {
            assert(self.listeners()[i as int].wf());
            hit_end = hit_end || self.keypress_listeners[i].on_keypress(&self.key_db, message);
            i += 1;
        }
        hit_end
    }

    /// Takes in a control message.
    pub fn handle_control_message(&mut self, msg: ControlMessage) -> (actions: Vec<DispatchAction>)
        requires
            old(self).wf(),
        ensures
            final(self).wf(),
            final(self).listeners() == old(self).listeners(),
            final(self)@ == old(self)@.controlled(msg).0,
            actions@ == old(self)@.controlled(msg).1,
    {
        let mut actions: Vec<DispatchAction> = Vec::new();
        match msg {
            ControlMessage::Heartbeat => self.heartbeat(&mut actions),
            ControlMessage::NewRun => self.end_run(&mut actions),
            ControlMessage::Print => actions.push(DispatchAction::Print),
        }
        assert(actions@ =~= old(self)@.controlled(msg).1);
        actions
    }

    /// Counts a heartbeat, and asks for a new run where the run has been
    /// idle for too long.
    fn heartbeat(&mut self, actions: &mut Vec<DispatchAction>)
        requires
            old(self).wf(),
        ensures
            final(self).wf(),
            final(self).listeners() == old(self).listeners(),
            final(self)@ == old(self)@.beaten().0,
            final(actions)@ == old(actions)@ + old(self)@.beaten().1,
    {
        if self.heartbeat_count <= self.idle_limit {
            self.heartbeat_count += 1;
        }
        if self.heartbeat_count > self.idle_limit {
            actions.push(DispatchAction::Enqueue(ControlMessage::NewRun));
        }
        assert(actions@ =~= old(actions)@ + old(self)@.beaten().1);
    }

    /// The line that shows the log: the greatest timestamp seen, and the
    /// events with the time that passed between them.
    pub fn log_line(&self) -> (line: String)
        requires
            chronological(self@.store.log),
        ensures
            line@ == log_line_text(self@.most_recent_insert, self@.store.log),
    {
        let log = self.key_db.flat_message_log();
        let mut line = String::from_str("KeyBuffer [ most_recent_insert = ");
        let stamp = decimal_text(self.most_recent_insert);
        line.append(stamp.as_str());
        line.append(" ] [ keys = ");
        let ghost head = line@;
        let mut i: usize = 0;
        assert(log@.take(0) =~= Seq::<KeyMessage>::empty());
        while i < log.len()
            invariant
                i <= log.len(),
                chronological(log@),
                line@ == head + log_entries_text(log@.take(i as int)),
            decreases log.len() - i,
        {
            let ghost seen = log@.take(i + 1);
            assert(seen.drop_last() =~= log@.take(i as int));
            if i > 0 {
                let rest = decimal_text(log[i].timestamp - log[i - 1].timestamp);
                line.append(rest.as_str());
                proof {
                    reveal_strlit(" ");
                }
                line.append(" ");
            }
            let text = log[i].to_string();
            line.append(text.as_str());
            assert(line@ =~= head + log_entries_text(seen));
            i += 1;
        }
        assert(log@.take(log.len() as int) =~= log@);
        line.append("]");
        assert(line@ =~= log_line_text(self@.most_recent_insert, self@.store.log));
        line
    }
}

} // verus!
