//! The pattern matchers: pure functions over the log and the hold
//! projection that recognise scales, interval runs and chords.

use crate::hold_model::{is_down_like, is_latest_tick, latest_tick, lemma_latest_tick_unique};
use crate::key_handler::{buckets_of, last_bucket, KeyStatus, TimeBucketedSparseKeyData};
use crate::log_model::{chronological, of_kind};
use crate::midi::{pitch_class, pitch_class_of, KeyMessage, MidiMessageTypes};
use std::collections::HashSet;
use vstd::prelude::*;

verus! {

/// The span of time within which the note-ons of one chord arrive.
pub const CHORD_WINDOW: u64 = 30000;

/// The key number of a C, the root of the chord that the log is searched
/// for.
pub const CHORD_ROOT: u8 = 60;

/// The number of events that one octave of a scale takes: eight notes, each
/// pressed and released.
pub const SCALE_EVENTS: usize = 16;

/// Whether the pair of events at position `pair` is the press and the
/// release of one key, and, after the first pair, lies above the pair before
/// it by the interval that the pattern has for its position.
///
/// The pattern covers one octave: the positions at which a further octave
/// would start have no interval, and no pair matches there.
pub open spec fn pair_matches(events: Seq<KeyMessage>, deltas: Seq<u8>, pair: int) -> bool {
    let down = events[2 * pair];
    let up = events[2 * pair + 1];
    &&& down.message_type == MidiMessageTypes::NoteOn
    &&& up.message_type == MidiMessageTypes::NoteOff
    &&& down.key == up.key
    &&& pair > 0 ==> {
        let previous = events[2 * (pair - 1)];
        &&& pair % 8 != 0
        &&& down.key > previous.key
        &&& down.key - previous.key == deltas[pair % 8 - 1]
    }
}

/// Whether the events are a scale with the given intervals: a positive
/// multiple of sixteen events, every pair of which matches.
pub open spec fn scale_matches(events: Seq<KeyMessage>, deltas: Seq<u8>) -> bool {
    &&& events.len() >= SCALE_EVENTS
    &&& events.len() % (SCALE_EVENTS as nat) == 0
    &&& forall|pair: int| 0 <= pair < events.len() / 2 ==> pair_matches(events, deltas, pair)
}

/// Whether each step from an event to the one before it in time, in a run
/// given newest first, is the increment that the template has for it: the
/// last increment for the newest step, the first for the oldest.
pub open spec fn run_matches(events: Seq<KeyMessage>, increments: Seq<i8>) -> bool {
    forall|i: int| 1 <= i < events.len() ==> step_matches(events, increments, i)
}

/// Whether the step from the event at `i`, given newest first, to the event
/// after it in time is the increment that the template has for it.
pub open spec fn step_matches(events: Seq<KeyMessage>, increments: Seq<i8>, i: int) -> bool {
    events[i - 1].key - events[i].key == increments[increments.len() - i]
}

/// The root of the run if it matches the template: its oldest event.
pub open spec fn detected_run(events: Seq<KeyMessage>, increments: Seq<i8>) -> Option<KeyMessage> {
    if run_matches(events, increments) {
        Some(events.last())
    } else {
        None
    }
}

/// The note-ons of a log, in order.
pub open spec fn key_downs(log: Seq<KeyMessage>) -> Seq<KeyMessage> {
    log.filter(of_kind(MidiMessageTypes::NoteOn))
}

/// Whether `start..end` is the run that begins at `start`: the event at
/// `start` and the events after it whose timestamps are less than `window`
/// later, up to the first whose timestamp is not.
pub open spec fn is_chord_run(downs: Seq<KeyMessage>, start: int, end: int, window: u64) -> bool {
    &&& 0 <= start < end <= downs.len()
    &&& forall|j: int|
        start < j < end ==> (#[trigger] downs[j]).timestamp - downs[start].timestamp < window
    &&& end < downs.len() ==> downs[end].timestamp - downs[start].timestamp >= window
}

/// Whether a run begins at `start` when the events are divided into runs:
/// the first run begins at the first event, and each further run where the
/// run before it ends.
pub open spec fn is_run_start(downs: Seq<KeyMessage>, start: int, window: u64) -> bool
    decreases start,
{
    start == 0 || (0 < start && exists|before: int|
        0 <= before < start && #[trigger] is_chord_run(downs, before, start, window)
            && is_run_start(downs, before, window))
}

/// Whether one of the events has the pitch class `class`.
pub open spec fn has_pitch_class(run: Seq<KeyMessage>, class: int) -> bool {
    exists|i: int| 0 <= i < run.len() && pitch_class_of(#[trigger] run[i].key) == class
}

/// The pitch classes of the events.
pub open spec fn pitch_classes(run: Seq<KeyMessage>) -> Set<int> {
    Set::new(|class: int| has_pitch_class(run, class))
}

/// The pitch class that lies `offset` semitones above the key `root`.
pub open spec fn class_above(root: u8, offset: int) -> int {
    (pitch_class_of(root) + offset) % 12
}

/// The pitch classes of the minor chord with a major seventh on `root`: the
/// root, the minor third, the fifth and the major seventh.
pub open spec fn minor_maj_7_classes(root: u8) -> Set<int> {
    set![class_above(root, 0), class_above(root, 3), class_above(root, 7), class_above(root, 11)]
}

/// Whether the events are the notes of the minor chord with a major seventh
/// on `root`, in any order and any octave: their pitch classes are those of
/// the chord, all of them and no other.
pub open spec fn spells_minor_maj_7(run: Seq<KeyMessage>, root: u8) -> bool {
    pitch_classes(run) == minor_maj_7_classes(root)
}

/// Whether a log of at least eight events, four of them note-ons, holds the
/// chord on `root`: one of the runs into which its note-ons are divided
/// spells it.
pub open spec fn minor_maj_7_in_log(log: Seq<KeyMessage>, root: u8, window: u64) -> bool {
    &&& log.len() >= 8
    &&& key_downs(log).len() >= 4
    &&& exists|start: int, end: int|
        #![trigger key_downs(log).subrange(start, end)]
        is_run_start(key_downs(log), start, window) && is_chord_run(
            key_downs(log),
            start,
            end,
            window,
        ) && spells_minor_maj_7(key_downs(log).subrange(start, end), root)
}

/// Whether every key of `keys` has an entry in the bucket that says it is
/// sounding.
pub open spec fn all_down(bucket: Seq<KeyStatus>, keys: Set<u8>) -> bool {
    forall|key: u8| keys.contains(key) ==> is_down_in(bucket, key)
}

/// Whether a key has an entry in the bucket that says it is sounding.
pub open spec fn is_down_in(bucket: Seq<KeyStatus>, key: u8) -> bool {
    exists|i: int|
        0 <= i < bucket.len() && (#[trigger] bucket[i]).key == key && is_down_like(
            bucket[i].status,
        )
}

/// Whether there is a bucket, and every key of `keys` is sounding in the
/// most recent one. Other keys may sound beside them.
pub open spec fn held_in_latest(buckets: Map<u64, Seq<KeyStatus>>, keys: Set<u8>) -> bool {
    !buckets.dom().is_empty() && all_down(buckets[latest_tick(buckets)], keys)
}

/// The keys of the minor chord with a major seventh on `root`.
pub open spec fn minor_maj_7_keys(root: u8) -> Set<u8>
    recommends
        root + 11 <= u8::MAX,
{
    set![root, (root + 3) as u8, (root + 7) as u8, (root + 11) as u8]
}

/// Returns true if the events are an ascending scale with the intervals
/// `proper_deltas`, each note pressed and released before the next.
pub fn scale_matches_increments(key_events: &Vec<KeyMessage>, proper_deltas: [u8; 7]) -> (matches:
    bool)
    ensures
        matches == scale_matches(key_events@, proper_deltas@),
{
    if key_events.len() < SCALE_EVENTS || key_events.len() % SCALE_EVENTS != 0 {
        return false;
    }
    let pairs = key_events.len() / 2;
    let mut pair_based_index: usize = 0;
    let mut base_note = key_events[0].key;
    while pair_based_index < pairs
        invariant
            pairs == key_events.len() / 2,
            pair_based_index <= pairs,
            pair_based_index > 0 ==> base_note == key_events@[2 * (pair_based_index - 1)].key,
            forall|pair: int|
                0 <= pair < pair_based_index ==> pair_matches(key_events@, proper_deltas@, pair),
        decreases pairs - pair_based_index,
    {
        let e1 = key_events[pair_based_index * 2];
        let e2 = key_events[pair_based_index * 2 + 1];
        if e1.message_type != MidiMessageTypes::NoteOn || e2.message_type
            != MidiMessageTypes::NoteOff {
            assert(!pair_matches(key_events@, proper_deltas@, pair_based_index as int));
            return false;
        }
        if e1.key != e2.key {
            assert(!pair_matches(key_events@, proper_deltas@, pair_based_index as int));
            return false;
        }
        if pair_based_index > 0 {
            if pair_based_index % 8 == 0 {
                assert(!pair_matches(key_events@, proper_deltas@, pair_based_index as int));
                return false;
            }
            if e1.key <= base_note {
                assert(!pair_matches(key_events@, proper_deltas@, pair_based_index as int));
                return false;
            }
            if e1.key - base_note != proper_deltas[(pair_based_index % 8) - 1] {
                assert(!pair_matches(key_events@, proper_deltas@, pair_based_index as int));
                return false;
            }
        }
        assert(pair_matches(key_events@, proper_deltas@, pair_based_index as int));
        base_note = e1.key;
        pair_based_index += 1;
    }
    true
}

/// Takes a run of events, newest first, and returns its root, the oldest
/// event, if the steps between the keys are the increments of
/// `in_order_increments`, which are given oldest step first. Returns `None`
/// if some step differs.
///
/// The run has one event more than the template has increments.
pub fn detect_run(reverse_chron_key_events: &[KeyMessage], in_order_increments: &[i8]) -> (root:
    Option<KeyMessage>)
    requires
        reverse_chron_key_events@.len() == in_order_increments@.len() + 1,
    ensures
        root == detected_run(reverse_chron_key_events@, in_order_increments@),
{
    let incs_len = in_order_increments.len();
    let mut last_event = reverse_chron_key_events[0];
    let mut i: usize = 1;
    while i < reverse_chron_key_events.len()
        invariant
            1 <= i <= reverse_chron_key_events@.len(),
            incs_len == in_order_increments@.len(),
            reverse_chron_key_events@.len() == incs_len + 1,
            last_event == reverse_chron_key_events@[i - 1],
            forall|j: int|
                1 <= j < i ==> step_matches(reverse_chron_key_events@, in_order_increments@, j),
        decreases reverse_chron_key_events@.len() - i,
    {
        let current_event = reverse_chron_key_events[i];
        if last_event.key as i16 - current_event.key as i16 != in_order_increments[incs_len
            - i] as i16 {
            assert(!step_matches(reverse_chron_key_events@, in_order_increments@, i as int));
            return None;
        }
        last_event = current_event;
        i += 1;
    }
    assert(run_matches(reverse_chron_key_events@, in_order_increments@));
    Some(last_event)
}

/// A run of events and a template of increments that do not fit each other:
/// the run must have one event more than the template has increments.
#[derive(Debug, Clone, Copy, PartialEq, Eq, Structural)]
pub struct RunLengthMismatch {
    pub events: usize,
    pub increments: usize,
}

/// As `detect_run`, for a caller that has not checked the lengths: reports
/// a run and a template that do not fit each other as an error.
pub fn checked_detect_run(
    reverse_chron_key_events: &[KeyMessage],
    in_order_increments: &[i8],
) -> (outcome: Result<Option<KeyMessage>, RunLengthMismatch>)
    ensures
        outcome == if reverse_chron_key_events@.len() == in_order_increments@.len() + 1 {
            Ok(detected_run(reverse_chron_key_events@, in_order_increments@))
        } else {
            Err(
                (RunLengthMismatch {
                    events: reverse_chron_key_events@.len() as usize,
                    increments: in_order_increments@.len() as usize,
                }),
            )
        },
{
    let events = reverse_chron_key_events.len();
    let increments = in_order_increments.len();
    if events == 0 || events - 1 != increments {
        Err(RunLengthMismatch { events, increments })
    } else {
        Ok(detect_run(reverse_chron_key_events, in_order_increments))
    }
}

/// The events of a chronological log that satisfy a predicate are
/// chronological among themselves.
pub proof fn lemma_chronological_filter(log: Seq<KeyMessage>, keep: spec_fn(KeyMessage) -> bool)
    requires
        chronological(log),
    ensures
        chronological(log.filter(keep)),
        forall|i: int|
            0 <= i < log.filter(keep).len() ==> log.contains(#[trigger] log.filter(keep)[i]),
    decreases log.len(),
{
    reveal(Seq::filter);
    if log.len() > 0 {
        let earlier = log.drop_last();
        lemma_chronological_filter(earlier, keep);
        let kept = earlier.filter(keep);
        assert forall|i: int| 0 <= i < kept.len() implies log.contains(#[trigger] kept[i])
            && kept[i].timestamp <= log.last().timestamp by {
            let at = choose|at: int| 0 <= at < earlier.len() && earlier[at] == kept[i];
            assert(log[at] == kept[i]);
        }
        if keep(log.last()) {
            assert(log[log.len() - 1] == log.last());
        }
    }
}

/// The note-ons of a chronological log are chronological.
pub proof fn lemma_chronological_key_downs(log: Seq<KeyMessage>)
    requires
        chronological(log),
    ensures
        chronological(key_downs(log)),
{
    lemma_chronological_filter(log, of_kind(MidiMessageTypes::NoteOn));
}

/// Whether the timestamps of a log never decrease.
pub fn is_chronological(log: &Vec<KeyMessage>) -> (ordered: bool)
    ensures
        ordered == chronological(log@),
{
    let mut i: usize = 1;
    while i < log.len()
        invariant
            1 <= i,
            forall|a: int, b: int|
                0 <= a <= b < i && b < log@.len() ==> log@[a].timestamp <= log@[b].timestamp,
        decreases log.len() - i,
    {
        if log[i - 1].timestamp > log[i].timestamp {
            return false;
        }
        assert forall|a: int, b: int|
            0 <= a <= b < i + 1 && b < log@.len() implies log@[a].timestamp
            <= log@[b].timestamp by {
            if b == i && a < i {
                assert(log@[a].timestamp <= log@[i - 1].timestamp);
            }
        }
        i += 1;
    }
    true
}

/// Chord detection tolerance. Keys that sound in a bucket still sound in
/// it where the bucket holds further entries, before them or after.
pub proof fn lemma_all_down_tolerates_more(
    before: Seq<KeyStatus>,
    bucket: Seq<KeyStatus>,
    after: Seq<KeyStatus>,
    keys: Set<u8>,
)
    requires
        all_down(bucket, keys),
    ensures
        all_down(before + bucket + after, keys),
{
    let more = before + bucket + after;
    assert forall|key: u8| keys.contains(key) implies is_down_in(more, key) by {
        assert(is_down_in(bucket, key));
        let i = choose|i: int|
            0 <= i < bucket.len() && (#[trigger] bucket[i]).key == key && is_down_like(
                bucket[i].status,
            );
        assert(more[before.len() + i] == bucket[i]);
    }
}

/// A set of keys is finite: there are no more than 256 keys.
pub proof fn lemma_key_set_finite(keys: Set<u8>)
    ensures
        keys.finite(),
{
    let range = vstd::set_lib::set_int_range(0, 256);
    let narrow = |i: int| i as u8;
    let all = range.map(narrow);
    vstd::set_lib::lemma_int_range(0, 256);
    range.lemma_map_finite(narrow);
    assert forall|key: u8| keys.contains(key) implies all.contains(key) by {
        assert(range.contains(key as int) && narrow(key as int) == key);
    }
    vstd::set_lib::lemma_len_subset(keys, all);
}

/// The note-ons of a log, in order.
fn collect_key_downs(buf: &Vec<KeyMessage>) -> (downs: Vec<KeyMessage>)
    ensures
        downs@ == key_downs(buf@),
{
    let ghost keep = of_kind(MidiMessageTypes::NoteOn);
    let mut downs: Vec<KeyMessage> = Vec::new();
    let mut i: usize = 0;
    assert(buf@.take(0).filter(keep) =~= Seq::<KeyMessage>::empty()) by {
        reveal(Seq::filter);
    }
    while i < buf.len()
        invariant
            i <= buf.len(),
            keep == of_kind(MidiMessageTypes::NoteOn),
            downs@ == buf@.take(i as int).filter(keep),
        decreases buf.len() - i,
    {
        let msg = buf[i];
        proof {
            assert(buf@.take(i + 1) =~= buf@.take(i as int).push(msg));
            buf@.take(i as int).lemma_filter_push(msg, keep);
        }
        if msg.message_type == MidiMessageTypes::NoteOn {
            downs.push(msg);
        }
        i += 1;
    }
    assert(buf@.take(buf.len() as int) =~= buf@);
    downs
}

/// Whether one of the events at `start..end` has the pitch class `class`.
fn run_has_class(downs: &Vec<KeyMessage>, start: usize, end: usize, class: u8) -> (found: bool)
    requires
        start <= end <= downs@.len(),
    ensures
        found == has_pitch_class(downs@.subrange(start as int, end as int), class as int),
{
    let ghost run = downs@.subrange(start as int, end as int);
    let mut i: usize = start;
    while i < end
        invariant
            start <= i <= end <= downs@.len(),
            run == downs@.subrange(start as int, end as int),
            forall|j: int| 0 <= j < i - start ==> pitch_class_of(#[trigger] run[j].key) != class,
        decreases end - i,
    {
        if pitch_class(downs[i].key) == class {
            assert(pitch_class_of(run[i - start].key) == class);
            return true;
        }
        i += 1;
    }
    false
}

/// Whether each of the events at `start..end` has one of four pitch
/// classes.
fn run_stays_within(downs: &Vec<KeyMessage>, start: usize, end: usize, classes: [u8; 4]) -> (within:
    bool)
    requires
        start <= end <= downs@.len(),
    ensures
        within == forall|j: int|
            0 <= j < end - start ==> classes@.contains(
                pitch_class_of(#[trigger] downs@.subrange(start as int, end as int)[j].key) as u8,
            ),
{
    let ghost run = downs@.subrange(start as int, end as int);
    let mut i: usize = start;
    while i < end
        invariant
            start <= i <= end <= downs@.len(),
            run == downs@.subrange(start as int, end as int),
            forall|j: int|
                0 <= j < i - start ==> classes@.contains(
                    pitch_class_of(#[trigger] run[j].key) as u8,
                ),
        decreases end - i,
    {
        let class = pitch_class(downs[i].key);
        if class != classes[0] && class != classes[1] && class != classes[2] && class
            != classes[3] {
            assert(!classes@.contains(class)) by {
                if classes@.contains(class) {
                    let at = choose|at: int| 0 <= at < 4 && classes@[at] == class;
                }
            }
            assert(pitch_class_of(run[i - start].key) == class);
            return false;
        }
        assert(classes@[0] == class || classes@[1] == class || classes@[2] == class || classes@[3]
            == class);
        assert(pitch_class_of(run[i - start].key) == class);
        i += 1;
    }
    true
}

/// Whether the events at `start..end` spell the chord on `root`.
fn run_spells_chord(downs: &Vec<KeyMessage>, start: usize, end: usize, root: u8) -> (spelled: bool)
    requires
        start <= end <= downs@.len(),
    ensures
        spelled == spells_minor_maj_7(downs@.subrange(start as int, end as int), root),
{
    let base = pitch_class(root);
    let classes: [u8; 4] = [base, (base + 3) % 12, (base + 7) % 12, (base + 11) % 12];
    let ghost run = downs@.subrange(start as int, end as int);
    let ghost chord = minor_maj_7_classes(root);
    proof {
        assert(classes@[0] == class_above(root, 0));
        assert(classes@[1] == class_above(root, 3));
        assert(classes@[2] == class_above(root, 7));
        assert(classes@[3] == class_above(root, 11));
        assert forall|class: int| chord.contains(class) <==> 0 <= class < 12 && classes@.contains(
            class as u8,
        ) by {
            if 0 <= class < 12 && classes@.contains(class as u8) {
                let at = choose|at: int| 0 <= at < 4 && classes@[at] == class as u8;
            }
        }
    }
    let spelled = run_stays_within(downs, start, end, classes) && run_has_class(
        downs,
        start,
        end,
        classes[0],
    ) && run_has_class(downs, start, end, classes[1]) && run_has_class(
        downs,
        start,
        end,
        classes[2],
    ) && run_has_class(downs, start, end, classes[3]);
    proof {
        if spelled {
            assert forall|class: int| pitch_classes(run).contains(class) implies chord.contains(
                class,
            ) by {
                let i = choose|i: int|
                    0 <= i < run.len() && pitch_class_of(#[trigger] run[i].key) == class;
                assert(classes@.contains(pitch_class_of(run[i].key) as u8));
            }
            assert(pitch_classes(run) =~= chord);
        } else if pitch_classes(run) == chord {
            assert(chord.contains(class_above(root, 0)));
            assert(chord.contains(class_above(root, 3)));
            assert(chord.contains(class_above(root, 7)));
            assert(chord.contains(class_above(root, 11)));
            assert forall|j: int| 0 <= j < run.len() implies classes@.contains(
                pitch_class_of(#[trigger] run[j].key) as u8,
            ) by {
                assert(has_pitch_class(run, pitch_class_of(run[j].key)));
                assert(pitch_classes(run).contains(pitch_class_of(run[j].key)));
            }
        }
    }
    spelled
}

/// A run has one end only.
pub proof fn lemma_chord_run_end_unique(
    downs: Seq<KeyMessage>,
    start: int,
    end: int,
    other: int,
    window: u64,
)
    requires
        is_chord_run(downs, start, end, window),
        is_chord_run(downs, start, other, window),
    ensures
        end == other,
{
    if other < end {
        assert(downs[other].timestamp - downs[start].timestamp < window);
    } else if end < other {
        assert(downs[end].timestamp - downs[start].timestamp < window);
    }
}

/// No run begins within another: where a run begins at `start` and ends at
/// `end`, the next run begins at `end`.
pub proof fn lemma_no_run_starts_within(
    downs: Seq<KeyMessage>,
    start: int,
    end: int,
    at: int,
    window: u64,
)
    requires
        is_chord_run(downs, start, end, window),
        forall|before: int, stop: int|
            0 <= before < start && is_run_start(downs, before, window) && #[trigger] is_chord_run(
                downs,
                before,
                stop,
                window,
            ) ==> stop <= start,
        start < at < end,
    ensures
        !is_run_start(downs, at, window),
    decreases at,
{
    if is_run_start(downs, at, window) {
        let before = choose|before: int|
            0 <= before < at && #[trigger] is_chord_run(downs, before, at, window)
                && is_run_start(downs, before, window);
        if before < start {
            assert(at <= start);
        } else if before == start {
            lemma_chord_run_end_unique(downs, start, end, at, window);
        } else {
            lemma_no_run_starts_within(downs, start, end, before, window);
        }
    }
}

/// Returns true if the log holds the minor chord with a major seventh on
/// `root`, played in any order and any octave. The note-ons are divided into
/// runs: a run takes in the note-ons whose timestamps are less than `window`
/// after that of its first, and the next run begins with the first whose
/// timestamp is not.
/// The chord is held where the notes of one run are those of the chord, all
/// of them and no other. A log of fewer than eight events, or with fewer than
/// four note-ons, holds no chord.
pub fn minor_maj_7_chord_within(buf: &Vec<KeyMessage>, root: u8, window: u64) -> (found: bool)
    requires
        chronological(key_downs(buf@)),
    ensures
        found == minor_maj_7_in_log(buf@, root, window),
{
    if buf.len() < 8 {
        return false;
    }
    let downs = collect_key_downs(buf);
    if downs.len() < 4 {
        return false;
    }
    let mut start_run_index: usize = 0;
    while start_run_index < downs.len()
        invariant
            start_run_index <= downs@.len(),
            buf@.len() >= 8,
            downs@.len() >= 4,
            downs@ == key_downs(buf@),
            chronological(downs@),
            is_run_start(downs@, start_run_index as int, window),
            forall|start: int, end: int|
                0 <= start < start_run_index && is_run_start(downs@, start, window)
                    && #[trigger] is_chord_run(downs@, start, end, window) ==> end
                    <= start_run_index && !spells_minor_maj_7(downs@.subrange(start, end), root),
        decreases downs@.len() - start_run_index,
    {
        let mut end_run_idx: usize = start_run_index + 1;
        while end_run_idx < downs.len() && downs[end_run_idx].timestamp
            - downs[start_run_index].timestamp < window
            invariant
                start_run_index < end_run_idx <= downs@.len(),
                chronological(downs@),
                forall|j: int|
                    start_run_index < j < end_run_idx ==> (#[trigger] downs@[j]).timestamp
                        - downs@[start_run_index as int].timestamp < window,
            decreases downs@.len() - end_run_idx,
        {
            end_run_idx += 1;
        }
        assert(is_chord_run(downs@, start_run_index as int, end_run_idx as int, window));
        if run_spells_chord(&downs, start_run_index, end_run_idx, root) {
            assert(is_run_start(key_downs(buf@), start_run_index as int, window) && is_chord_run(
                key_downs(buf@),
                start_run_index as int,
                end_run_idx as int,
                window,
            ) && spells_minor_maj_7(
                key_downs(buf@).subrange(start_run_index as int, end_run_idx as int),
                root,
            ));
            return true;
        }
        assert forall|start: int, end: int|
            0 <= start < end_run_idx && is_run_start(downs@, start, window)
                && #[trigger] is_chord_run(downs@, start, end, window) implies end <= end_run_idx
            && !spells_minor_maj_7(downs@.subrange(start, end), root) by {
            if start == start_run_index {
                lemma_chord_run_end_unique(
                    downs@,
                    start_run_index as int,
                    end_run_idx as int,
                    end,
                    window,
                );
            } else if start > start_run_index {
                lemma_no_run_starts_within(
                    downs@,
                    start_run_index as int,
                    end_run_idx as int,
                    start,
                    window,
                );
            }
        }
        start_run_index = end_run_idx;
    }
    assert forall|start: int, end: int|
        is_run_start(downs@, start, window) && is_chord_run(
            downs@,
            start,
            end,
            window,
        ) implies !spells_minor_maj_7(#[trigger] downs@.subrange(start, end), root) by {}
    false
}

/// Returns true if the log holds the minor chord with a major seventh on C,
/// its note-ons no more than the chord window apart.
pub fn is_minor_maj_7_chord(buf: &Vec<KeyMessage>) -> (found: bool)
    requires
        chronological(key_downs(buf@)),
    ensures
        found == minor_maj_7_in_log(buf@, CHORD_ROOT, CHORD_WINDOW),
{
    minor_maj_7_chord_within(buf, CHORD_ROOT, CHORD_WINDOW)
}

/// Returns true if the minor chord with a major seventh on `root_key` sounds
/// in the most recent bucket. Other keys may sound beside it.
pub fn is_minor_maj_7_chord_in_holds(buf: &TimeBucketedSparseKeyData, root_key: u8) -> (held: bool)
    requires
        root_key + 11 <= u8::MAX,
    ensures
        held == held_in_latest(buckets_of(*buf), minor_maj_7_keys(root_key)),
{
    let mut relevant_keys: HashSet<u8> = HashSet::new();
    relevant_keys.insert(root_key);
    relevant_keys.insert(root_key + 3);
    relevant_keys.insert(root_key + 7);
    relevant_keys.insert(root_key + 11);
    assert(relevant_keys@ =~= minor_maj_7_keys(root_key));
    all_keys_down_others_allowed(buf, relevant_keys)
}

/// Returns true if every key of `relevant_keys` sounds in the most recent
/// bucket. Other keys may sound beside them.
pub fn all_keys_down_others_allowed(
    buf: &TimeBucketedSparseKeyData,
    relevant_keys: HashSet<u8>,
) -> (held: bool)
    ensures
        held == held_in_latest(buckets_of(*buf), relevant_keys@),
{
    broadcast use vstd::std_specs::hash::group_hash_axioms;

    let ghost keys = relevant_keys@;
    let ghost buckets = buckets_of(*buf);
    match last_bucket(buf) {
        Some((ts, last_view)) => {
            let ghost bucket = last_view@;
            proof {
                assert(buckets.contains_key(*ts));
                assert(is_latest_tick(buckets, *ts));
                lemma_latest_tick_unique(buckets, *ts);
                assert(buckets[*ts] == bucket);
            }
            let mut found: HashSet<u8> = HashSet::new();
            let mut i: usize = 0;
            proof {
                lemma_key_set_finite(keys);
            }
            while i < last_view.len()
                invariant
                    i <= last_view@.len(),
                    bucket == last_view@,
                    keys == relevant_keys@,
                    keys.finite(),
                    found@.finite(),
                    forall|key: u8|
                        found@.contains(key) <==> keys.contains(key) && is_down_in(
                            bucket.take(i as int),
                            key,
                        ),
                decreases last_view@.len() - i,
            {
                let status = last_view[i];
                let ghost seen = bucket.take(i as int);
                let ghost seen_next = bucket.take(i + 1);
                proof {
                    assert(seen_next =~= seen.push(status));
                    assert forall|key: u8|
                        is_down_in(seen_next, key) <==> is_down_in(seen, key) || (status.key == key
                            && is_down_like(status.status)) by {
                        if is_down_in(seen, key) {
                            let j = choose|j: int|
                                0 <= j < seen.len() && (#[trigger] seen[j]).key == key
                                    && is_down_like(seen[j].status);
                            assert(seen_next[j] == seen[j]);
                        }
                        if status.key == key && is_down_like(status.status) {
                            assert(seen_next[i as int] == status);
                        }
                        if is_down_in(seen_next, key) {
                            let j = choose|j: int|
                                0 <= j < seen_next.len() && (#[trigger] seen_next[j]).key == key
                                    && is_down_like(seen_next[j].status);
                            if j < i {
                                assert(seen[j] == seen_next[j]);
                            }
                        }
                    }
                }
                let ghost found_before = found@;
                if status.status.down_like() && relevant_keys.contains(&status.key) {
                    found.insert(status.key);
                    assert(found@ == found_before.insert(status.key));
                } else {
                    assert(!(is_down_like(status.status) && keys.contains(status.key)));
                }
                assert forall|key: u8|
                    found@.contains(key) <==> keys.contains(key) && is_down_in(
                        seen_next,
                        key,
                    ) by {
                    assert(found_before.contains(key) <==> keys.contains(key) && is_down_in(
                        seen,
                        key,
                    ));
                }
                i += 1;
            }
            proof {
                assert(bucket.take(last_view@.len() as int) =~= bucket);
                assert(found@.subset_of(keys));
                if found@.len() == keys.len() {
                    vstd::set_lib::lemma_subset_equality(found@, keys);
                } else {
                    assert(found@ != keys);
                    assert(!(found@ =~= keys));
                }
            }
            found.len() == relevant_keys.len()
        },
        None => {
            assert(buckets.dom() =~= buf@.dom());
            false
        },
    }
}

} // verus!
