//! The mathematical model of the hold projection: what a bucket becomes when
//! an event arrives, and what the whole projection becomes.

use crate::key_handler::{HoldStatus, KeyStatus};
use crate::midi::{KeyMessage, MidiMessageTypes};
use vstd::prelude::*;

verus! {

/// Whether a status means that the key is sounding.
pub open spec fn is_down_like(status: HoldStatus) -> bool {
    status == HoldStatus::PRESS || status == HoldStatus::DOWN
}

/// Whether an entry is carried into the next bucket.
pub open spec fn is_live(entry: KeyStatus) -> bool {
    entry.status != HoldStatus::EMPTY
}

/// Whether an event releases the key of an entry.
pub open spec fn releases(msg: KeyMessage, entry: KeyStatus) -> bool {
    msg.message_type == MidiMessageTypes::NoteOff && entry.key == msg.key
}

/// What a live entry becomes in the bucket of the next event: released if
/// the event is the note-off of its key, down otherwise.
pub open spec fn carried(entry: KeyStatus, msg: KeyMessage) -> KeyStatus {
    if releases(msg, entry) {
        KeyStatus { key: entry.key, status: HoldStatus::EMPTY }
    } else {
        KeyStatus { key: entry.key, status: HoldStatus::DOWN }
    }
}

/// The live entries of a bucket, in order.
pub open spec fn live_entries(bucket: Seq<KeyStatus>) -> Seq<KeyStatus> {
    bucket.filter(|entry: KeyStatus| is_live(entry))
}

/// The entries that a bucket hands on to the bucket of the next event.
pub open spec fn carried_bucket(bucket: Seq<KeyStatus>, msg: KeyMessage) -> Seq<KeyStatus> {
    live_entries(bucket).map_values(|entry: KeyStatus| carried(entry, msg))
}

/// The entries that an event adds of its own: a press for a note-on, nothing
/// for a note-off.
pub open spec fn pressed(msg: KeyMessage) -> Seq<KeyStatus> {
    if msg.message_type == MidiMessageTypes::NoteOn {
        seq![KeyStatus { key: msg.key, status: HoldStatus::PRESS }]
    } else {
        seq![]
    }
}

/// The bucket of an event, given the bucket before it.
pub open spec fn next_bucket(bucket: Seq<KeyStatus>, msg: KeyMessage) -> Seq<KeyStatus> {
    carried_bucket(bucket, msg) + pressed(msg)
}

/// Whether `tick` is the most recent tick that has a bucket.
pub open spec fn is_latest_tick(buckets: Map<u64, Seq<KeyStatus>>, tick: u64) -> bool {
    buckets.contains_key(tick) && forall|other: u64|
        buckets.contains_key(other) ==> other <= tick
}

/// The most recent tick that has a bucket.
pub open spec fn latest_tick(buckets: Map<u64, Seq<KeyStatus>>) -> u64 {
    choose|tick: u64| is_latest_tick(buckets, tick)
}

/// The ticks with a bucket that are more recent than `tick`.
pub open spec fn newer_ticks(buckets: Map<u64, Seq<KeyStatus>>, tick: u64) -> Set<u64> {
    buckets.dom().filter(|other: u64| other > tick)
}

/// The `count` most recent buckets.
pub open spec fn keep_newest(buckets: Map<u64, Seq<KeyStatus>>, count: nat) -> Map<
    u64,
    Seq<KeyStatus>,
> {
    buckets.restrict(Set::new(|tick: u64| newer_ticks(buckets, tick).len() < count))
}

/// The projection after an event at `tick`.
///
/// With no bucket yet, a note-on opens the first one and a note-off is
/// ignored. Otherwise the most recent bucket is carried forward. At the tick
/// of that bucket the result replaces it; at another tick, room is made for
/// one more bucket by dropping the oldest ones, and the result is stored
/// under the new tick.
pub open spec fn hold_update(
    buckets: Map<u64, Seq<KeyStatus>>,
    capacity: nat,
    msg: KeyMessage,
    tick: u64,
) -> Map<u64, Seq<KeyStatus>> {
    if buckets.dom().is_empty() {
        if msg.message_type == MidiMessageTypes::NoteOn {
            buckets.insert(tick, pressed(msg))
        } else {
            buckets
        }
    } else {
        let last = latest_tick(buckets);
        let bucket = next_bucket(buckets[last], msg);
        if tick != last {
            keep_newest(buckets, (capacity - 1) as nat).insert(tick, bucket)
        } else {
            buckets.insert(tick, bucket)
        }
    }
}

/// Taking one more entry of a bucket either adds what that entry is carried
/// to, or, for an entry that is not live, adds nothing.
pub proof fn lemma_carried_bucket_step(bucket: Seq<KeyStatus>, msg: KeyMessage, i: int)
    requires
        0 <= i < bucket.len(),
    ensures
        carried_bucket(bucket.take(i + 1), msg) == if is_live(bucket[i]) {
            carried_bucket(bucket.take(i), msg).push(carried(bucket[i], msg))
        } else {
            carried_bucket(bucket.take(i), msg)
        },
{
    let live = |entry: KeyStatus| is_live(entry);
    assert(bucket.take(i + 1) =~= bucket.take(i).push(bucket[i]));
    bucket.take(i).lemma_filter_push(bucket[i], live);
    assert(live_entries(bucket.take(i + 1)) == if is_live(bucket[i]) {
        live_entries(bucket.take(i)).push(bucket[i])
    } else {
        live_entries(bucket.take(i))
    });
    if is_live(bucket[i]) {
        assert(carried_bucket(bucket.take(i + 1), msg) =~= carried_bucket(bucket.take(i), msg).push(
            carried(bucket[i], msg),
        ));
    }
}

/// The most recent tick is the only one that no tick exceeds.
pub proof fn lemma_latest_tick_unique(buckets: Map<u64, Seq<KeyStatus>>, tick: u64)
    requires
        is_latest_tick(buckets, tick),
    ensures
        latest_tick(buckets) == tick,
{
    let chosen = latest_tick(buckets);
    assert(is_latest_tick(buckets, chosen));
}

/// A projection with no more than `count` buckets keeps them all.
pub proof fn lemma_keep_newest_all(buckets: Map<u64, Seq<KeyStatus>>, count: nat)
    requires
        buckets.dom().finite(),
        buckets.len() <= count,
    ensures
        keep_newest(buckets, count) == buckets,
{
    assert forall|tick: u64| buckets.contains_key(tick) implies newer_ticks(buckets, tick).len()
        < count by {
        let newer = newer_ticks(buckets, tick);
        assert(newer.subset_of(buckets.dom().remove(tick)));
        vstd::set_lib::lemma_len_subset(newer, buckets.dom().remove(tick));
    }
    assert(keep_newest(buckets, count) =~= buckets);
}

/// Where more than `count` buckets are held, dropping the oldest one does
/// not change which are the `count` most recent.
pub proof fn lemma_keep_newest_drops_oldest(
    buckets: Map<u64, Seq<KeyStatus>>,
    oldest: u64,
    count: nat,
)
    requires
        buckets.dom().finite(),
        buckets.len() > count,
        buckets.contains_key(oldest),
        forall|other: u64| buckets.contains_key(other) ==> oldest <= other,
    ensures
        keep_newest(buckets.remove(oldest), count) == keep_newest(buckets, count),
{
    let rest = buckets.remove(oldest);
    assert(newer_ticks(buckets, oldest) =~= buckets.dom().remove(oldest));
    assert forall|tick: u64| rest.contains_key(tick) implies newer_ticks(rest, tick)
        == newer_ticks(buckets, tick) by {
        assert(newer_ticks(rest, tick) =~= newer_ticks(buckets, tick));
    }
    assert(keep_newest(rest, count) =~= keep_newest(buckets, count));
}

} // verus!
