//! What holds of the hold projection over one event and over many: how an
//! entry moves from pressed to down to released, and which buckets are
//! retained.

use crate::hold_model::{
    carried, hold_update, is_latest_tick, is_live, keep_newest, latest_tick,
    lemma_keep_newest_all, lemma_keep_newest_drops_oldest, lemma_latest_tick_unique, live_entries,
    newer_ticks, next_bucket, pressed,
};
use crate::key_handler::{HoldStatus, KeyStatus};
use crate::midi::{KeyMessage, MidiMessageTypes};
use vstd::prelude::*;

verus! {

/// The number of live entries of a bucket before position `i`: the position
/// at which the entry at `i`, if it is live, stands in the next bucket.
pub open spec fn live_before(bucket: Seq<KeyStatus>, i: int) -> int {
    live_entries(bucket.take(i)).len() as int
}

/// The press of a key.
pub open spec fn press_of(key: u8, timestamp: u64) -> KeyMessage {
    KeyMessage { timestamp, message_type: MidiMessageTypes::NoteOn, key }
}

/// The release of a key.
pub open spec fn release_of(key: u8, timestamp: u64) -> KeyMessage {
    KeyMessage { timestamp, message_type: MidiMessageTypes::NoteOff, key }
}

/// The projection after the events of `events`, each with the tick at which
/// it arrived, were taken in one after the other, starting from nothing.
pub open spec fn replayed(capacity: nat, events: Seq<(KeyMessage, u64)>) -> Map<
    u64,
    Seq<KeyStatus>,
>
    decreases events.len(),
{
    if events.len() == 0 {
        Map::empty()
    } else {
        hold_update(
            replayed(capacity, events.drop_last()),
            capacity,
            events.last().0,
            events.last().1,
        )
    }
}

/// Whether each event arrived at a later tick than the one before it.
pub open spec fn ticks_increase(events: Seq<(KeyMessage, u64)>) -> bool {
    forall|i: int, j: int| 0 <= i < j < events.len() ==> events[i].1 < events[j].1
}

/// Whether `tick` is the tick of one of the events from position `from` on.
pub open spec fn is_tick_from(events: Seq<(KeyMessage, u64)>, from: int, tick: u64) -> bool {
    exists|i: int| from <= i < events.len() && 0 <= i && (#[trigger] events[i]).1 == tick
}

/// The smaller of two numbers.
pub open spec fn at_most(a: nat, b: nat) -> nat {
    if a <= b {
        a
    } else {
        b
    }
}

/// A bucket is its first `i` entries, the entry at `i`, and the rest; and so
/// are its live entries, where the entry at `i` is live.
proof fn lemma_live_entries_split(bucket: Seq<KeyStatus>, i: int)
    requires
        0 <= i < bucket.len(),
        is_live(bucket[i]),
    ensures
        live_entries(bucket) == live_entries(bucket.take(i)).push(bucket[i]) + live_entries(
            bucket.skip(i + 1),
        ),
{
    let live = |entry: KeyStatus| is_live(entry);
    let head = bucket.take(i).push(bucket[i]);
    assert(bucket =~= head + bucket.skip(i + 1));
    Seq::filter_distributes_over_add(head, bucket.skip(i + 1), live);
    bucket.take(i).lemma_filter_push(bucket[i], live);
}

/// A live entry stands in the next bucket at the position that the live
/// entries before it leave, and is there what it is carried to: released if
/// the event is the note-off of its key, down otherwise.
pub proof fn lemma_entry_carried(bucket: Seq<KeyStatus>, msg: KeyMessage, i: int)
    requires
        0 <= i < bucket.len(),
        is_live(bucket[i]),
    ensures
        0 <= live_before(bucket, i) < next_bucket(bucket, msg).len(),
        next_bucket(bucket, msg)[live_before(bucket, i)] == carried(bucket[i], msg),
{
    lemma_live_entries_split(bucket, i);
}

/// A note-on puts its key at the end of the bucket, as pressed, and leaves
/// no released entry in the bucket.
pub proof fn lemma_press_enters_last(bucket: Seq<KeyStatus>, msg: KeyMessage)
    requires
        msg.message_type == MidiMessageTypes::NoteOn,
    ensures
        next_bucket(bucket, msg).len() >= 1,
        next_bucket(bucket, msg).last() == (KeyStatus { key: msg.key, status: HoldStatus::PRESS }),
        forall|j: int|
            0 <= j < next_bucket(bucket, msg).len() ==> is_live(
                #[trigger] next_bucket(bucket, msg)[j],
            ),
{
}

/// A released entry is never carried: every released entry of a bucket was
/// released by the event of that bucket.
pub proof fn lemma_released_entries_are_fresh(bucket: Seq<KeyStatus>, msg: KeyMessage)
    ensures
        forall|j: int|
            0 <= j < next_bucket(bucket, msg).len() && !is_live(
                #[trigger] next_bucket(bucket, msg)[j],
            ) ==> msg.message_type == MidiMessageTypes::NoteOff && next_bucket(bucket, msg)[j].key
                == msg.key,
        next_bucket(bucket, msg).len() == live_entries(bucket).len() + pressed(msg).len(),
{
}

/// Where every entry of a bucket is live, each stands in the next bucket at
/// the position it had.
pub proof fn lemma_live_before_all_live(bucket: Seq<KeyStatus>, i: int)
    requires
        0 <= i <= bucket.len(),
        forall|j: int| 0 <= j < bucket.len() ==> is_live(#[trigger] bucket[j]),
    ensures
        live_before(bucket, i) == i,
    decreases i,
{
    let live = |entry: KeyStatus| is_live(entry);
    if i == 0 {
        reveal(Seq::filter);
        assert(bucket.take(0) =~= Seq::<KeyStatus>::empty());
    } else {
        lemma_live_before_all_live(bucket, i - 1);
        assert(bucket.take(i) =~= bucket.take(i - 1).push(bucket[i - 1]));
        bucket.take(i - 1).lemma_filter_push(bucket[i - 1], live);
    }
}

/// The bucket after the events of `events` were taken in one after the
/// other, starting from `bucket`.
pub open spec fn bucket_after(bucket: Seq<KeyStatus>, events: Seq<KeyMessage>) -> Seq<KeyStatus>
    decreases events.len(),
{
    if events.len() == 0 {
        bucket
    } else {
        next_bucket(bucket_after(bucket, events.drop_last()), events.last())
    }
}

/// The position, after the events of `events`, of the entry that stood at
/// `at` in `bucket`, for an entry that none of the events releases.
pub open spec fn position_after(bucket: Seq<KeyStatus>, at: int, events: Seq<KeyMessage>) -> int
    decreases events.len(),
{
    if events.len() == 0 {
        at
    } else {
        live_before(
            bucket_after(bucket, events.drop_last()),
            position_after(bucket, at, events.drop_last()),
        )
    }
}

/// Whether none of the events is the note-off of `key`.
pub open spec fn none_releases(events: Seq<KeyMessage>, key: u8) -> bool {
    forall|i: int|
        0 <= i < events.len() ==> !((#[trigger] events[i]).message_type
            == MidiMessageTypes::NoteOff && events[i].key == key)
}

/// A live entry is down after any events, at least one, none of which is
/// the note-off of its key.
pub proof fn lemma_down_until_released(bucket: Seq<KeyStatus>, at: int, events: Seq<KeyMessage>)
    requires
        0 <= at < bucket.len(),
        is_live(bucket[at]),
        events.len() >= 1,
        none_releases(events, bucket[at].key),
    ensures
        0 <= position_after(bucket, at, events) < bucket_after(bucket, events).len(),
        bucket_after(bucket, events)[position_after(bucket, at, events)] == (KeyStatus {
            key: bucket[at].key,
            status: HoldStatus::DOWN,
        }),
    decreases events.len(),
{
    let earlier = events.drop_last();
    assert(events[events.len() - 1] == events.last());
    if events.len() == 1 {
        assert(bucket_after(bucket, earlier) == bucket);
        assert(position_after(bucket, at, earlier) == at);
        lemma_entry_carried(bucket, events.last(), at);
    } else {
        assert forall|i: int| 0 <= i < earlier.len() implies !((#[trigger] earlier[i]).message_type
            == MidiMessageTypes::NoteOff && earlier[i].key == bucket[at].key) by {
            assert(earlier[i] == events[i]);
        }
        lemma_down_until_released(bucket, at, earlier);
        lemma_entry_carried(
            bucket_after(bucket, earlier),
            events.last(),
            position_after(bucket, at, earlier),
        );
    }
}

/// Hold transitions. A key that is pressed stands in the bucket of its press
/// as pressed. After the events that follow, as long as none of them is its
/// own release, it is down. In the bucket of its release it is released. And
/// the bucket after that holds no released entry but what its own event
/// released.
pub proof fn lemma_press_down_release(
    bucket: Seq<KeyStatus>,
    key: u8,
    press_time: u64,
    between: Seq<KeyMessage>,
    release_time: u64,
    after: KeyMessage,
)
    requires
        between.len() >= 1,
        none_releases(between, key),
    ensures
        ({
            let pressing = next_bucket(bucket, press_of(key, press_time));
            let at = pressing.len() - 1;
            let holding = bucket_after(pressing, between);
            let then_at = position_after(pressing, at, between);
            let releasing = next_bucket(holding, release_of(key, release_time));
            let later = next_bucket(releasing, after);
            &&& 0 <= at
            &&& pressing[at] == (KeyStatus { key, status: HoldStatus::PRESS })
            &&& 0 <= then_at < holding.len()
            &&& holding[then_at] == (KeyStatus { key, status: HoldStatus::DOWN })
            &&& 0 <= live_before(holding, then_at) < releasing.len()
            &&& releasing[live_before(holding, then_at)] == (KeyStatus {
                key,
                status: HoldStatus::EMPTY,
            })
            &&& forall|j: int|
                0 <= j < later.len() && (#[trigger] later[j]).status == HoldStatus::EMPTY
                    ==> after.message_type == MidiMessageTypes::NoteOff && later[j].key == after.key
            &&& later.len() == live_entries(releasing).len() + pressed(after).len()
        }),
{
    let press = press_of(key, press_time);
    let release = release_of(key, release_time);
    let pressing = next_bucket(bucket, press);
    let at = pressing.len() - 1;
    let holding = bucket_after(pressing, between);
    let then_at = position_after(pressing, at, between);
    let releasing = next_bucket(holding, release);
    lemma_press_enters_last(bucket, press);
    lemma_down_until_released(pressing, at, between);
    lemma_entry_carried(holding, release, then_at);
    lemma_released_entries_are_fresh(releasing, after);
}

/// Pressed and released with nothing between: the key stands in the bucket
/// of its press as pressed and in the bucket of its release as released,
/// and was never seen as down.
pub proof fn lemma_press_release(
    bucket: Seq<KeyStatus>,
    key: u8,
    press_time: u64,
    release_time: u64,
)
    ensures
        ({
            let pressing = next_bucket(bucket, press_of(key, press_time));
            let at = pressing.len() - 1;
            let releasing = next_bucket(pressing, release_of(key, release_time));
            &&& 0 <= at < releasing.len()
            &&& pressing[at] == (KeyStatus { key, status: HoldStatus::PRESS })
            &&& releasing[at] == (KeyStatus { key, status: HoldStatus::EMPTY })
        }),
{
    let press = press_of(key, press_time);
    let pressing = next_bucket(bucket, press);
    let at = pressing.len() - 1;
    lemma_press_enters_last(bucket, press);
    lemma_live_before_all_live(pressing, at);
    lemma_entry_carried(pressing, release_of(key, release_time), at);
}

/// Whether `tick` is the oldest tick that has a bucket.
pub open spec fn is_oldest_tick(buckets: Map<u64, Seq<KeyStatus>>, tick: u64) -> bool {
    buckets.contains_key(tick) && forall|other: u64|
        buckets.contains_key(other) ==> tick <= other
}

/// Among finitely many buckets, and at least one, there is an oldest and a
/// most recent.
pub proof fn lemma_extreme_ticks_exist(buckets: Map<u64, Seq<KeyStatus>>)
    requires
        buckets.dom().finite(),
        !buckets.dom().is_empty(),
    ensures
        exists|tick: u64| is_oldest_tick(buckets, tick),
        is_latest_tick(buckets, latest_tick(buckets)),
    decreases buckets.len(),
{
    let some = buckets.dom().choose();
    let rest = buckets.remove(some);
    if rest.dom().is_empty() {
        assert forall|other: u64| buckets.contains_key(other) implies other == some by {
            if other != some {
                assert(rest.contains_key(other));
            }
        }
        assert(is_oldest_tick(buckets, some));
        assert(is_latest_tick(buckets, some));
    } else {
        lemma_extreme_ticks_exist(rest);
        let low = choose|tick: u64| is_oldest_tick(rest, tick);
        let high = latest_tick(rest);
        let lowest = if some < low {
            some
        } else {
            low
        };
        let highest = if some > high {
            some
        } else {
            high
        };
        assert forall|other: u64| buckets.contains_key(other) implies lowest <= other && other
            <= highest by {
            if other != some {
                assert(rest.contains_key(other));
            }
        }
        assert(is_oldest_tick(buckets, lowest));
        assert(is_latest_tick(buckets, highest));
    }
}

/// Of finitely many buckets the `count` most recent are `count` buckets, or
/// all of them where there are fewer.
pub proof fn lemma_keep_newest_len(buckets: Map<u64, Seq<KeyStatus>>, count: nat)
    requires
        buckets.dom().finite(),
    ensures
        keep_newest(buckets, count).dom().finite(),
        keep_newest(buckets, count).len() == at_most(buckets.len(), count),
        keep_newest(buckets, count).submap_of(buckets),
    decreases buckets.len(),
{
    if buckets.len() <= count {
        lemma_keep_newest_all(buckets, count);
    } else {
        lemma_extreme_ticks_exist(buckets);
        let oldest = choose|tick: u64| is_oldest_tick(buckets, tick);
        lemma_keep_newest_drops_oldest(buckets, oldest, count);
        lemma_keep_newest_len(buckets.remove(oldest), count);
    }
}

/// One event at a tick later than every bucket. The projection then is what
/// comes of storing the new bucket and keeping the `capacity` most recent:
/// one bucket more than before, but no more than `capacity`, the new one the
/// most recent of them.
pub proof fn lemma_update_at_later_tick(
    buckets: Map<u64, Seq<KeyStatus>>,
    capacity: nat,
    msg: KeyMessage,
    tick: u64,
)
    requires
        capacity >= 1,
        buckets.dom().finite(),
        !buckets.dom().is_empty(),
        forall|other: u64| buckets.contains_key(other) ==> other < tick,
    ensures
        hold_update(buckets, capacity, msg, tick) == keep_newest(
            buckets.insert(tick, next_bucket(buckets[latest_tick(buckets)], msg)),
            capacity,
        ),
        hold_update(buckets, capacity, msg, tick) == keep_newest(
            buckets,
            (capacity - 1) as nat,
        ).insert(tick, next_bucket(buckets[latest_tick(buckets)], msg)),
        hold_update(buckets, capacity, msg, tick).dom().finite(),
        hold_update(buckets, capacity, msg, tick).len() == at_most(buckets.len() + 1, capacity),
        is_latest_tick(hold_update(buckets, capacity, msg, tick), tick),
{
    lemma_extreme_ticks_exist(buckets);
    let last = latest_tick(buckets);
    let bucket = next_bucket(buckets[last], msg);
    let stored = buckets.insert(tick, bucket);
    let room = (capacity - 1) as nat;
    let kept = keep_newest(buckets, room);
    lemma_keep_newest_len(buckets, room);
    assert forall|other: u64| buckets.contains_key(other) implies newer_ticks(stored, other).len()
        == newer_ticks(buckets, other).len() + 1 by {
        let before = newer_ticks(buckets, other);
        assert(before.subset_of(buckets.dom()));
        vstd::set_lib::lemma_len_subset(before, buckets.dom());
        assert(newer_ticks(stored, other) =~= before.insert(tick));
    }
    assert(newer_ticks(stored, tick) =~= Set::<u64>::empty());
    assert(keep_newest(stored, capacity) =~= kept.insert(tick, bucket));
    assert(!kept.contains_key(tick));
}

/// The first event that opens a bucket: a note-on where there is none.
pub proof fn lemma_update_opens(capacity: nat, msg: KeyMessage, tick: u64)
    requires
        msg.message_type == MidiMessageTypes::NoteOn,
    ensures
        hold_update(Map::empty(), capacity, msg, tick) == Map::<
            u64,
            Seq<KeyStatus>,
        >::empty().insert(tick, pressed(msg)),
        hold_update(Map::empty(), capacity, msg, tick).len() == 1,
        hold_update(Map::empty(), capacity, msg, tick).dom().finite(),
        is_latest_tick(hold_update(Map::empty(), capacity, msg, tick), tick),
{
    let opened = Map::<u64, Seq<KeyStatus>>::empty().insert(tick, pressed(msg));
    assert(opened.dom() =~= set![tick]);
}

/// Bounded retention. After a note-on and any events behind it, each at a
/// later tick than the one before, the projection holds the buckets of the
/// most recent `capacity` ticks, or of all of them where they are fewer.
pub proof fn lemma_bounded_retention(capacity: nat, events: Seq<(KeyMessage, u64)>)
    requires
        capacity >= 1,
        events.len() >= 1,
        events[0].0.message_type == MidiMessageTypes::NoteOn,
        ticks_increase(events),
    ensures
        replayed(capacity, events).dom().finite(),
        replayed(capacity, events).len() == at_most(events.len(), capacity),
        forall|tick: u64|
            replayed(capacity, events).contains_key(tick) <==> is_tick_from(
                events,
                events.len() - at_most(events.len(), capacity),
                tick,
            ),
    decreases events.len(),
{
    let msg = events.last().0;
    let tick = events.last().1;
    let earlier = events.drop_last();
    let before = replayed(capacity, earlier);
    let after = replayed(capacity, events);
    assert(after == hold_update(before, capacity, msg, tick));
    if events.len() == 1 {
        assert(before == Map::<u64, Seq<KeyStatus>>::empty());
        lemma_update_opens(capacity, msg, tick);
        assert forall|other: u64| after.contains_key(other) <==> is_tick_from(
            events,
            0,
            other,
        ) by {
            if after.contains_key(other) {
                assert(events[0].1 == other);
            }
        }
    } else {
        assert(ticks_increase(earlier));
        lemma_bounded_retention(capacity, earlier);
        let count = at_most(earlier.len(), capacity);
        let from = earlier.len() - count;
        assert(is_tick_from(earlier, from, earlier[earlier.len() - 1].1));
        assert(before.contains_key(earlier[earlier.len() - 1].1));
        assert forall|other: u64| before.contains_key(other) implies other < tick by {
            let i = choose|i: int|
                from <= i < earlier.len() && 0 <= i && (#[trigger] earlier[i]).1 == other;
            assert(events[i] == earlier[i]);
        }
        lemma_update_at_later_tick(before, capacity, msg, tick);
        let room = (capacity - 1) as nat;
        let kept = keep_newest(before, room);
        let now_from = events.len() - at_most(events.len(), capacity);
        if before.len() > room {
            let oldest = earlier[from].1;
            assert(is_tick_from(earlier, from, oldest));
            assert forall|other: u64| before.contains_key(other) implies oldest <= other by {
                let i = choose|i: int|
                    from <= i < earlier.len() && 0 <= i && (#[trigger] earlier[i]).1 == other;
                if i > from {
                    assert(events[from] == earlier[from]);
                    assert(events[i] == earlier[i]);
                }
            }
            lemma_keep_newest_drops_oldest(before, oldest, room);
            lemma_keep_newest_all(before.remove(oldest), room);
            assert(kept == before.remove(oldest));
            assert forall|other: u64| kept.contains_key(other) <==> is_tick_from(
                earlier,
                from + 1,
                other,
            ) by {
                if kept.contains_key(other) {
                    let i = choose|i: int|
                        from <= i < earlier.len() && 0 <= i && (#[trigger] earlier[i]).1 == other;
                    assert(i != from);
                }
                if is_tick_from(earlier, from + 1, other) {
                    let i = choose|i: int|
                        from + 1 <= i < earlier.len() && 0 <= i && (#[trigger] earlier[i]).1
                            == other;
                    assert(is_tick_from(earlier, from, other));
                    assert(events[from] == earlier[from]);
                    assert(events[i] == earlier[i]);
                }
            }
            assert(now_from == from + 1);
        } else {
            lemma_keep_newest_all(before, room);
            assert(now_from == from);
        }
        assert forall|other: u64| after.contains_key(other) <==> is_tick_from(
            events,
            now_from,
            other,
        ) by {
            if after.contains_key(other) {
                if other == tick {
                    assert(events[events.len() - 1].1 == other);
                } else {
                    assert(kept.contains_key(other));
                    let i = choose|i: int|
                        now_from <= i < earlier.len() && 0 <= i && (#[trigger] earlier[i]).1
                            == other;
                    assert(events[i] == earlier[i]);
                }
            }
            if is_tick_from(events, now_from, other) {
                let i = choose|i: int|
                    now_from <= i < events.len() && 0 <= i && (#[trigger] events[i]).1 == other;
                if i < earlier.len() {
                    assert(earlier[i] == events[i]);
                    assert(is_tick_from(earlier, now_from, other));
                }
            }
        }
    }
}

/// Whether no event arrived at an earlier tick than the one before it.
pub open spec fn ticks_never_decrease(events: Seq<(KeyMessage, u64)>) -> bool {
    forall|i: int, j: int| 0 <= i <= j < events.len() ==> events[i].1 <= events[j].1
}

/// The events without their ticks.
pub open spec fn messages_of(events: Seq<(KeyMessage, u64)>) -> Seq<KeyMessage> {
    events.map_values(|event: (KeyMessage, u64)| event.0)
}

/// One event at a tick that is no earlier than any bucket: its bucket is
/// the most recent bucket carried forward, and is then the most recent.
pub proof fn lemma_update_stores_next_bucket(
    buckets: Map<u64, Seq<KeyStatus>>,
    capacity: nat,
    msg: KeyMessage,
    tick: u64,
)
    requires
        capacity >= 1,
        buckets.dom().finite(),
        !buckets.dom().is_empty(),
        forall|other: u64| buckets.contains_key(other) ==> other <= tick,
    ensures
        hold_update(buckets, capacity, msg, tick).dom().finite(),
        is_latest_tick(hold_update(buckets, capacity, msg, tick), tick),
        hold_update(buckets, capacity, msg, tick)[tick] == next_bucket(
            buckets[latest_tick(buckets)],
            msg,
        ),
{
    lemma_extreme_ticks_exist(buckets);
    if tick != latest_tick(buckets) {
        lemma_update_at_later_tick(buckets, capacity, msg, tick);
    }
}

/// After a note-on and any events behind it, none at an earlier tick than
/// the one before it, the most recent bucket is what the events make of an
/// empty bucket, one after the other: whatever the capacity, and whether or
/// not events share a tick.
pub proof fn lemma_latest_bucket_follows_events(capacity: nat, events: Seq<(KeyMessage, u64)>)
    requires
        capacity >= 1,
        events.len() >= 1,
        events[0].0.message_type == MidiMessageTypes::NoteOn,
        ticks_never_decrease(events),
    ensures
        replayed(capacity, events).dom().finite(),
        is_latest_tick(replayed(capacity, events), events.last().1),
        replayed(capacity, events)[events.last().1] == bucket_after(
            Seq::empty(),
            messages_of(events),
        ),
    decreases events.len(),
{
    let msg = events.last().0;
    let tick = events.last().1;
    let earlier = events.drop_last();
    let before = replayed(capacity, earlier);
    assert(messages_of(events).drop_last() =~= messages_of(earlier));
    assert(messages_of(events).last() == msg);
    if events.len() == 1 {
        assert(before == Map::<u64, Seq<KeyStatus>>::empty());
        lemma_update_opens(capacity, msg, tick);
        assert(bucket_after(Seq::empty(), messages_of(earlier)) == Seq::<KeyStatus>::empty());
        assert(next_bucket(Seq::empty(), msg) =~= pressed(msg)) by {
            reveal(Seq::filter);
        }
    } else {
        assert(ticks_never_decrease(earlier));
        lemma_latest_bucket_follows_events(capacity, earlier);
        let last = earlier.last().1;
        assert(events[events.len() - 2] == earlier.last());
        assert(before.contains_key(last));
        lemma_latest_tick_unique(before, last);
        lemma_update_stores_next_bucket(before, capacity, msg, tick);
    }
}

} // verus!
