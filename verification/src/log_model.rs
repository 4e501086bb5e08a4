//! The mathematical model of the store: the linear log with the hold
//! projection beside it, and the queries over the log.

use crate::hold_model::hold_update;
use crate::key_handler::KeyStatus;
use crate::midi::{KeyMessage, MidiMessageTypes};
use vstd::prelude::*;

verus! {

/// The events of `log` that satisfy `keep`, newest first, cut off after
/// `limit` of them.
pub open spec fn newest_matching(
    log: Seq<KeyMessage>,
    keep: spec_fn(KeyMessage) -> bool,
    limit: nat,
) -> Seq<KeyMessage> {
    let matching = log.reverse().filter(keep);
    if limit < matching.len() {
        matching.take(limit as int)
    } else {
        matching
    }
}

/// The last `count` events of `log`, newest first.
pub open spec fn newest(log: Seq<KeyMessage>, count: nat) -> Seq<KeyMessage>
    recommends
        count <= log.len(),
{
    log.skip(log.len() - count).reverse()
}

/// The predicate that every event satisfies.
pub open spec fn any_event() -> spec_fn(KeyMessage) -> bool {
    |msg: KeyMessage| true
}

/// The predicate that the events of one kind satisfy.
pub open spec fn of_kind(kind: MidiMessageTypes) -> spec_fn(KeyMessage) -> bool {
    |msg: KeyMessage| msg.message_type == kind
}

/// Whether the timestamps of a log never decrease.
pub open spec fn chronological(log: Seq<KeyMessage>) -> bool {
    forall|i: int, j: int| 0 <= i <= j < log.len() ==> log[i].timestamp <= log[j].timestamp
}

/// What the store holds: the log of the run, the hold projection, and the
/// number of ticks that the projection retains at most.
#[verifier::ext_equal]
pub struct StoreState {
    pub log: Seq<KeyMessage>,
    pub holds: Map<u64, Seq<KeyStatus>>,
    pub capacity: nat,
}

impl StoreState {
    /// The store at the start of a run.
    pub open spec fn empty(capacity: nat) -> StoreState {
        StoreState { log: Seq::empty(), holds: Map::empty(), capacity }
    }

    /// The store after the event `msg` was accepted at `tick`.
    pub open spec fn pushed(self, msg: KeyMessage, tick: u64) -> StoreState {
        StoreState {
            log: self.log.push(msg),
            holds: hold_update(self.holds, self.capacity, msg, tick),
            capacity: self.capacity,
        }
    }

    /// The store after a reset.
    pub open spec fn cleared(self) -> StoreState {
        StoreState::empty(self.capacity)
    }

    /// The projection holds no more buckets than it may retain, and may
    /// retain at least one.
    pub open spec fn wf(self) -> bool {
        &&& self.capacity >= 1
        &&& self.holds.dom().finite()
        &&& self.holds.len() <= self.capacity
    }
}

/// Looking one event further back adds that event to the matches if it
/// satisfies the predicate, and changes nothing otherwise.
pub proof fn lemma_matching_step(log: Seq<KeyMessage>, keep: spec_fn(KeyMessage) -> bool, i: int)
    requires
        0 < i <= log.len(),
    ensures
        log.skip(i - 1).reverse().filter(keep) == if keep(log[i - 1]) {
            log.skip(i).reverse().filter(keep).push(log[i - 1])
        } else {
            log.skip(i).reverse().filter(keep)
        },
{
    assert(log.skip(i - 1).reverse() =~= log.skip(i).reverse().push(log[i - 1]));
    log.skip(i).reverse().lemma_filter_push(log[i - 1], keep);
}

/// The matches among the most recent events are the first of the matches in
/// the whole log.
pub proof fn lemma_matching_prefix(log: Seq<KeyMessage>, keep: spec_fn(KeyMessage) -> bool, i: int)
    requires
        0 <= i <= log.len(),
    ensures
        log.skip(i).reverse().filter(keep).is_prefix_of(log.reverse().filter(keep)),
{
    let recent = log.skip(i).reverse();
    let early = log.take(i).reverse();
    assert(log.reverse() =~= recent + early);
    Seq::filter_distributes_over_add(recent, early, keep);
}

/// Resetting twice is resetting once.
pub proof fn lemma_clear_idempotent(state: StoreState)
    ensures
        state.cleared().cleared() == state.cleared(),
{
}

/// With the predicate that every event satisfies, the matches are the last
/// events of the log, newest first.
pub proof fn lemma_newest_matching_any(log: Seq<KeyMessage>, n: nat)
    requires
        n <= log.len(),
    ensures
        newest_matching(log, any_event(), n) == newest(log, n),
        newest(log, n).len() == n,
        forall|i: int| 0 <= i < n ==> newest(log, n)[i] == log[log.len() - 1 - i],
{
    let keep = any_event();
    let all = log.reverse();
    lemma_filter_all(all);
    assert(newest_matching(log, keep, n) =~= newest(log, n));
}

/// Reverse order. After the events of `events` were appended to a log, one
/// after the other, the last `events.len()` events of the log are these,
/// newest first.
pub proof fn lemma_newest_of_appended(log: Seq<KeyMessage>, events: Seq<KeyMessage>)
    ensures
        newest(log + events, events.len()) == events.reverse(),
        newest_matching(log + events, any_event(), events.len()) == events.reverse(),
{
    lemma_newest_matching_any(log + events, events.len());
    assert((log + events).skip(log.len() as int) =~= events);
}

/// Filtering with the predicate that every event satisfies keeps the whole
/// sequence.
proof fn lemma_filter_all(events: Seq<KeyMessage>)
    ensures
        events.filter(any_event()) == events,
    decreases events.len(),
{
    reveal(Seq::filter);
    if events.len() > 0 {
        lemma_filter_all(events.drop_last());
        assert(events.drop_last().push(events.last()) =~= events);
    }
}

} // verus!
