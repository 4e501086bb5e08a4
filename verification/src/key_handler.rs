//! The store: the hold projection, and the linear log beside it.

use crate::hold_model::{
    carried_bucket, hold_update, is_down_like, is_latest_tick, keep_newest,
    lemma_carried_bucket_step, lemma_keep_newest_all, lemma_keep_newest_drops_oldest,
    lemma_latest_tick_unique, next_bucket, pressed,
};
use crate::log_model::{
    any_event, lemma_matching_prefix, lemma_matching_step, lemma_newest_matching_any, newest,
    newest_matching, of_kind, StoreState,
};
use crate::midi::{KeyMessage, MidiMessageTypes};
use std::collections::BTreeMap;
use vstd::prelude::*;

verus! {

/// A signal about the life of a run, as opposed to a note event.
#[derive(Debug, Clone, Copy, PartialEq, Eq, Structural)]
pub enum ControlMessage {
    Heartbeat,
    NewRun,
    Print,
}

/// What the projection says of one key within one bucket.
#[derive(Debug, PartialEq, Eq, Clone, Copy, Structural)]
pub enum HoldStatus {
    /// The key was released at this bucket's event.
    EMPTY,
    /// The key was pressed at this bucket's event.
    PRESS,
    /// The key has been down since an earlier bucket.
    DOWN,
}

impl HoldStatus {
    /// Whether the key is sounding.
    pub fn down_like(self) -> (sounding: bool)
        ensures
            sounding == is_down_like(self),
    {
        self == HoldStatus::PRESS || self == HoldStatus::DOWN
    }
}

/// One entry of a bucket: a key and its status.
#[derive(Debug, Clone, Copy, PartialEq, Eq, Structural)]
pub struct KeyStatus {
    pub key: u8,
    pub status: HoldStatus,
}

/// The projection as it is handed out: from tick to bucket.
pub type TimeBucketedSparseKeyData = BTreeMap<u64, Vec<KeyStatus>>;

/// The buckets of a projection, each as the sequence of its entries.
pub open spec fn buckets_of(buf: TimeBucketedSparseKeyData) -> Map<u64, Seq<KeyStatus>> {
    buf@.map_values(|bucket: Vec<KeyStatus>| bucket@)
}

/// `BTreeMap::last_key_value`: the entry with the greatest key, or `None`
/// for an empty map.
#[verifier::external_body]
pub(crate) fn last_bucket<'a>(buf: &'a TimeBucketedSparseKeyData) -> (last: Option<
    (&'a u64, &'a Vec<KeyStatus>),
>)
    ensures
        match last {
            None => buf@.dom().is_empty(),
            Some((tick, bucket)) => {
                &&& buf@.contains_key(*tick)
                &&& buf@[*tick] == *bucket
                &&& forall|other: u64| buf@.contains_key(other) ==> other <= *tick
            },
        },
{
    buf.last_key_value()
}

/// `BTreeMap::pop_first`: removes the entry with the least key and returns
/// it, or returns `None` and leaves an empty map as it is.
#[verifier::external_body]
pub(crate) fn pop_first_bucket(buf: &mut TimeBucketedSparseKeyData) -> (first: Option<
    (u64, Vec<KeyStatus>),
>)
    ensures
        match first {
            None => old(buf)@.dom().is_empty() && final(buf)@ == old(buf)@,
            Some((tick, bucket)) => {
                &&& old(buf)@.contains_key(tick)
                &&& old(buf)@[tick] == bucket
                &&& forall|other: u64| old(buf)@.contains_key(other) ==> tick <= other
                &&& final(buf)@ == old(buf)@.remove(tick)
            },
        },
{
    buf.pop_first()
}

/// The buckets of a projection stand at the ticks of the map, and are
/// finitely many.
pub proof fn lemma_buckets_dom(buf: TimeBucketedSparseKeyData)
    ensures
        buckets_of(buf).dom() == buf@.dom(),
        buckets_of(buf).dom().finite(),
        buckets_of(buf).len() == buf@.len(),
        buf.len() == buf@.len(),
{
    broadcast use vstd::std_specs::btree::group_btree_axioms;

    assert(buckets_of(buf).dom() =~= buf@.dom());
}

/// The hold projection: for each retained tick, the keys that were held,
/// pressed or released at that tick. At most `capacity` ticks are retained.
pub struct HoldData {
    max_bucket_count: usize,
    buf: TimeBucketedSparseKeyData,
}

impl Clone for HoldData {
    fn clone(&self) -> (copy: Self)
        ensures
            copy@ == self@,
            copy.capacity() == self.capacity(),
    {
        HoldData { max_bucket_count: self.max_bucket_count, buf: self.buf.clone() }
    }
}

impl View for HoldData {
    type V = Map<u64, Seq<KeyStatus>>;

    closed spec fn view(&self) -> Map<u64, Seq<KeyStatus>> {
        buckets_of(self.buf)
    }
}

/// The entries that a bucket hands on to the bucket of the next event.
fn carry_forward(old_holds: &Vec<KeyStatus>, msg: KeyMessage) -> (new_holds: Vec<KeyStatus>)
    ensures
        new_holds@ == carried_bucket(old_holds@, msg),
{
    let mut new_holds: Vec<KeyStatus> = Vec::new();
    let mut i: usize = 0;
    assert(old_holds@.take(0) =~= Seq::<KeyStatus>::empty());
    assert(carried_bucket(Seq::<KeyStatus>::empty(), msg) =~= Seq::<KeyStatus>::empty()) by {
        reveal(Seq::filter);
    }
    while i < old_holds.len()
        invariant
            i <= old_holds.len(),
            new_holds@ == carried_bucket(old_holds@.take(i as int), msg),
        decreases old_holds.len() - i,
    {
        let hold = old_holds[i];
        proof {
            lemma_carried_bucket_step(old_holds@, msg, i as int);
        }
        if hold.status != HoldStatus::EMPTY {
            if msg.message_type == MidiMessageTypes::NoteOff && hold.key == msg.key {
                new_holds.push(KeyStatus { key: msg.key, status: HoldStatus::EMPTY });
            } else if hold.status == HoldStatus::PRESS {
                new_holds.push(KeyStatus { key: hold.key, status: HoldStatus::DOWN });
            } else {
                new_holds.push(hold);
            }
        }
        i += 1;
    }
    assert(old_holds@.take(old_holds.len() as int) =~= old_holds@);
    new_holds
}

impl HoldData {
    /// The number of ticks that the projection retains at most.
    pub closed spec fn capacity(&self) -> nat {
        self.max_bucket_count as nat
    }

    /// The projection holds no more buckets than it may retain, and may
    /// retain at least one.
    pub open spec fn wf(&self) -> bool {
        &&& self.capacity() >= 1
        &&& self@.dom().finite()
        &&& self@.len() <= self.capacity()
    }

    /// An empty projection that retains up to `bucket_count` ticks.
    pub fn new(bucket_count: usize) -> (holds: HoldData)
        requires
            bucket_count >= 1,
        ensures
            holds.wf(),
            holds.capacity() == bucket_count,
            holds@ == Map::<u64, Seq<KeyStatus>>::empty(),
    {
        let holds = HoldData { max_bucket_count: bucket_count, buf: BTreeMap::new() };
        assert(holds@ =~= Map::<u64, Seq<KeyStatus>>::empty());
        holds
    }

    /// Drops every bucket.
    pub fn clear(&mut self)
        ensures
            final(self).capacity() == old(self).capacity(),
            final(self)@ == Map::<u64, Seq<KeyStatus>>::empty(),
            old(self).capacity() >= 1 ==> final(self).wf(),
    {
        self.buf.clear();
        assert(self@ =~= Map::<u64, Seq<KeyStatus>>::empty());
    }

    /// A copy of the whole projection.
    pub fn raw_buf(&self) -> (copy: TimeBucketedSparseKeyData)
        ensures
            buckets_of(copy) == self@,
    {
        self.buf.clone()
    }

    /// Takes in the event `msg`, which arrived at tick `new_ts`.
    pub fn update(&mut self, msg: KeyMessage, new_ts: u64)
        requires
            old(self).wf(),
        ensures
            final(self).wf(),
            final(self).capacity() == old(self).capacity(),
            final(self)@ == hold_update(old(self)@, old(self).capacity(), msg, new_ts),
    {
        let ghost before = self@;
        let ghost room = (self.max_bucket_count - 1) as nat;
        match last_bucket(&self.buf) {
            Some((old_ts, old_holds)) => {
                let old_ts = *old_ts;
                let mut new_holds = carry_forward(old_holds, msg);
                if msg.message_type == MidiMessageTypes::NoteOn {
                    new_holds.push(KeyStatus { key: msg.key, status: HoldStatus::PRESS });
                }
                proof {
                    assert(is_latest_tick(before, old_ts));
                    lemma_latest_tick_unique(before, old_ts);
                    assert(new_holds@ =~= next_bucket(before[old_ts], msg));
                }
                if new_ts != old_ts {
                    while self.buf.len() >= self.max_bucket_count
                        invariant
                            self.max_bucket_count >= 1,
                            room == self.max_bucket_count - 1,
                            self.max_bucket_count == old(self).max_bucket_count,
                            self@.dom().finite(),
                            self@.len() <= self.max_bucket_count,
                            keep_newest(self@, room) == keep_newest(before, room),
                        decreases self@.len(),
                    {
                        let ghost current = self@;
                        proof {
                            lemma_buckets_dom(self.buf);
                        }
                        let first = pop_first_bucket(&mut self.buf);
                        proof {
                            let (tick, _bucket) = first->Some_0;
                            lemma_buckets_dom(self.buf);
                            assert(self@ =~= current.remove(tick));
                            lemma_keep_newest_drops_oldest(current, tick, room);
                        }
                    }
                    proof {
                        lemma_buckets_dom(self.buf);
                        lemma_keep_newest_all(self@, room);
                    }
                }
                let ghost evicted = self@;
                self.buf.insert(new_ts, new_holds);
                proof {
                    lemma_buckets_dom(self.buf);
                    assert(self@ =~= evicted.insert(new_ts, new_holds@));
                }
            },
            None => {
                if msg.message_type == MidiMessageTypes::NoteOn {
                    let mut hold_container: Vec<KeyStatus> = Vec::new();
                    hold_container.push(KeyStatus { key: msg.key, status: HoldStatus::PRESS });
                    self.buf.insert(new_ts, hold_container);
                    proof {
                        lemma_buckets_dom(self.buf);
                        assert(hold_container@ =~= pressed(msg));
                        assert(self@ =~= before.insert(new_ts, pressed(msg)));
                    }
                }
            },
        }
    }
}

/// The predicate that every event satisfies.
pub fn always_true(_k: &KeyMessage) -> (keep: bool)
    ensures
        keep,
{
    true
}

/// The store: the linear log of the run, and the hold projection.
pub struct KeyDb {
    holds: HoldData,
    linear_buf: Vec<KeyMessage>,
}

impl View for KeyDb {
    type V = StoreState;

    closed spec fn view(&self) -> StoreState {
        StoreState {
            log: self.linear_buf@,
            holds: self.holds@,
            capacity: self.holds.capacity(),
        }
    }
}

impl KeyDb {
    /// An empty store whose projection retains up to `bucket_count` ticks.
    pub fn new(bucket_count: usize) -> (db: KeyDb)
        requires
            bucket_count >= 1,
        ensures
            db@ == StoreState::empty(bucket_count as nat),
    {
        KeyDb { linear_buf: Vec::new(), holds: HoldData::new(bucket_count) }
    }

    /// A copy of the log, oldest event first.
    pub fn flat_message_log(&self) -> (log: Vec<KeyMessage>)
        ensures
            log@ == self@.log,
    {
        self.linear_buf.clone()
    }

    /// Accepts the event `msg`, which arrived at tick `tick`, into the log
    /// and into the projection.
    pub fn push_msg(&mut self, msg: KeyMessage, tick: u64)
        requires
            old(self)@.wf(),
        ensures
            final(self)@ == old(self)@.pushed(msg, tick),
            final(self)@.wf(),
    {
        self.linear_buf.push(msg);
        self.holds.update(msg, tick);
    }

    /// Resets the store to empty.
    pub fn clear(&mut self)
        ensures
            final(self)@ == old(self)@.cleared(),
    {
        self.linear_buf.clear();
        self.holds.clear();
    }

    /// The most recent `n` note-offs, newest first.
    pub fn last_n_key_ups_reversed(&self, n: usize) -> (events: Vec<KeyMessage>)
        ensures
            events@ == newest_matching(self@.log, of_kind(MidiMessageTypes::NoteOff), n as nat),
    {
        let is_key_up = |k: &KeyMessage| -> (keep: bool)
            ensures
                keep == (k.message_type == MidiMessageTypes::NoteOff),
            { k.message_type == MidiMessageTypes::NoteOff };
        assert(decides(is_key_up, of_kind(MidiMessageTypes::NoteOff)));
        self.last_n_messages_reverse_chron(Some(is_key_up), n)
    }

    /// The most recent `n` note-ons, newest first.
    pub fn last_n_key_downs_reversed(&self, n: usize) -> (events: Vec<KeyMessage>)
        ensures
            events@ == newest_matching(self@.log, of_kind(MidiMessageTypes::NoteOn), n as nat),
    {
        let is_key_down = |k: &KeyMessage| -> (keep: bool)
            ensures
                keep == (k.message_type == MidiMessageTypes::NoteOn),
            { k.message_type == MidiMessageTypes::NoteOn };
        assert(decides(is_key_down, of_kind(MidiMessageTypes::NoteOn)));
        self.last_n_messages_reverse_chron(Some(is_key_down), n)
    }

    /// The most recent `n` events that satisfy `custom_filter`, newest
    /// first; with no filter, the most recent `n` events.
    pub fn last_n_messages_reverse_chron<F: Fn(&KeyMessage) -> bool>(
        &self,
        custom_filter: Option<F>,
        n: usize,
    ) -> (events: Vec<KeyMessage>)
        requires
            custom_filter matches Some(f) ==> forall|msg: KeyMessage| call_requires(f, (&msg,)),
        ensures
            custom_filter matches Some(f) ==> forall|keep: spec_fn(KeyMessage) -> bool|
                decides(f, keep) ==> events@ == #[trigger] newest_matching(
                    self@.log,
                    keep,
                    n as nat,
                ),
            custom_filter is None ==> events@ == newest_matching(self@.log, any_event(), n as nat),
            custom_filter is None && n <= self@.log.len() ==> events@ == newest(
                self@.log,
                n as nat,
            ),
    {
        let ghost log = self.linear_buf@;
        let mut events: Vec<KeyMessage> = Vec::new();
        let mut i: usize = self.linear_buf.len();
        assert forall|keep: spec_fn(KeyMessage) -> bool|
            events@ == #[trigger] log.skip(i as int).reverse().filter(keep) by {
            reveal(Seq::filter);
            assert(log.skip(i as int).reverse() =~= Seq::<KeyMessage>::empty());
        }
        while i > 0 && events.len() < n
            invariant
                i <= log.len(),
                log == self.linear_buf@,
                custom_filter matches Some(f) ==> forall|msg: KeyMessage|
                    call_requires(f, (&msg,)),
                forall|keep: spec_fn(KeyMessage) -> bool|
                    filters_as(custom_filter, keep) ==> events@ == #[trigger] log.skip(
                        i as int,
                    ).reverse().filter(keep),
                events@.len() <= n,
            decreases i,
        {
            let msg = self.linear_buf[i - 1];
            let matches = match &custom_filter {
                Some(f) => f(&msg),
                None => always_true(&msg),
            };
            let ghost earlier = events@;
            if matches {
                events.push(msg);
            }
            assert forall|keep: spec_fn(KeyMessage) -> bool|
                filters_as(custom_filter, keep) implies events@ == #[trigger] log.skip(
                i - 1,
            ).reverse().filter(keep) by {
                lemma_matching_step(log, keep, i as int);
                assert(earlier == log.skip(i as int).reverse().filter(keep));
                assert(matches == keep(msg));
            }
            i -= 1;
        }
        proof {
            assert forall|keep: spec_fn(KeyMessage) -> bool|
                filters_as(custom_filter, keep) implies events@ == #[trigger] newest_matching(
                log,
                keep,
                n as nat,
            ) by {
                lemma_matching_prefix(log, keep, i as int);
                assert(events@ == log.skip(i as int).reverse().filter(keep));
                if i == 0 {
                    assert(log.skip(0) =~= log);
                }
                assert(events@ =~= newest_matching(log, keep, n as nat));
            }
            if custom_filter is None {
                assert(filters_as(custom_filter, any_event()));
                if n <= log.len() {
                    lemma_newest_matching_any(log, n as nat);
                }
            }
        }
        events
    }

    /// A copy of the hold projection.
    pub fn get_hold_data(&self) -> (copy: TimeBucketedSparseKeyData)
        ensures
            buckets_of(copy) == self@.holds,
    {
        self.holds.raw_buf()
    }
}

/// Whether an executable predicate computes the predicate `keep`.
pub open spec fn decides<F: Fn(&KeyMessage) -> bool>(
    f: F,
    keep: spec_fn(KeyMessage) -> bool,
) -> bool {
    forall|msg: KeyMessage, verdict: bool| #[trigger]
        call_ensures(f, (&msg,), verdict) ==> verdict == keep(msg)
}

/// Whether an optional filter computes the predicate `keep`; no filter
/// stands for the predicate that every event satisfies.
pub open spec fn filters_as<F: Fn(&KeyMessage) -> bool>(
    custom_filter: Option<F>,
    keep: spec_fn(KeyMessage) -> bool,
) -> bool {
    match custom_filter {
        Some(f) => decides(f, keep),
        None => keep == any_event(),
    }
}

} // verus!
