//! Confirmation tracking: the difference between "the node took it" and "the chain
//! kept it".
//!
//! An accepted submission only entered someone's mempool. The tracker follows it
//! from there: observed blocks are matched against the in-flight set, a height
//! seen again with a different block hash is a reorg and takes its confirmations
//! back, and whatever outlives the caller's TTL is written off, counted apart from
//! confirmations. Latencies are kept per tip bucket.
//!
//! Everything is deterministic: time arrives as caller-supplied milliseconds,
//! blocks as height, hash and ids, and each operation's effect is a function of
//! the [`Ledger`] the tracker stands for.

use crate::ledger;
use crate::histogram::Histogram;
use crate::idmap::IdMap;
use crate::ledger::ConfirmedRecord;
use crate::ledger::HeightView;
use crate::ledger::Ledger;
use crate::ledger::MAX_TRACKED;
use std::collections::VecDeque;
use vstd::prelude::*;

pub use crate::digest::BlockId;
pub use crate::digest::TxId;
pub use crate::histogram::percentile_ms;
pub use crate::histogram::BucketLatency;
pub use crate::histogram::TipBucket;
pub use crate::histogram::MAX_SAMPLES_PER_BUCKET;
pub use crate::histogram::MAX_TIP_BUCKETS;
pub use crate::ledger::Confirmed;
pub use crate::ledger::DropReason;
pub use crate::ledger::Dropped;
pub use crate::ledger::Stats;
pub use crate::ledger::Submission;
pub use crate::ledger::TrackerEvent;
pub use crate::ledger::Unmined;
pub use crate::ledger::MAX_CONFIRMED_TRACKED;
pub use crate::ledger::MAX_DROP_MEMORY;
pub use crate::ledger::MAX_IN_FLIGHT;
pub use crate::ledger::MAX_TRACKED_HEIGHTS;

verus! {

/// One observed height as it is stored.
struct HeightEntry {
    height: u64,
    block: BlockId,
    records: Vec<ConfirmedRecord>,
}

impl HeightEntry {
    spec fn view(&self) -> HeightView {
        HeightView { height: self.height, block: self.block, records: self.records@ }
    }
}

spec fn entries(v: Seq<HeightEntry>) -> Seq<HeightView> {
    v.map_values(|e: HeightEntry| e.view())
}

/// Where an id stands in a queue that lists it once.
fn place_in(queue: &VecDeque<TxId>, id: TxId) -> (at: usize)
    requires
        queue@.contains(id),
        queue@.no_duplicates(),
    ensures
        at == queue@.index_of(id),
        at < queue@.len(),
{
    let ghost q = queue@;
    let mut at: usize = 0;
    while at < queue.len() && queue[at] != id
        invariant
            queue@ == q,
            at <= q.len(),
            forall|k: int| 0 <= k < at ==> q[k] != id,
        decreases q.len() - at,
    {
        at = at + 1;
    }
    proof {
        let i = q.index_of(id);
        assert(0 <= i < q.len() && q[i] == id);
        assert(at < q.len());
        assert(q[at as int] == id);
        assert(i == at);
    }
    at
}

/// Tracks submitted transactions through to inclusion, reorg and expiry.
///
/// Identical call sequences produce identical event sequences, including their
/// order.
pub struct ConfirmTracker {
    in_flight: IdMap<Submission>,
    order: VecDeque<TxId>,
    /// Nothing in the order before this place is in flight.
    live_from: usize,
    by_height: Vec<HeightEntry>,
    confirmed_at: IdMap<u64>,
    dropped: IdMap<Submission>,
    dropped_order: VecDeque<TxId>,
    hist: Histogram,
    stats: Stats,
}

impl ConfirmTracker {
    /// What the tracker remembers.
    pub closed spec fn view(&self) -> Ledger {
        Ledger {
            in_flight: self.in_flight@,
            order: self.order@,
            heights: entries(self.by_height@),
            confirmed_at: self.confirmed_at@,
            dropped: self.dropped@,
            dropped_order: self.dropped_order@,
            hist: self.hist@,
            stats: self.stats,
        }
    }

    spec fn parts_wf(&self) -> bool {
        &&& self.in_flight.wf()
        &&& self.confirmed_at.wf()
        &&& self.dropped.wf()
        &&& self.hist.wf()
        &&& self.live_from <= self.order@.len()
        &&& forall|k: int|
            0 <= k < self.live_from ==> !self.in_flight@.contains_key(#[trigger] self.order@[k])
    }

    /// The tracker is in order: every bound holds, no transaction is in two places,
    /// and the index of confirmations matches the retained heights.
    pub closed spec fn wf(&self) -> bool {
        self.parts_wf() && ledger::ledger_wf(self@)
    }

    /// A tracker in order stands for a ledger in order.
    pub proof fn law_a_tracker_keeps_its_ledger_in_order(&self)
        requires
            self.wf(),
        ensures
            ledger::ledger_wf(self@),
    {
    }

    /// A fresh tracker.
    pub fn new() -> (t: Self)
        ensures
            t.wf(),
            t@ == ledger::empty_ledger(),
    {
        let t = ConfirmTracker {
            in_flight: IdMap::new(),
            order: VecDeque::new(),
            live_from: 0,
            by_height: Vec::new(),
            confirmed_at: IdMap::new(),
            dropped: IdMap::new(),
            dropped_order: VecDeque::new(),
            hist: Histogram::new(),
            stats: Stats::default(),
        };
        proof {
            ledger::lemma_empty_ledger();
            assert(t@ =~= ledger::empty_ledger());
        }
        t
    }

    /// Bring the `in_flight` counter up to date.
    fn recount(&mut self)
        requires
            old(self).parts_wf(),
            ledger::held(old(self)@) <= MAX_TRACKED,
        ensures
            final(self).parts_wf(),
            final(self)@ == ledger::counted(old(self)@),
    {
        self.stats.in_flight = self.in_flight.len() as u64;
        assert(self@ =~= ledger::counted(old(self)@));
    }

    /// Take an id out of the drop memory, if it is there.
    fn forget_drop(&mut self, txid: TxId) -> (was: Option<Submission>)
        requires
            old(self).parts_wf(),
            ledger::drops_ok(old(self)@.dropped, old(self)@.dropped_order),
        ensures
            final(self).parts_wf(),
            final(self)@ == ledger::without_drop(old(self)@, txid),
            match was {
                Some(s) => old(self)@.dropped.contains_key(txid) && s == old(self)@.dropped[txid],
                None => !old(self)@.dropped.contains_key(txid),
            },
    {
        let was = self.dropped.remove(&txid);
        if was.is_none() {
            assert(self@ =~= old(self)@);
            return None;
        }
        assert(self.dropped_order@.contains(txid));
        let at: usize = place_in(&self.dropped_order, txid);
        self.dropped_order.remove(at);
        self.stats.dropped_expired = self.stats.dropped_expired.saturating_sub(1);
        assert(self@ =~= ledger::without_drop(old(self)@, txid));
        was
    }

    /// Shed the oldest live in-flight registration.
    fn evict_oldest(&mut self, now_ms: u64) -> (r: Option<TrackerEvent>)
        requires
            old(self).parts_wf(),
            ledger::core_wf(old(self)@, 0, Seq::empty()),
            ledger::order_tight(old(self)@),
            old(self)@.in_flight.dom().len() > 0,
        ensures
            final(self).parts_wf(),
            final(self)@ == ledger::without_oldest(old(self)@),
            r == Some(ledger::eviction(old(self)@, now_ms)),
    {
        let ghost l = self@;
        proof {
            ledger::lemma_without_oldest(l);
        }
        let mut at: usize = self.live_from;
        while at < self.order.len() && !self.in_flight.contains_key(&self.order[at])
            invariant
                self.parts_wf(),
                self@ == l,
                at <= l.order.len(),
                forall|k: int| 0 <= k < at ==> !l.in_flight.contains_key(#[trigger] l.order[k]),
            decreases l.order.len() - at,
        {
            at = at + 1;
        }
        proof {
            let v = ledger::oldest(l);
            let i = choose|i: int| 0 <= i < l.order.len() && l.order[i] == v;
            assert(l.in_flight.contains_key(l.order[i]));
            assert(at < l.order.len());
            ledger::lemma_first_live(l.order, l.in_flight, at as int);
            assert(l.order[at as int] == v);
            assert(l.order.index_of(v) == at);
        }
        let victim = self.order[at];
        self.order.remove(at);
        self.live_from = at;
        match self.in_flight.remove(&victim) {
            Some(submission) => {
                self.stats.dropped_evicted = self.stats.dropped_evicted.saturating_add(1);
                assert(self.in_flight@.dom() =~= l.in_flight.dom().remove(victim));
                self.stats.in_flight = self.in_flight.len() as u64;
                proof {
                    assert forall|k: int| 0 <= k < at implies !self.in_flight@.contains_key(
                        #[trigger] self.order@[k],
                    ) by {
                        assert(self.order@[k] == l.order[k]);
                    }
                    assert(self@ =~= ledger::without_oldest(l));
                }
                Some(
                    TrackerEvent::Dropped(
                        Dropped {
                            txid: victim,
                            submission,
                            age_ms: now_ms.saturating_sub(submission.submitted_ms),
                            reason: DropReason::CapacityEvicted,
                        },
                    ),
                )
            },
            None => None,
        }
    }

    /// Shed the oldest registrations until those in flight are within the cap, and report
    /// each.
    fn shed_to_cap(&mut self, now_ms: u64, events: &mut Vec<TrackerEvent>)
        requires
            old(self).parts_wf(),
            ledger::core_wf(old(self)@, 0, Seq::empty()),
            ledger::order_tight(old(self)@),
        ensures
            final(self).parts_wf(),
            final(self)@ == ledger::shed(old(self)@),
            final(events)@ == old(events)@ + ledger::shed_events(old(self)@, now_ms),
    {
        let ghost l = self@;
        let ghost start = events@;
        while self.in_flight.len() > MAX_IN_FLIGHT
            invariant
                self.parts_wf(),
                ledger::core_wf(self@, 0, Seq::empty()),
                ledger::order_tight(self@),
                ledger::shed(self@) == ledger::shed(l),
                start + ledger::shed_events(l, now_ms) == events@ + ledger::shed_events(
                    self@,
                    now_ms,
                ),
            decreases self@.in_flight.dom().len(),
        {
            let ghost here = self@;
            let ghost log = events@;
            proof {
                ledger::lemma_without_oldest(here);
            }
            if let Some(event) = self.evict_oldest(now_ms) {
                events.push(event);
                proof {
                    let rest = ledger::shed_events(self@, now_ms);
                    assert(log + (seq![event] + rest) =~= log.push(event) + rest);
                }
            }
        }
        assert(events@ + Seq::<TrackerEvent>::empty() =~= events@);
    }

    /// Drop the ids that are no longer held from the order queue, where there are any.
    fn compact_order(&mut self)
        requires
            old(self).parts_wf(),
            ledger::core_wf(old(self)@, 0, Seq::empty()),
        ensures
            final(self).parts_wf(),
            final(self)@ == ledger::compacted(old(self)@),
    {
        let ghost l = self@;
        proof {
            ledger::lemma_order_len(l);
        }
        if self.order.len() == self.in_flight.len() + self.confirmed_at.len() + self.dropped.len() {
            return;
        }
        let ghost f = ledger::kept(l);
        let mut kept: VecDeque<TxId> = VecDeque::new();
        let mut i: usize = 0;
        proof {
            reveal(Seq::filter);
            assert(l.order.take(0).filter(f) =~= Seq::<TxId>::empty());
        }
        while i < self.order.len()
            invariant
                i <= self.order@.len(),
                self.parts_wf(),
                self@ == l,
                f == ledger::kept(l),
                kept@ == l.order.take(i as int).filter(f),
            decreases self.order@.len() - i,
        {
            let t = self.order[i];
            proof {
                reveal(Seq::filter);
                assert(l.order.take(i + 1).drop_last() =~= l.order.take(i as int));
                assert(l.order.take(i + 1).last() == t);
            }
            if self.in_flight.contains_key(&t) || self.confirmed_at.contains_key(&t)
                || self.dropped.contains_key(&t) {
                kept.push_back(t);
            }
            i = i + 1;
        }
        assert(l.order.take(i as int) =~= l.order);
        self.order = kept;
        self.live_from = 0;
        assert(self@ =~= ledger::compacted(l));
    }

    /// Register an accepted submission.
    ///
    /// Ignored if this id is already in flight or already confirmed: a resubmission
    /// of the same transaction is the same transaction, and the first submission
    /// time is the honest one to measure from. A previously dropped id leaves the
    /// drop memory and starts a fresh measurement. An event is returned exactly when
    /// the in-flight set was full and the oldest registration had to be shed.
    pub fn register(
        &mut self,
        txid: TxId,
        submitted_ms: u64,
        submitted_height: u64,
        tip_grains: u128,
        bucket: TipBucket,
    ) -> (r: Option<TrackerEvent>)
        requires
            old(self).wf(),
        ensures
            final(self).wf(),
            final(self)@ == ledger::registered(
                old(self)@,
                txid,
                (Submission { submitted_ms, submitted_height, tip_grains, bucket }),
            ),
            r == if ledger::must_shed(old(self)@, txid) {
                Some(ledger::eviction(ledger::cleared(old(self)@, txid), submitted_ms))
            } else {
                None
            },
    {
        let ghost l = self@;
        if self.in_flight.contains_key(&txid) || self.confirmed_at.contains_key(&txid) {
            return None;
        }
        let submission = Submission { submitted_ms, submitted_height, tip_grains, bucket };
        proof {
            ledger::lemma_cleared(l, txid);
        }
        if self.forget_drop(txid).is_some() {
            let at: usize = place_in(&self.order, txid);
            self.order.remove(at);
            self.live_from = 0;
        }
        let ghost fresh = self@;
        assert(fresh =~= ledger::cleared(l, txid));
        let evicted = if self.in_flight.len() >= MAX_IN_FLIGHT {
            self.evict_oldest(submitted_ms)
        } else {
            None
        };
        let ghost room = self@;
        proof {
            if ledger::must_shed(l, txid) {
                ledger::lemma_without_oldest(fresh);
            }
            assert(!room.order.contains(txid));
            ledger::lemma_order_push(room.order, txid);
        }
        self.in_flight.insert(txid, submission);
        self.order.push_back(txid);
        let ghost n = Ledger {
            in_flight: room.in_flight.insert(txid, submission),
            order: room.order.push(txid),
            ..room
        };
        proof {
            assert(self@ =~= n);
            assert(n.in_flight.dom() =~= room.in_flight.dom().insert(txid));
            assert(ledger::held(n) <= MAX_TRACKED);
            assert(ledger::core_wf(n, 0, Seq::empty()));
        }
        self.recount();
        evicted
    }

    /// Roll back every recorded height from `from` upwards, tip first.
    fn rollback_from(&mut self, from: u64, events: &mut Vec<TrackerEvent>)
        requires
            old(self).parts_wf(),
            ledger::core_wf(old(self)@, 0, Seq::empty()),
        ensures
            final(self).parts_wf(),
            ledger::core_wf(final(self)@, 0, Seq::empty()),
            final(self)@ == ledger::counted(ledger::rolled_back(old(self)@, from)),
            final(events)@ == old(events)@ + ledger::rollback_events(old(self)@.heights, from),
            forall|i: int|
                0 <= i < final(self)@.heights.len() ==> (
                #[trigger] final(self)@.heights[i]).height < from,
    {
        let ghost l = self@;
        let ghost start = events@;
        // What comes back may stand anywhere in the order.
        self.live_from = 0;
        assert(self@ =~= l);
        assert(start + ledger::rollback_events(l.heights, from) =~= events@ + ledger::rollback_events(
            self@.heights,
            from,
        ));
        while self.by_height.len() > 0 && self.by_height[self.by_height.len() - 1].height >= from
            invariant
                self.parts_wf(),
                self.live_from == 0,
                ledger::core_wf(self@, 0, Seq::empty()),
                ledger::rolled_back(self@, from) == ledger::rolled_back(l, from),
                start + ledger::rollback_events(l.heights, from) == events@ + ledger::rollback_events(
                    self@.heights,
                    from,
                ),
            decreases self.by_height@.len(),
        {
            let ghost before = self@;
            let ghost rows = self.by_height@;
            match self.by_height.pop() {
                Some(entry) => {
                    let ghost e = entry.view();
                    let ghost base = Ledger { heights: before.heights.drop_last(), ..before };
                    let ghost events_then = events@;
                    proof {
                        assert(self.by_height@ =~= rows.drop_last());
                        assert(before.heights.last() == e);
                        assert(entries(self.by_height@) =~= before.heights.drop_last());
                        assert(self@ =~= base);
                        ledger::lemma_take_last(before.heights, before.confirmed_at);
                        assert(ledger::core_wf(base, e.height, e.records));
                        assert(entry.records@.take(entry.records@.len() as int) =~= e.records);
                        assert(events_then + ledger::unmined_events(e, e.records) =~= events@
                            + ledger::unmined_events(e, e.records));
                    }
                    let mut n: usize = entry.records.len();
                    while n > 0
                        invariant
                            n <= entry.records@.len(),
                            e == entry.view(),
                            self.parts_wf(),
                            ledger::core_wf(self@, e.height, entry.records@.take(n as int)),
                            self.live_from == 0,
                            self@.heights == base.heights,
                            ledger::unmined_all(self@, entry.records@.take(n as int)) == ledger::unmined_all(
                                base,
                                e.records,
                            ),
                            events_then + ledger::unmined_events(e, e.records) == events@ + ledger::unmined_events(
                                e,
                                entry.records@.take(n as int),
                            ),
                        decreases n,
                    {
                        let rec = entry.records[n - 1];
                        let ghost pending = entry.records@.take(n as int);
                        let ghost here = self@;
                        let ghost log = events@;
                        proof {
                            assert(pending.last() == rec);
                            assert(pending.drop_last() =~= entry.records@.take(n - 1));
                            ledger::lemma_unmined_one(here, e.height, pending);
                        }
                        self.confirmed_at.remove(&rec.txid);
                        self.hist.retract(rec.submission.bucket, rec.latency_ms);
                        self.stats.confirmed = self.stats.confirmed.saturating_sub(1);
                        self.stats.unmined_total = self.stats.unmined_total.saturating_add(1);
                        self.in_flight.insert(rec.txid, rec.submission);
                        let event = TrackerEvent::Unmined(
                            Unmined {
                                txid: rec.txid,
                                submission: rec.submission,
                                height: entry.height,
                                block: entry.block,
                            },
                        );
                        events.push(event);
                        n = n - 1;
                        proof {
                            assert(self@ =~= ledger::unmined_one(here, rec));
                            let rest = ledger::unmined_events(e, entry.records@.take(n as int));
                            assert(ledger::unmined_events(e, pending) == seq![event] + rest);
                            assert(log + (seq![event] + rest) =~= log.push(event) + rest);
                        }
                    }
                    proof {
                        let none = entry.records@.take(0);
                        assert(none =~= Seq::<ConfirmedRecord>::empty());
                        assert(self@ == ledger::unmined_all(base, e.records));
                        ledger::lemma_no_pending(self@, e.height, 0);
                        ledger::lemma_unmined_all_heights(base, e.records);
                        assert((Ledger { heights: before.heights.drop_last(), ..self@ }) =~= self@);
                        assert(ledger::rolled_back(before, from) == ledger::rolled_back(self@, from));
                        let rest = ledger::rollback_events(self@.heights, from);
                        assert(ledger::rollback_events(before.heights, from) == ledger::unmined_events(e, e.records)
                            + rest);
                        assert(events@ + ledger::unmined_events(e, none) =~= events@);
                        assert(events_then + (ledger::unmined_events(e, e.records) + rest) =~= (events_then
                            + ledger::unmined_events(e, e.records)) + rest);
                    }
                },
                None => {
                    assert(false);
                },
            }
        }
        proof {
            let hs = self@.heights;
            if hs.len() > 0 {
                assert(hs.last() == self.by_height@.last().view());
                assert forall|i: int| 0 <= i < hs.len() implies (#[trigger] hs[i]).height < from by {
                    if i < hs.len() - 1 {
                        assert(hs[i].height < hs[hs.len() - 1].height);
                    }
                }
            }
            assert(ledger::rolled_back(self@, from) == self@);
            assert(events@ + ledger::rollback_events(hs, from) =~= events@);
        }
        self.recount();
    }

    /// The block recorded at a height.
    fn block_at(&self, height: u64) -> (r: Option<BlockId>)
        requires
            ledger::index_ok(self@.heights, self@.confirmed_at, 0, Seq::empty()),
        ensures
            match r {
                Some(b) => forall|x: BlockId| ledger::knows_block(self@, height, x) <==> x == b,
                None => ledger::height_free(self@.heights, height),
            },
            r is Some <==> ledger::knows_height(self@, height),
    {
        let mut i: usize = 0;
        let ghost hs = self@.heights;
        while i < self.by_height.len()
            invariant
                hs == entries(self.by_height@),
                hs == self@.heights,
                ledger::index_ok(hs, self@.confirmed_at, 0, Seq::empty()),
                i <= hs.len(),
                forall|k: int| 0 <= k < i ==> (#[trigger] hs[k]).height != height,
            decreases hs.len() - i,
        {
            if self.by_height[i].height == height {
                let b = self.by_height[i].block;
                proof {
                    assert(hs[i as int].height == height);
                    assert(hs[i as int].block == b);
                    assert forall|x: BlockId| ledger::knows_block(self@, height, x) <==> x == b by {
                        if ledger::knows_block(self@, height, x) {
                            let j = choose|j: int|
                                0 <= j < hs.len() && (#[trigger] hs[j]).height == height
                                    && hs[j].block == x;
                            if j < i {
                                assert(hs[j].height < hs[i as int].height);
                            } else if i < j {
                                assert(hs[i as int].height < hs[j].height);
                            }
                        }
                    }
                }
                return Some(b);
            }
            assert(hs[i as int].height != height);
            i = i + 1;
        }
        None
    }

    /// Confirm one id of a block, if it is one we are waiting for.
    fn match_one(
        &mut self,
        txid: TxId,
        height: u64,
        block: BlockId,
        now_ms: u64,
        recorded: &mut Vec<ConfirmedRecord>,
        events: &mut Vec<TrackerEvent>,
    )
        requires
            old(self).parts_wf(),
            ledger::core_wf(old(self)@, height, old(recorded)@),
            ledger::height_free(old(self)@.heights, height),
        ensures
            final(self).parts_wf(),
            ledger::core_wf(final(self)@, height, final(recorded)@),
            final(self)@ == ledger::matched_one(old(self)@, txid, height, now_ms),
            final(self)@.heights == old(self)@.heights,
            ledger::matchable(old(self)@, txid) ==> {
                &&& final(recorded)@ == old(recorded)@.push(ledger::record_of(old(self)@, txid, now_ms))
                &&& final(events)@ == old(events)@.push(
                    ledger::confirmation(old(self)@, txid, height, block, now_ms),
                )
            },
            !ledger::matchable(old(self)@, txid) ==> {
                &&& final(recorded)@ == old(recorded)@
                &&& final(events)@ == old(events)@
            },
    {
        let ghost l = self@;
        let waiting = self.in_flight.remove(&txid);
        let late: bool = waiting.is_none();
        let found = match waiting {
            Some(s) => {
                assert(self@ =~= ledger::taken(l, txid));
                Some(s)
            },
            None => {
                assert(self.in_flight@ =~= l.in_flight);
                assert(self@ =~= l);
                match self.forget_drop(txid) {
                    Some(s) => {
                        self.stats.late_total = self.stats.late_total.saturating_add(1);
                        assert(self@ =~= ledger::taken(l, txid));
                        Some(s)
                    },
                    None => None,
                }
            },
        };
        let submission = match found {
            Some(s) => s,
            None => {
                return ;
            },
        };
        let ghost t = self@;
        proof {
            ledger::lemma_matched_one(l, txid, height, now_ms, recorded@);
            ledger::lemma_without_drop(l, txid, height, recorded@);
            assert(t.confirmed_at == l.confirmed_at);
        }
        let latency_ms: u64 = now_ms.saturating_sub(submission.submitted_ms);
        let blocks_to_inclusion: u64 = height.saturating_sub(submission.submitted_height);
        let (unbucketed, evicted) = self.hist.record(submission.bucket, latency_ms);
        self.stats.unbucketed_samples = self.stats.unbucketed_samples.saturating_add(unbucketed);
        self.stats.evicted_samples = self.stats.evicted_samples.saturating_add(evicted);
        recorded.push(ConfirmedRecord { txid, submission, latency_ms });
        self.confirmed_at.insert(txid, height);
        self.stats.confirmed = self.stats.confirmed.saturating_add(1);
        events.push(
            TrackerEvent::Confirmed(
                Confirmed {
                    txid,
                    submission,
                    height,
                    block,
                    blocks_to_inclusion,
                    latency_ms,
                    late,
                },
            ),
        );
        assert(self@ =~= ledger::matched_one(l, txid, height, now_ms));
    }

    /// Forget the oldest heights until both retention bounds hold. Forgotten
    /// confirmations stay counted; they merely stop being reorg-trackable.
    fn prune_history(&mut self)
        requires
            old(self).parts_wf(),
            ledger::core_wf(old(self)@, 0, Seq::empty()),
        ensures
            final(self).parts_wf(),
            ledger::core_wf(final(self)@, 0, Seq::empty()),
            final(self)@ == ledger::pruned(old(self)@),
            final(self)@.heights.len() <= MAX_TRACKED_HEIGHTS,
            final(self)@.confirmed_at.dom().len() <= MAX_CONFIRMED_TRACKED,
    {
        let ghost l = self@;
        while self.by_height.len() > 0 && (self.by_height.len() > MAX_TRACKED_HEIGHTS
            || self.confirmed_at.len() > MAX_CONFIRMED_TRACKED)
            invariant
                self.parts_wf(),
                ledger::core_wf(self@, 0, Seq::empty()),
                ledger::pruned(self@) == ledger::pruned(l),
            decreases self.by_height@.len(),
        {
            let ghost before = self@;
            let ghost rows = self.by_height@;
            let entry = self.by_height.remove(0);
            let ghost e = entry.view();
            let ghost rest = before.heights.drop_first();
            proof {
                assert(self.by_height@ =~= rows.drop_first());
                assert(before.heights[0] == e);
                assert(entries(self.by_height@) =~= rest);
                ledger::lemma_take_first(before.heights, before.confirmed_at);
                assert(self@ =~= (Ledger { heights: rest, ..before }));
                assert(entry.records@.take(entry.records@.len() as int) =~= e.records);
            }
            let mut n: usize = entry.records.len();
            while n > 0
                invariant
                    n <= entry.records@.len(),
                    e == entry.view(),
                    self.parts_wf(),
                    ledger::core_wf(self@, e.height, entry.records@.take(n as int)),
                    self@ == (Ledger {
                        heights: rest,
                        confirmed_at: self@.confirmed_at,
                        ..before
                    }),
                    ledger::forgotten(self@.confirmed_at, entry.records@.take(n as int)) == ledger::forgotten(
                        before.confirmed_at,
                        e.records,
                    ),
                decreases n,
            {
                let rec = entry.records[n - 1];
                let ghost pending = entry.records@.take(n as int);
                let ghost here = self@;
                proof {
                    assert(pending.last() == rec);
                    assert(pending.drop_last() =~= entry.records@.take(n - 1));
                    ledger::lemma_forget_one(here.heights, here.confirmed_at, e.height, pending);
                }
                self.confirmed_at.remove(&rec.txid);
                n = n - 1;
                proof {
                    assert(self@.confirmed_at.dom() =~= here.confirmed_at.dom().remove(rec.txid));
                    assert(self@ =~= (Ledger {
                        confirmed_at: here.confirmed_at.remove(rec.txid),
                        ..here
                    }));
                }
            }
            proof {
                assert(entry.records@.take(0) =~= Seq::<ConfirmedRecord>::empty());
                ledger::lemma_no_pending(self@, e.height, 0);
                assert(self@ =~= (Ledger {
                    heights: rest,
                    confirmed_at: ledger::forgotten(before.confirmed_at, e.records),
                    ..before
                }));
            }
        }
        proof {
            if self@.heights.len() == 0 {
                assert(self@.confirmed_at.dom() =~= Set::empty()) by {
                    assert forall|id: TxId| !self@.confirmed_at.contains_key(id) by {}
                }
            }
        }
    }

    /// Observe a block: match its transactions against what we are tracking.
    ///
    /// A height already recorded with the same block is a duplicate and changes
    /// nothing. A height recorded with a different block was replaced by a reorg:
    /// it and every recorded height above it are rolled back, tip first, each of
    /// their confirmations reported [`Unmined`] and returned to the in-flight set
    /// with its original submission record. Then each id, in the given order, is
    /// matched: in flight or recently dropped becomes [`Confirmed`], anything else
    /// is ignored. Where a rollback leaves more in flight than [`MAX_IN_FLIGHT`], the
    /// oldest registrations are shed and reported, as on registration.
    pub fn observe_block(
        &mut self,
        height: u64,
        block: BlockId,
        txids: &[TxId],
        now_ms: u64,
    ) -> (events: Vec<TrackerEvent>)
        requires
            old(self).wf(),
        ensures
            final(self).wf(),
            final(self)@ == ledger::observed(old(self)@, height, block, txids@, now_ms),
            events@ == ledger::observed_events(old(self)@, height, block, txids@, now_ms),
    {
        let ghost l = self@;
        let mut events: Vec<TrackerEvent> = Vec::new();
        let known = self.block_at(height);
        match known {
            Some(b) => {
                if b == block {
                    return events;
                }
                self.rollback_from(height, &mut events);
            },
            None => {},
        }
        let ghost base = self@;
        let ghost lost = events@;
        proof {
            assert(!ledger::knows_block(l, height, block));
            assert(base == ledger::settled(l, height));
            if ledger::knows_height(l, height) {
                assert(lost =~= ledger::rollback_events(l.heights, height));
            }
            assert(ledger::height_free(base.heights, height));
            ledger::lemma_no_pending(base, 0, height);
        }
        let mut recorded: Vec<ConfirmedRecord> = Vec::new();
        let mut i: usize = 0;
        proof {
            assert(txids@.take(0) =~= Seq::<TxId>::empty());
            assert(recorded@ =~= Seq::<ConfirmedRecord>::empty());
            assert(events@ =~= lost + ledger::matched_events(base, txids@.take(0), height, block, now_ms));
        }
        while i < txids.len()
            invariant
                i <= txids@.len(),
                self.parts_wf(),
                ledger::core_wf(self@, height, recorded@),
                ledger::height_free(self@.heights, height),
                self@ == ledger::matched(base, txids@.take(i as int), height, now_ms),
                recorded@ == ledger::matched_records(base, txids@.take(i as int), height, now_ms),
                events@ == lost + ledger::matched_events(
                    base,
                    txids@.take(i as int),
                    height,
                    block,
                    now_ms,
                ),
            decreases txids@.len() - i,
        {
            let ghost head = txids@.take(i as int);
            let ghost next = txids@.take(i + 1);
            let ghost log = events@;
            proof {
                assert(next.drop_last() =~= head);
                assert(next.last() == txids@[i as int]);
            }
            self.match_one(txids[i], height, block, now_ms, &mut recorded, &mut events);
            proof {
                let e = ledger::matched_events(base, head, height, block, now_ms);
                assert(events@ =~= lost + ledger::matched_events(base, next, height, block, now_ms));
            }
            i = i + 1;
        }
        proof {
            assert(txids@.take(i as int) =~= txids@);
        }
        let ghost m = self@;
        let ghost e = HeightView { height, block, records: recorded@ };
        let mut at: usize = self.by_height.len();
        let entry = HeightEntry { height, block, records: recorded };
        proof {
            ledger::lemma_with_height(m.heights, m.confirmed_at, e);
            ledger::lemma_with_height_place(m.heights, e);
        }
        let ghost rows = self.by_height@;
        while at > 0 && self.by_height[at - 1].height > height
            invariant
                at <= self.by_height@.len(),
                self.by_height@ == rows,
                entries(rows) == m.heights,
                forall|k: int| at <= k < rows.len() ==> (#[trigger] m.heights[k]).height > height,
            decreases at,
        {
            assert(m.heights[at - 1].height > height);
            at = at - 1;
        }
        proof {
            let place = ledger::height_place(m.heights, e);
            if at > 0 {
                assert(m.heights[at - 1].height <= height);
                assert(m.heights[at - 1].height < height);
                if place < at {
                    assert(e.height < m.heights[at - 1].height);
                }
            }
            if place > at {
                assert(m.heights[place - 1].height < e.height);
                assert(m.heights[place - 1].height > height);
            }
            assert(place == at);
        }
        self.by_height.insert(at, entry);
        proof {
            assert(entries(self.by_height@) =~= ledger::with_height(m.heights, e));
            assert(self@ =~= (Ledger { heights: ledger::with_height(m.heights, e), ..m }));
            assert(ledger::core_wf(self@, 0, Seq::empty()));
        }
        self.prune_history();
        proof {
            ledger::lemma_compacted(self@);
        }
        self.compact_order();
        assert(self@ == ledger::recorded(l, height, block, txids@, now_ms));
        proof {
            ledger::lemma_shed(self@);
        }
        self.shed_to_cap(now_ms, &mut events);
        self.recount();
        events
    }

    /// Remember a drop, forgetting the oldest one past the bound.
    fn remember_drop(&mut self, txid: TxId, submission: Submission)
        requires
            old(self).parts_wf(),
            ledger::drops_ok(old(self)@.dropped, old(self)@.dropped_order),
        ensures
            final(self).parts_wf(),
            final(self)@ == ledger::with_drop(old(self)@, txid, submission),
    {
        let ghost l = self@;
        self.dropped.insert(txid, submission);
        self.dropped_order.push_back(txid);
        if self.dropped_order.len() > MAX_DROP_MEMORY {
            let ghost q = self.dropped_order@;
            match self.dropped_order.pop_front() {
                Some(id) => {
                    assert(self.dropped_order@ =~= q.drop_first());
                    self.dropped.remove(&id);
                },
                None => {},
            }
        }
        assert(self@ =~= ledger::with_drop(l, txid, submission));
    }

    /// Report everything in flight for at least `ttl_ms` as [`DropReason::Expired`].
    ///
    /// The age saturates, so a submission stamped in the future is simply not
    /// expired. A `ttl_ms` of 0 expires everything. Events come back in
    /// registration order, and each dropped id is remembered so a late inclusion is
    /// still recognized.
    pub fn expire(&mut self, now_ms: u64, ttl_ms: u64) -> (events: Vec<TrackerEvent>)
        requires
            old(self).wf(),
        ensures
            final(self).wf(),
            final(self)@ == ledger::swept(old(self)@, now_ms, ttl_ms),
            events@ == ledger::expired_events(
                old(self)@,
                ledger::sweep_list(old(self)@, now_ms, ttl_ms),
                now_ms,
            ),
    {
        let ghost l = self@;
        let ghost f = ledger::overdue(l.in_flight, now_ms, ttl_ms);
        let mut expired: Vec<TxId> = Vec::new();
        let mut i: usize = 0;
        proof {
            reveal(Seq::filter);
            assert(l.order.take(0).filter(f) =~= Seq::<TxId>::empty());
        }
        while i < self.order.len()
            invariant
                i <= self.order@.len(),
                self.parts_wf(),
                self@ == l,
                f == ledger::overdue(l.in_flight, now_ms, ttl_ms),
                expired@ == l.order.take(i as int).filter(f),
            decreases self.order@.len() - i,
        {
            let t = self.order[i];
            proof {
                reveal(Seq::filter);
                assert(l.order.take(i + 1).drop_last() =~= l.order.take(i as int));
                assert(l.order.take(i + 1).last() == t);
            }
            match self.in_flight.get(&t) {
                Some(s) => {
                    if now_ms.saturating_sub(s.submitted_ms) >= ttl_ms {
                        expired.push(t);
                    }
                },
                None => {},
            }
            i = i + 1;
        }
        assert(l.order.take(i as int) =~= l.order);
        let ghost list = ledger::sweep_list(l, now_ms, ttl_ms);
        assert(expired@ == list);
        let mut events: Vec<TrackerEvent> = Vec::new();
        let mut j: usize = 0;
        proof {
            assert(list.take(0) =~= Seq::<TxId>::empty());
            assert(events@ =~= Seq::<TrackerEvent>::empty());
        }
        while j < expired.len()
            invariant
                j <= expired@.len(),
                expired@ == list,
                self.parts_wf(),
                ledger::core_wf(self@, 0, Seq::empty()),
                self@.heights == l.heights,
                self@.confirmed_at == l.confirmed_at,
                self@.in_flight.dom().len() <= MAX_IN_FLIGHT,
                self@ == ledger::expired_all(l, list.take(j as int)),
                events@ == ledger::expired_events(l, list.take(j as int), now_ms),
            decreases expired@.len() - j,
        {
            let txid = expired[j];
            let ghost here = self@;
            proof {
                assert(list.take(j + 1).drop_last() =~= list.take(j as int));
                assert(list.take(j + 1).last() == txid);
            }
            match self.in_flight.remove(&txid) {
                Some(submission) => {
                    proof {
                        ledger::lemma_expired_one(here, txid);
                        assert(self@ =~= (Ledger { in_flight: here.in_flight.remove(txid), ..here }));
                        assert(self@.in_flight.dom() =~= here.in_flight.dom().remove(txid));
                    }
                    self.remember_drop(txid, submission);
                    self.stats.dropped_expired = self.stats.dropped_expired.saturating_add(1);
                    assert(self@ =~= ledger::expired_one(here, txid));
                    events.push(
                        TrackerEvent::Dropped(
                            Dropped {
                                txid,
                                submission,
                                age_ms: now_ms.saturating_sub(submission.submitted_ms),
                                reason: DropReason::Expired,
                            },
                        ),
                    );
                },
                None => {
                    assert(self.in_flight@ =~= here.in_flight);
                    assert(self@ =~= here);
                },
            }
            j = j + 1;
        }
        assert(list.take(j as int) =~= list);
        self.recount();
        proof {
            ledger::lemma_compacted(self@);
        }
        self.compact_order();
        events
    }

    /// Live classification counts and monotonic event tallies.
    pub fn stats(&self) -> (s: Stats)
        ensures
            s == self@.stats,
    {
        self.stats
    }

    /// Transactions currently awaiting inclusion.
    pub fn in_flight_len(&self) -> (n: usize)
        requires
            self.wf(),
        ensures
            n == self@.in_flight.dom().len(),
            n == self@.stats.in_flight,
    {
        self.in_flight.len()
    }

    /// The submission record of an in-flight transaction, if we hold one.
    pub fn in_flight(&self, txid: &TxId) -> (r: Option<Submission>)
        requires
            self.wf(),
        ensures
            match r {
                Some(s) => self@.in_flight.contains_key(*txid) && s == self@.in_flight[*txid],
                None => !self@.in_flight.contains_key(*txid),
            },
    {
        self.in_flight.get(txid)
    }

    /// The height a transaction is currently believed confirmed at, if that
    /// confirmation is still retained.
    pub fn confirmed_height(&self, txid: &TxId) -> (r: Option<u64>)
        requires
            self.wf(),
        ensures
            match r {
                Some(h) => self@.confirmed_at.contains_key(*txid) && h
                    == self@.confirmed_at[*txid],
                None => !self@.confirmed_at.contains_key(*txid),
            },
    {
        self.confirmed_at.get(txid)
    }

    /// The tip buckets that currently hold samples, ascending.
    pub fn buckets(&self) -> (r: Vec<TipBucket>)
        requires
            self.wf(),
        ensures
            r@.to_set() == self@.hist.dom(),
            forall|i: int, j: int| 0 <= i < j < r@.len() ==> r@[i] < r@[j],
    {
        self.hist.keys()
    }

    /// The inclusion-latency distribution of one tip bucket, or `None` if that
    /// bucket has no retained samples.
    pub fn latency(&self, bucket: TipBucket) -> (r: Option<BucketLatency>)
        requires
            self.wf(),
        ensures
            match r {
                Some(l) => self@.hist.contains_key(bucket) && crate::histogram::summarises(
                    l,
                    self@.hist[bucket],
                ),
                None => !self@.hist.contains_key(bucket),
            },
    {
        self.hist.stats(bucket)
    }
}

} // verus!
