//! The mathematical model of the confirmation tracker: what it remembers, and what
//! each operation makes of it.

use crate::histogram;
use crate::digest::BlockId;
use crate::digest::TxId;
use crate::histogram::TipBucket;
use crate::histogram::MAX_SAMPLES_PER_BUCKET;
use vstd::prelude::*;

verus! {

/// Maximum transactions held in flight at once.
///
/// Four times the node's default mempool capacity: the cannon cannot have more
/// than the pool's worth genuinely pending, and the headroom absorbs multiple
/// wallets firing at a pool that is draining slowly. At the cap the oldest
/// registration is evicted and reported as [`DropReason::CapacityEvicted`].
pub const MAX_IN_FLIGHT: usize = 65_536;

/// Maximum confirmations retained for reorg rollback.
///
/// Older confirmations are pruned oldest-height-first. They remain counted as
/// confirmed; they simply can no longer be un-mined.
pub const MAX_CONFIRMED_TRACKED: usize = 131_072;

/// Maximum distinct block heights retained for reorg rollback.
///
/// A reorg deeper than this many observed heights cannot be detected.
pub const MAX_TRACKED_HEIGHTS: usize = 256;

/// Maximum dropped transactions remembered so a late inclusion can still be
/// recognized. Oldest drops are forgotten first.
pub const MAX_DROP_MEMORY: usize = 16_384;

/// The most transactions the tracker ever holds in all its places together.
pub const MAX_TRACKED: usize = 212_992;

/// What the caller told us when a transaction was accepted into the pool.
#[derive(Clone, Copy, Debug, PartialEq, Eq)]
pub struct Submission {
    /// Caller-supplied millisecond stamp of the accepted submission.
    pub submitted_ms: u64,
    /// The chain height at the moment of submission, the baseline for
    /// blocks-to-inclusion.
    pub submitted_height: u64,
    /// The tip offered, in grains. Recorded for reporting only.
    pub tip_grains: u128,
    /// The caller's opaque tip-bucket key for this transaction.
    pub bucket: TipBucket,
}

/// A transaction observed in a block that we had in flight or had dropped.
#[derive(Clone, Copy, Debug, PartialEq, Eq)]
pub struct Confirmed {
    /// The transaction.
    pub txid: TxId,
    /// What we recorded at submission.
    pub submission: Submission,
    /// Height of the block it appeared in.
    pub height: u64,
    /// Hash of that block, the identity a later reorg is detected against.
    pub block: BlockId,
    /// `height - submitted_height`, saturating.
    pub blocks_to_inclusion: u64,
    /// Observation time minus submission time, saturating.
    pub latency_ms: u64,
    /// True when this transaction had already been written off as
    /// [`DropReason::Expired`] and turned up anyway. Its latency is recorded: the
    /// TTL was our arbitrary cutoff, the latency is chain truth.
    pub late: bool,
}

/// A previously confirmed transaction whose block was replaced by a reorg. It is
/// back in flight and may confirm again, possibly at a different height.
#[derive(Clone, Copy, Debug, PartialEq, Eq)]
pub struct Unmined {
    /// The transaction, now in flight again.
    pub txid: TxId,
    /// Its original submission record, restored unchanged.
    pub submission: Submission,
    /// The height it had been confirmed at.
    pub height: u64,
    /// The block that no longer exists on the observed chain.
    pub block: BlockId,
}

/// Why a transaction left the in-flight set without being included.
#[derive(Clone, Copy, Debug, PartialEq, Eq, Structural)]
pub enum DropReason {
    /// It exceeded the caller's TTL without ever appearing in a block.
    Expired,
    /// The in-flight set was full and this, the oldest registration, was shed to
    /// make room. A measurement lost to our own bookkeeping limit, not evidence
    /// about the node.
    CapacityEvicted,
}

/// A transaction that left the in-flight set unconfirmed.
#[derive(Clone, Copy, Debug, PartialEq, Eq)]
pub struct Dropped {
    /// The transaction.
    pub txid: TxId,
    /// What we recorded at submission.
    pub submission: Submission,
    /// How long it had been in flight when it was dropped, saturating.
    pub age_ms: u64,
    /// Why it was dropped.
    pub reason: DropReason,
}

/// Everything the tracker reports, in one stream so a caller can append it to a
/// single event log in the order it happened.
#[derive(Clone, Copy, Debug, PartialEq, Eq)]
pub enum TrackerEvent {
    /// Included in a block.
    Confirmed(Confirmed),
    /// Un-included by a reorg; back in flight.
    Unmined(Unmined),
    /// Gone without inclusion.
    Dropped(Dropped),
}

/// Live counts. The classification counters (`in_flight`, `confirmed`,
/// `dropped_expired`, `dropped_evicted`) describe where each tracked transaction
/// stands right now and go down as well as up. The `*_total` counters are
/// monotonic tallies of those transitions.
#[derive(Clone, Copy, Debug, PartialEq, Eq, Structural)]
pub struct Stats {
    /// Currently awaiting inclusion.
    pub in_flight: u64,
    /// Currently believed included.
    pub confirmed: u64,
    /// Currently written off as never-included.
    pub dropped_expired: u64,
    /// Shed because the in-flight set was full.
    pub dropped_evicted: u64,
    /// Monotonic count of un-mining events.
    pub unmined_total: u64,
    /// Monotonic count of inclusions that arrived after we had given up.
    pub late_total: u64,
    /// Latency samples discarded because the caller used too many bucket keys.
    pub unbucketed_samples: u64,
    /// Latency samples evicted from a bucket's rolling window by newer samples.
    pub evicted_samples: u64,
}

impl Default for Stats {
    fn default() -> (s: Self)
        ensures
            s == no_stats(),
    {
        Stats {
            in_flight: 0,
            confirmed: 0,
            dropped_expired: 0,
            dropped_evicted: 0,
            unmined_total: 0,
            late_total: 0,
            unbucketed_samples: 0,
            evicted_samples: 0,
        }
    }
}

/// All counters at zero.
pub open spec fn no_stats() -> Stats {
    Stats {
        in_flight: 0,
        confirmed: 0,
        dropped_expired: 0,
        dropped_evicted: 0,
        unmined_total: 0,
        late_total: 0,
        unbucketed_samples: 0,
        evicted_samples: 0,
    }
}

/// A confirmation as retained for possible rollback.
#[derive(Clone, Copy, Debug)]
pub struct ConfirmedRecord {
    pub txid: TxId,
    pub submission: Submission,
    pub latency_ms: u64,
}

/// One observed height: the block seen there and our confirmations in it, in the
/// order the block listed them.
#[verifier::ext_equal]
pub struct HeightView {
    pub height: u64,
    pub block: BlockId,
    pub records: Seq<ConfirmedRecord>,
}

/// What the tracker remembers.
#[verifier::ext_equal]
pub struct Ledger {
    /// Awaiting inclusion.
    pub in_flight: Map<TxId, Submission>,
    /// Everything held in any of these places, the oldest registration first. A transaction
    /// keeps its place when it is confirmed, written off or taken back.
    pub order: Seq<TxId>,
    /// Observed heights, lowest first.
    pub heights: Seq<HeightView>,
    /// The height of each confirmation retained in `heights`.
    pub confirmed_at: Map<TxId, u64>,
    /// Recently dropped, so a late inclusion is still recognizable.
    pub dropped: Map<TxId, Submission>,
    /// Drop order, oldest first.
    pub dropped_order: Seq<TxId>,
    /// Latency samples per tip bucket.
    pub hist: Map<TipBucket, Seq<u64>>,
    pub stats: Stats,
}

/// One more, stopping at the largest value.
pub open spec fn up(x: u64) -> u64 {
    if x < u64::MAX {
        (x + 1) as u64
    } else {
        x
    }
}

/// One less, stopping at zero.
pub open spec fn down(x: u64) -> u64 {
    if x > 0 {
        (x - 1) as u64
    } else {
        0
    }
}

/// The difference, or zero where it would be negative.
pub open spec fn since(now: u64, then_at: u64) -> u64 {
    if now > then_at {
        (now - then_at) as u64
    } else {
        0
    }
}

/// The empty ledger.
pub open spec fn empty_ledger() -> Ledger {
    Ledger {
        in_flight: Map::empty(),
        order: Seq::empty(),
        heights: Seq::empty(),
        confirmed_at: Map::empty(),
        dropped: Map::empty(),
        dropped_order: Seq::empty(),
        hist: Map::empty(),
        stats: no_stats(),
    }
}

/// The `in_flight` counter brought up to date.
pub open spec fn counted(l: Ledger) -> Ledger {
    Ledger { stats: Stats { in_flight: l.in_flight.dom().len() as u64, ..l.stats }, ..l }
}

/// Membership in a map, as a predicate.
pub open spec fn live(m: Map<TxId, Submission>) -> spec_fn(TxId) -> bool {
    |t: TxId| m.contains_key(t)
}

/// The transaction is held: in flight, confirmed and retained, or in the drop memory.
pub open spec fn is_held(l: Ledger, id: TxId) -> bool {
    l.in_flight.contains_key(id) || l.confirmed_at.contains_key(id) || l.dropped.contains_key(id)
}

/// Being held, as a predicate.
pub open spec fn kept(l: Ledger) -> spec_fn(TxId) -> bool {
    |t: TxId| is_held(l, t)
}

/// The registration order with the ids that are no longer held taken out.
pub open spec fn compacted(l: Ledger) -> Ledger {
    Ledger { order: l.order.filter(kept(l)), ..l }
}

/// An order without the place of an id.
pub open spec fn without_place(order: Seq<TxId>, id: TxId) -> Seq<TxId> {
    if order.contains(id) {
        order.remove(order.index_of(id))
    } else {
        order
    }
}

/// The oldest registration that is in flight.
pub open spec fn oldest(l: Ledger) -> TxId {
    l.order.filter(live(l.in_flight))[0]
}

/// The ledger after its oldest registration was shed.
pub open spec fn without_oldest(l: Ledger) -> Ledger {
    let kept = l.in_flight.remove(oldest(l));
    counted(
        Ledger {
            in_flight: kept,
            order: without_place(l.order, oldest(l)),
            stats: Stats { dropped_evicted: up(l.stats.dropped_evicted), ..l.stats },
            ..l
        },
    )
}

/// The event that reports the shedding of the oldest registration.
pub open spec fn eviction(l: Ledger, now_ms: u64) -> TrackerEvent {
    let victim = oldest(l);
    TrackerEvent::Dropped(
        Dropped {
            txid: victim,
            submission: l.in_flight[victim],
            age_ms: since(now_ms, l.in_flight[victim].submitted_ms),
            reason: DropReason::CapacityEvicted,
        },
    )
}

/// The ledger with its oldest registrations shed until those in flight are within the cap.
pub open spec fn shed(l: Ledger) -> Ledger
    decreases l.order.len(),
{
    if l.in_flight.dom().len() > MAX_IN_FLIGHT && l.order.contains(oldest(l)) {
        shed(without_oldest(l))
    } else {
        l
    }
}

/// The events that report what was shed, oldest first.
pub open spec fn shed_events(l: Ledger, now_ms: u64) -> Seq<TrackerEvent>
    decreases l.order.len(),
{
    if l.in_flight.dom().len() > MAX_IN_FLIGHT && l.order.contains(oldest(l)) {
        seq![eviction(l, now_ms)] + shed_events(without_oldest(l), now_ms)
    } else {
        Seq::empty()
    }
}

/// The ledger with an id taken out of the drop memory.
pub open spec fn without_drop(l: Ledger, txid: TxId) -> Ledger {
    if l.dropped.contains_key(txid) {
        Ledger {
            dropped: l.dropped.remove(txid),
            dropped_order: l.dropped_order.remove(l.dropped_order.index_of(txid)),
            stats: Stats { dropped_expired: down(l.stats.dropped_expired), ..l.stats },
            ..l
        }
    } else {
        l
    }
}

/// An id the tracker already follows: in flight, or confirmed and retained.
pub open spec fn followed(l: Ledger, txid: TxId) -> bool {
    l.in_flight.contains_key(txid) || l.confirmed_at.contains_key(txid)
}

/// Registration has to shed an older transaction to admit this one.
pub open spec fn must_shed(l: Ledger, txid: TxId) -> bool {
    !followed(l, txid) && l.in_flight.dom().len() >= MAX_IN_FLIGHT
}

/// The ledger before a registration takes its place: where the id was written off, that
/// drop and its earlier place are forgotten.
pub open spec fn cleared(l: Ledger, txid: TxId) -> Ledger {
    Ledger { order: without_place(l.order, txid), ..without_drop(l, txid) }
}

/// The ledger after a registration.
pub open spec fn registered(l: Ledger, txid: TxId, submission: Submission) -> Ledger {
    if followed(l, txid) {
        l
    } else {
        let fresh = cleared(l, txid);
        let room = if must_shed(l, txid) {
            without_oldest(fresh)
        } else {
            fresh
        };
        counted(
            Ledger {
                in_flight: room.in_flight.insert(txid, submission),
                order: room.order.push(txid),
                ..room
            },
        )
    }
}

/// The ledger after one confirmation was taken back.
pub open spec fn unmined_one(l: Ledger, rec: ConfirmedRecord) -> Ledger {
    Ledger {
        in_flight: l.in_flight.insert(rec.txid, rec.submission),
        confirmed_at: l.confirmed_at.remove(rec.txid),
        hist: histogram::without_sample(l.hist, rec.submission.bucket, rec.latency_ms),
        stats: Stats {
            confirmed: down(l.stats.confirmed),
            unmined_total: up(l.stats.unmined_total),
            ..l.stats
        },
        ..l
    }
}

/// The ledger after a block's confirmations were taken back, last one first.
pub open spec fn unmined_all(l: Ledger, records: Seq<ConfirmedRecord>) -> Ledger
    decreases records.len(),
{
    if records.len() == 0 {
        l
    } else {
        unmined_all(unmined_one(l, records.last()), records.drop_last())
    }
}

/// The events that report a replaced block, last confirmation first.
pub open spec fn unmined_events(e: HeightView, records: Seq<ConfirmedRecord>) -> Seq<TrackerEvent>
    decreases records.len(),
{
    if records.len() == 0 {
        Seq::empty()
    } else {
        let rec = records.last();
        seq![
            TrackerEvent::Unmined(
                Unmined {
                    txid: rec.txid,
                    submission: rec.submission,
                    height: e.height,
                    block: e.block,
                },
            ),
        ] + unmined_events(e, records.drop_last())
    }
}

/// The ledger after every recorded height from `from` upwards was rolled back, tip
/// first.
pub open spec fn rolled_back(l: Ledger, from: u64) -> Ledger
    decreases l.heights.len(),
{
    if l.heights.len() == 0 || l.heights.last().height < from {
        l
    } else {
        let e = l.heights.last();
        rolled_back(
            Ledger {
                heights: l.heights.drop_last(),
                ..unmined_all(Ledger { heights: l.heights.drop_last(), ..l }, e.records)
            },
            from,
        )
    }
}

/// The events of a rollback, tip first.
pub open spec fn rollback_events(heights: Seq<HeightView>, from: u64) -> Seq<TrackerEvent>
    decreases heights.len(),
{
    if heights.len() == 0 || heights.last().height < from {
        Seq::empty()
    } else {
        unmined_events(heights.last(), heights.last().records) + rollback_events(
            heights.drop_last(),
            from,
        )
    }
}

/// The ids this ledger can match in a block: in flight, or still in the drop memory.
pub open spec fn matchable(l: Ledger, txid: TxId) -> bool {
    l.in_flight.contains_key(txid) || l.dropped.contains_key(txid)
}

/// The submission record a match refers to.
pub open spec fn submission_of(l: Ledger, txid: TxId) -> Submission {
    if l.in_flight.contains_key(txid) {
        l.in_flight[txid]
    } else {
        l.dropped[txid]
    }
}

/// The retained record of a match.
pub open spec fn record_of(l: Ledger, txid: TxId, now_ms: u64) -> ConfirmedRecord {
    let s = submission_of(l, txid);
    ConfirmedRecord { txid, submission: s, latency_ms: since(now_ms, s.submitted_ms) }
}

/// The event of a match.
pub open spec fn confirmation(
    l: Ledger,
    txid: TxId,
    height: u64,
    block: BlockId,
    now_ms: u64,
) -> TrackerEvent {
    let s = submission_of(l, txid);
    TrackerEvent::Confirmed(
        Confirmed {
            txid,
            submission: s,
            height,
            block,
            blocks_to_inclusion: since(height, s.submitted_height),
            latency_ms: since(now_ms, s.submitted_ms),
            late: !l.in_flight.contains_key(txid),
        },
    )
}

/// The ledger once a matched id has left the place it was waiting in.
pub open spec fn taken(l: Ledger, txid: TxId) -> Ledger {
    if l.in_flight.contains_key(txid) {
        Ledger { in_flight: l.in_flight.remove(txid), ..l }
    } else {
        let fresh = without_drop(l, txid);
        Ledger { stats: Stats { late_total: up(fresh.stats.late_total), ..fresh.stats }, ..fresh }
    }
}

/// The ledger after one id of a block was looked at.
pub open spec fn matched_one(l: Ledger, txid: TxId, height: u64, now_ms: u64) -> Ledger {
    if matchable(l, txid) {
        let rec = record_of(l, txid, now_ms);
        let t = taken(l, txid);
        let b = rec.submission.bucket;
        Ledger {
            hist: histogram::with_sample(t.hist, b, rec.latency_ms),
            confirmed_at: t.confirmed_at.insert(txid, height),
            stats: Stats {
                unbucketed_samples: if histogram::admits(t.hist, b) {
                    t.stats.unbucketed_samples
                } else {
                    up(t.stats.unbucketed_samples)
                },
                evicted_samples: if histogram::admits(t.hist, b) && histogram::samples_of(t.hist, b).len()
                    == MAX_SAMPLES_PER_BUCKET {
                    up(t.stats.evicted_samples)
                } else {
                    t.stats.evicted_samples
                },
                confirmed: up(t.stats.confirmed),
                ..t.stats
            },
            ..t
        }
    } else {
        l
    }
}

/// The ledger after the ids of a block were looked at in order.
pub open spec fn matched(l: Ledger, txids: Seq<TxId>, height: u64, now_ms: u64) -> Ledger
    decreases txids.len(),
{
    if txids.len() == 0 {
        l
    } else {
        matched_one(matched(l, txids.drop_last(), height, now_ms), txids.last(), height, now_ms)
    }
}

/// The records a block adds, in the block's order.
pub open spec fn matched_records(
    l: Ledger,
    txids: Seq<TxId>,
    height: u64,
    now_ms: u64,
) -> Seq<ConfirmedRecord>
    decreases txids.len(),
{
    if txids.len() == 0 {
        Seq::empty()
    } else {
        let before = matched(l, txids.drop_last(), height, now_ms);
        let head = matched_records(l, txids.drop_last(), height, now_ms);
        if matchable(before, txids.last()) {
            head.push(record_of(before, txids.last(), now_ms))
        } else {
            head
        }
    }
}

/// The confirmations a block produces, in the block's order.
pub open spec fn matched_events(
    l: Ledger,
    txids: Seq<TxId>,
    height: u64,
    block: BlockId,
    now_ms: u64,
) -> Seq<TrackerEvent>
    decreases txids.len(),
{
    if txids.len() == 0 {
        Seq::empty()
    } else {
        let before = matched(l, txids.drop_last(), height, now_ms);
        let head = matched_events(l, txids.drop_last(), height, block, now_ms);
        if matchable(before, txids.last()) {
            head.push(confirmation(before, txids.last(), height, block, now_ms))
        } else {
            head
        }
    }
}

/// The observed heights with one more, in its place.
pub open spec fn with_height(heights: Seq<HeightView>, e: HeightView) -> Seq<HeightView>
    decreases heights.len(),
{
    if heights.len() == 0 || heights.last().height < e.height {
        heights.push(e)
    } else {
        with_height(heights.drop_last(), e).push(heights.last())
    }
}

/// The index of confirmations without those of one block.
pub open spec fn forgotten(m: Map<TxId, u64>, records: Seq<ConfirmedRecord>) -> Map<TxId, u64>
    decreases records.len(),
{
    if records.len() == 0 {
        m
    } else {
        forgotten(m.remove(records.last().txid), records.drop_last())
    }
}

/// The ledger with its oldest heights forgotten until both retention bounds hold.
pub open spec fn pruned(l: Ledger) -> Ledger
    decreases l.heights.len(),
{
    if l.heights.len() > 0 && (l.heights.len() > MAX_TRACKED_HEIGHTS || l.confirmed_at.dom().len()
        > MAX_CONFIRMED_TRACKED) {
        pruned(
            Ledger {
                heights: l.heights.drop_first(),
                confirmed_at: forgotten(l.confirmed_at, l.heights[0].records),
                ..l
            },
        )
    } else {
        l
    }
}

/// The height is recorded.
pub open spec fn knows_height(l: Ledger, height: u64) -> bool {
    exists|i: int| 0 <= i < l.heights.len() && (#[trigger] l.heights[i]).height == height
}

/// The height is recorded with this very block.
pub open spec fn knows_block(l: Ledger, height: u64, block: BlockId) -> bool {
    exists|i: int|
        0 <= i < l.heights.len() && (#[trigger] l.heights[i]).height == height
            && l.heights[i].block == block
}

/// The ledger a block is matched against: rolled back first where the block
/// replaces one that was recorded at its height.
pub open spec fn settled(l: Ledger, height: u64) -> Ledger {
    if knows_height(l, height) {
        counted(rolled_back(l, height))
    } else {
        l
    }
}

/// The ledger once a block has been matched and recorded, before anything is shed.
pub open spec fn recorded(
    l: Ledger,
    height: u64,
    block: BlockId,
    txids: Seq<TxId>,
    now_ms: u64,
) -> Ledger {
    let base = settled(l, height);
    let m = matched(base, txids, height, now_ms);
    let e = HeightView { height, block, records: matched_records(base, txids, height, now_ms) };
    compacted(pruned(Ledger { heights: with_height(m.heights, e), ..m }))
}

/// The ledger after a block was observed. What a replaced branch returned to flight beyond
/// the cap, and the block did not confirm, makes the oldest registrations go.
pub open spec fn observed(
    l: Ledger,
    height: u64,
    block: BlockId,
    txids: Seq<TxId>,
    now_ms: u64,
) -> Ledger {
    if knows_block(l, height, block) {
        l
    } else {
        counted(shed(recorded(l, height, block, txids, now_ms)))
    }
}

/// The events of an observed block: what a replaced branch loses, what the block
/// confirms, and what has to be shed to hold the cap.
pub open spec fn observed_events(
    l: Ledger,
    height: u64,
    block: BlockId,
    txids: Seq<TxId>,
    now_ms: u64,
) -> Seq<TrackerEvent> {
    if knows_block(l, height, block) {
        Seq::empty()
    } else {
        let lost = if knows_height(l, height) {
            rollback_events(l.heights, height)
        } else {
            Seq::empty()
        };
        lost + matched_events(settled(l, height), txids, height, block, now_ms) + shed_events(
            recorded(l, height, block, txids, now_ms),
            now_ms,
        )
    }
}

/// In flight for at least the TTL.
pub open spec fn overdue(
    m: Map<TxId, Submission>,
    now_ms: u64,
    ttl_ms: u64,
) -> spec_fn(TxId) -> bool {
    |t: TxId| m.contains_key(t) && since(now_ms, m[t].submitted_ms) >= ttl_ms
}

/// The ledger with one more drop remembered and, past the bound, the oldest
/// forgotten.
pub open spec fn with_drop(l: Ledger, txid: TxId, submission: Submission) -> Ledger {
    let held = l.dropped.insert(txid, submission);
    let queue = l.dropped_order.push(txid);
    if queue.len() > MAX_DROP_MEMORY {
        Ledger { dropped: held.remove(queue[0]), dropped_order: queue.drop_first(), ..l }
    } else {
        Ledger { dropped: held, dropped_order: queue, ..l }
    }
}

/// The ledger after one id was written off; an id no longer in flight is skipped.
pub open spec fn expired_one(l: Ledger, txid: TxId) -> Ledger {
    if l.in_flight.contains_key(txid) {
        let s = l.in_flight[txid];
        let d = with_drop(Ledger { in_flight: l.in_flight.remove(txid), ..l }, txid, s);
        Ledger { stats: Stats { dropped_expired: up(d.stats.dropped_expired), ..d.stats }, ..d }
    } else {
        l
    }
}

/// The ledger after a list of ids was written off in order.
pub open spec fn expired_all(l: Ledger, ids: Seq<TxId>) -> Ledger
    decreases ids.len(),
{
    if ids.len() == 0 {
        l
    } else {
        expired_one(expired_all(l, ids.drop_last()), ids.last())
    }
}

/// The drops that writing off a list of ids reports, in order.
pub open spec fn expired_events(l: Ledger, ids: Seq<TxId>, now_ms: u64) -> Seq<TrackerEvent>
    decreases ids.len(),
{
    if ids.len() == 0 {
        Seq::empty()
    } else {
        let before = expired_all(l, ids.drop_last());
        let head = expired_events(l, ids.drop_last(), now_ms);
        let id = ids.last();
        if before.in_flight.contains_key(id) {
            let s = before.in_flight[id];
            head.push(
                TrackerEvent::Dropped(
                    Dropped {
                        txid: id,
                        submission: s,
                        age_ms: since(now_ms, s.submitted_ms),
                        reason: DropReason::Expired,
                    },
                ),
            )
        } else {
            head
        }
    }
}

/// The ids a sweep writes off, in registration order.
pub open spec fn sweep_list(l: Ledger, now_ms: u64, ttl_ms: u64) -> Seq<TxId> {
    l.order.filter(overdue(l.in_flight, now_ms, ttl_ms))
}

/// The ledger after an expiry sweep.
pub open spec fn swept(l: Ledger, now_ms: u64, ttl_ms: u64) -> Ledger {
    compacted(counted(expired_all(l, sweep_list(l, now_ms, ttl_ms))))
}

/// No recorded height is this one.
pub open spec fn height_free(heights: Seq<HeightView>, h: u64) -> bool {
    forall|i: int| 0 <= i < heights.len() ==> (#[trigger] heights[i]).height != h
}

/// Some record of a block is this transaction's.
pub open spec fn in_records(records: Seq<ConfirmedRecord>, id: TxId) -> bool {
    exists|j: int| 0 <= j < records.len() && (#[trigger] records[j]).txid == id
}

/// Some record of a recorded height is this transaction's.
pub open spec fn in_heights(heights: Seq<HeightView>, id: TxId) -> bool {
    exists|i: int| 0 <= i < heights.len() && in_records((#[trigger] heights[i]).records, id)
}

/// No transaction occurs twice among the records.
pub open spec fn distinct(records: Seq<ConfirmedRecord>) -> bool {
    forall|j: int, k: int|
        0 <= j < k < records.len() ==> (#[trigger] records[j]).txid != (#[trigger] records[k]).txid
}

/// The index points every one of a block's records to its height.
pub open spec fn indexed(at: Map<TxId, u64>, records: Seq<ConfirmedRecord>, h: u64) -> bool {
    forall|j: int|
        0 <= j < records.len() ==> at.contains_key((#[trigger] records[j]).txid)
            && at[records[j].txid] == h
}

/// The recorded heights ascend and the index lists exactly their records, together
/// with those of one block that is being added or taken off at height `h`.
pub open spec fn index_ok(
    heights: Seq<HeightView>,
    at: Map<TxId, u64>,
    h: u64,
    pending: Seq<ConfirmedRecord>,
) -> bool {
    &&& forall|i: int, j: int|
        0 <= i < j < heights.len() ==> (#[trigger] heights[i]).height < (#[trigger] heights[j]).height
    &&& forall|i: int|
        0 <= i < heights.len() ==> {
            &&& indexed(at, (#[trigger] heights[i]).records, heights[i].height)
            &&& distinct(heights[i].records)
        }
    &&& indexed(at, pending, h)
    &&& distinct(pending)
    &&& pending.len() > 0 ==> height_free(heights, h)
    &&& forall|id: TxId| #[trigger]
        at.contains_key(id) ==> in_heights(heights, id) || in_records(pending, id)
    &&& at.dom().finite()
}

/// The drop memory lists each of its ids once, in drop order.
pub open spec fn drops_ok(dropped: Map<TxId, Submission>, queue: Seq<TxId>) -> bool {
    &&& queue.no_duplicates()
    &&& forall|id: TxId| #[trigger] queue.contains(id) <==> dropped.contains_key(id)
    &&& dropped.dom().finite()
    &&& dropped.dom().len() == queue.len()
    &&& queue.len() <= MAX_DROP_MEMORY
}

/// How many transactions the ledger holds in all its places.
pub open spec fn held(l: Ledger) -> nat {
    l.in_flight.dom().len() + l.confirmed_at.dom().len() + l.dropped.dom().len()
}

/// No transaction is in two places.
pub open spec fn places_apart(l: Ledger) -> bool {
    &&& forall|id: TxId| #[trigger]
        l.in_flight.contains_key(id) ==> !l.confirmed_at.contains_key(id)
            && !l.dropped.contains_key(id)
    &&& forall|id: TxId| #[trigger]
        l.dropped.contains_key(id) ==> !l.confirmed_at.contains_key(id)
}

/// What holds of a ledger at every step, also while a block at height `h` is being
/// added or taken off.
pub open spec fn core_wf(l: Ledger, h: u64, pending: Seq<ConfirmedRecord>) -> bool {
    &&& index_ok(l.heights, l.confirmed_at, h, pending)
    &&& places_apart(l)
    &&& l.in_flight.dom().finite()
    &&& forall|id: TxId| #[trigger] l.in_flight.contains_key(id) ==> l.order.contains(id)
    &&& forall|id: TxId| #[trigger] l.confirmed_at.contains_key(id) ==> l.order.contains(id)
    &&& forall|id: TxId| #[trigger] l.dropped.contains_key(id) ==> l.order.contains(id)
    &&& l.order.no_duplicates()
    &&& drops_ok(l.dropped, l.dropped_order)
    &&& histogram::histogram_wf(l.hist)
    &&& held(l) <= MAX_TRACKED
    &&& l.stats.confirmed >= l.confirmed_at.dom().len()
    &&& l.stats.dropped_expired >= l.dropped.dom().len()
}

/// The registration order lists nothing but what is held.
pub open spec fn order_tight(l: Ledger) -> bool {
    forall|id: TxId| #[trigger] l.order.contains(id) ==> is_held(l, id)
}

/// What holds of a ledger between operations.
pub open spec fn ledger_wf(l: Ledger) -> bool {
    &&& core_wf(l, 0, Seq::empty())
    &&& order_tight(l)
    &&& l.in_flight.dom().len() <= MAX_IN_FLIGHT
    &&& l.heights.len() <= MAX_TRACKED_HEIGHTS
    &&& l.confirmed_at.dom().len() <= MAX_CONFIRMED_TRACKED
    &&& l.stats.in_flight == l.in_flight.dom().len()
}

pub proof fn lemma_empty_ledger()
    ensures
        ledger_wf(empty_ledger()),
{
    let l = empty_ledger();
    assert(l.in_flight.dom() =~= Set::empty());
    assert(l.confirmed_at.dom() =~= Set::empty());
    assert(l.dropped.dom() =~= Set::empty());
    assert(l.hist.dom() =~= Set::empty());
}

/// Which height is pending does not matter while nothing is.
pub proof fn lemma_no_pending(l: Ledger, h: u64, k: u64)
    requires
        core_wf(l, h, Seq::empty()),
    ensures
        core_wf(l, k, Seq::empty()),
{
}

/// Taking a drop out of the memory keeps the memory in order.
pub proof fn lemma_without_drop(l: Ledger, txid: TxId, h: u64, pending: Seq<ConfirmedRecord>)
    requires
        core_wf(l, h, pending),
    ensures
        core_wf(without_drop(l, txid), h, pending),
        !without_drop(l, txid).dropped.contains_key(txid),
        l.dropped.contains_key(txid) ==> held(without_drop(l, txid)) + 1 == held(l),
{
    let q = l.dropped_order;
    if l.dropped.contains_key(txid) {
        assert(q.contains(txid));
        let at = q.index_of(txid);
        assert(0 <= at < q.len() && q[at] == txid);
        let r = q.remove(at);
        let m = l.dropped.remove(txid);
        assert(m.dom() =~= l.dropped.dom().remove(txid));
        assert forall|id: TxId| #[trigger] r.contains(id) <==> m.contains_key(id) by {
            if r.contains(id) {
                let i = choose|i: int| 0 <= i < r.len() && r[i] == id;
                assert(q[if i < at { i } else { i + 1 }] == id);
                assert(q.contains(id));
            }
            if m.contains_key(id) {
                assert(q.contains(id));
                let i = choose|i: int| 0 <= i < q.len() && q[i] == id;
                assert(r[if i < at { i } else { i - 1 }] == id);
            }
        }
        assert(r.no_duplicates());
        assert(drops_ok(m, r));
    }
}

/// Taking back the last pending confirmation keeps the ledger in order.
pub proof fn lemma_unmined_one(l: Ledger, h: u64, pending: Seq<ConfirmedRecord>)
    requires
        core_wf(l, h, pending),
        pending.len() > 0,
    ensures
        core_wf(unmined_one(l, pending.last()), h, pending.drop_last()),
        !l.in_flight.contains_key(pending.last().txid),
        l.confirmed_at.contains_key(pending.last().txid),
{
    let rec = pending.last();
    let rest = pending.drop_last();
    let n = unmined_one(l, rec);
    let at = l.confirmed_at;
    assert(pending[pending.len() - 1] == rec);
    assert(at.contains_key(rec.txid) && at[rec.txid] == h);
    assert(!l.in_flight.contains_key(rec.txid));
    assert(!l.dropped.contains_key(rec.txid));
    assert(n.confirmed_at.dom() =~= at.dom().remove(rec.txid));
    assert(n.in_flight.dom() =~= l.in_flight.dom().insert(rec.txid));
    assert forall|i: int| 0 <= i < n.heights.len() implies indexed(
        n.confirmed_at,
        (#[trigger] n.heights[i]).records,
        n.heights[i].height,
    ) by {
        let rs = n.heights[i].records;
        assert forall|j: int| 0 <= j < rs.len() implies n.confirmed_at.contains_key(
            (#[trigger] rs[j]).txid,
        ) && n.confirmed_at[rs[j].txid] == n.heights[i].height by {
            assert(at[rs[j].txid] == n.heights[i].height);
            assert(n.heights[i].height != h);
        }
    }
    assert forall|j: int| 0 <= j < rest.len() implies n.confirmed_at.contains_key(
        (#[trigger] rest[j]).txid,
    ) && n.confirmed_at[rest[j].txid] == h by {
        assert(pending[j] == rest[j]);
        assert(pending[j].txid != pending[pending.len() - 1].txid);
    }
    assert(distinct(rest)) by {
        assert forall|j: int, k: int| 0 <= j < k < rest.len() implies (#[trigger] rest[j]).txid
            != (#[trigger] rest[k]).txid by {
            assert(pending[j].txid != pending[k].txid);
        }
    }
    assert forall|id: TxId| #[trigger] n.confirmed_at.contains_key(id) implies in_heights(
        n.heights,
        id,
    ) || in_records(rest, id) by {
        assert(at.contains_key(id));
        if !in_heights(l.heights, id) {
            assert(in_records(pending, id));
            let j = choose|j: int| 0 <= j < pending.len() && (#[trigger] pending[j]).txid == id;
            assert(rest[j].txid == id);
        }
    }
    histogram::lemma_without_sample_wf(l.hist, rec.submission.bucket, rec.latency_ms);
}

/// A new id at the end of an order lists it, and keeps each id listed once.
pub proof fn lemma_order_push(order: Seq<TxId>, id: TxId)
    requires
        order.no_duplicates(),
        !order.contains(id),
    ensures
        order.push(id).no_duplicates(),
        forall|x: TxId| #[trigger] order.push(id).contains(x) <==> order.contains(x) || x == id,
{
    let n = order.push(id);
    assert forall|x: TxId| #[trigger] n.contains(x) <==> order.contains(x) || x == id by {
        if n.contains(x) {
            let i = choose|i: int| 0 <= i < n.len() && n[i] == x;
            if i < order.len() {
                assert(order[i] == x);
            }
        }
        if order.contains(x) {
            let i = choose|i: int| 0 <= i < order.len() && order[i] == x;
            assert(n[i] == x);
        }
        assert(n[order.len() as int] == id);
    }
    assert forall|i: int, j: int| 0 <= i < n.len() && 0 <= j < n.len() && i != j implies n[i]
        != n[j] by {
        if i < order.len() {
            assert(order.contains(order[i]));
        }
        if j < order.len() {
            assert(order.contains(order[j]));
        }
    }
}

/// Taking an id out of an order leaves the others, each listed once.
pub proof fn lemma_without_place(order: Seq<TxId>, id: TxId)
    requires
        order.no_duplicates(),
    ensures
        without_place(order, id).no_duplicates(),
        forall|x: TxId| #[trigger]
            without_place(order, id).contains(x) <==> order.contains(x) && x != id,
        order.contains(id) ==> without_place(order, id).len() + 1 == order.len(),
{
    if order.contains(id) {
        let at = order.index_of(id);
        assert(0 <= at < order.len() && order[at] == id);
        let n = order.remove(at);
        assert forall|x: TxId| #[trigger] n.contains(x) <==> order.contains(x) && x != id by {
            if n.contains(x) {
                let i = choose|i: int| 0 <= i < n.len() && n[i] == x;
                assert(order[if i < at { i } else { i + 1 }] == x);
            }
            if order.contains(x) && x != id {
                let i = choose|i: int| 0 <= i < order.len() && order[i] == x;
                assert(n[if i < at { i } else { i - 1 }] == x);
            }
        }
        assert(n.no_duplicates());
    }
}

/// The first id of an order that is in flight is the first of those that are.
pub proof fn lemma_first_live(order: Seq<TxId>, m: Map<TxId, Submission>, at: int)
    requires
        0 <= at < order.len(),
        m.contains_key(order[at]),
        forall|k: int| 0 <= k < at ==> !m.contains_key(#[trigger] order[k]),
    ensures
        order.filter(live(m)).len() > 0,
        order.filter(live(m))[0] == order[at],
    decreases order.len(),
{
    reveal(Seq::filter);
    let d = order.drop_last();
    if at < d.len() {
        lemma_first_live(d, m, at);
    } else {
        lemma_none_live(d, m);
    }
}

proof fn lemma_none_live(order: Seq<TxId>, m: Map<TxId, Submission>)
    requires
        forall|k: int| 0 <= k < order.len() ==> !m.contains_key(#[trigger] order[k]),
    ensures
        order.filter(live(m)) == Seq::<TxId>::empty(),
    decreases order.len(),
{
    reveal(Seq::filter);
    if order.len() > 0 {
        let d = order.drop_last();
        assert forall|k: int| 0 <= k < d.len() implies !m.contains_key(#[trigger] d[k]) by {
            assert(d[k] == order[k]);
        }
        assert(!m.contains_key(order[order.len() - 1]));
        lemma_none_live(d, m);
    }
}

/// Clearing the way for a registration keeps the ledger in order, and the id has no place.
pub proof fn lemma_cleared(l: Ledger, txid: TxId)
    requires
        core_wf(l, 0, Seq::empty()),
        order_tight(l),
        !followed(l, txid),
    ensures
        core_wf(cleared(l, txid), 0, Seq::empty()),
        order_tight(cleared(l, txid)),
        !cleared(l, txid).order.contains(txid),
        !cleared(l, txid).dropped.contains_key(txid),
        l.order.contains(txid) <==> l.dropped.contains_key(txid),
{
    lemma_without_drop(l, txid, 0, Seq::empty());
    lemma_without_place(l.order, txid);
    let n = cleared(l, txid);
    assert forall|id: TxId| #[trigger] n.order.contains(id) implies is_held(n, id) by {
        assert(l.order.contains(id));
        assert(is_held(l, id));
    }
}

/// Filtering an order keeps each id listed once.
pub proof fn lemma_order_filter(order: Seq<TxId>, f: spec_fn(TxId) -> bool)
    requires
        order.no_duplicates(),
    ensures
        order.filter(f).no_duplicates(),
        forall|x: TxId| #[trigger] order.filter(f).contains(x) <==> order.contains(x) && f(x),
    decreases order.len(),
{
    reveal(Seq::filter);
    if order.len() > 0 {
        let d = order.drop_last();
        let x = order.last();
        assert(d.no_duplicates());
        lemma_order_filter(d, f);
        assert(d.push(x) =~= order);
        assert(!d.contains(x));
        lemma_order_push(d, x);
        if f(x) {
            lemma_order_push(d.filter(f), x);
        }
    }
}

/// Shedding the oldest registration keeps the ledger in order.
pub proof fn lemma_without_oldest(l: Ledger)
    requires
        core_wf(l, 0, Seq::empty()),
        order_tight(l),
        l.in_flight.dom().len() > 0,
    ensures
        l.order.contains(oldest(l)),
        l.in_flight.contains_key(oldest(l)),
        core_wf(without_oldest(l), 0, Seq::empty()),
        order_tight(without_oldest(l)),
        without_oldest(l).in_flight.dom().len() + 1 == l.in_flight.dom().len(),
{
    let some_id = l.in_flight.dom().choose();
    assert(l.in_flight.contains_key(some_id));
    assert(l.order.contains(some_id));
    let f = live(l.in_flight);
    lemma_order_filter(l.order, f);
    let alive = l.order.filter(f);
    assert(alive.contains(some_id));
    let v = oldest(l);
    assert(alive.contains(v));
    let n = without_oldest(l);
    assert(n.in_flight.dom() =~= l.in_flight.dom().remove(v));
    lemma_without_place(l.order, v);
    assert forall|id: TxId| #[trigger] n.order.contains(id) implies is_held(n, id) by {
        assert(l.order.contains(id));
        assert(is_held(l, id));
    }
}

/// Shedding keeps the ledger in order and brings those in flight within the cap.
pub proof fn lemma_shed(l: Ledger)
    requires
        core_wf(l, 0, Seq::empty()),
        order_tight(l),
    ensures
        core_wf(shed(l), 0, Seq::empty()),
        order_tight(shed(l)),
        shed(l).in_flight.dom().len() <= MAX_IN_FLIGHT,
        shed(l).heights == l.heights,
        shed(l).confirmed_at == l.confirmed_at,
    decreases l.order.len(),
{
    if l.in_flight.dom().len() > MAX_IN_FLIGHT {
        lemma_without_oldest(l);
        lemma_shed(without_oldest(l));
    }
}

/// Confirming a matchable id keeps the ledger in order.
pub proof fn lemma_matched_one(
    l: Ledger,
    txid: TxId,
    h: u64,
    now_ms: u64,
    pending: Seq<ConfirmedRecord>,
)
    requires
        core_wf(l, h, pending),
        height_free(l.heights, h),
        matchable(l, txid),
    ensures
        core_wf(matched_one(l, txid, h, now_ms), h, pending.push(record_of(l, txid, now_ms))),
{
    let rec = record_of(l, txid, now_ms);
    let t = taken(l, txid);
    let n = matched_one(l, txid, h, now_ms);
    let p = pending.push(rec);
    assert(!l.confirmed_at.contains_key(txid));
    lemma_without_drop(l, txid, h, pending);
    if l.in_flight.contains_key(txid) {
        assert(t.in_flight.dom() =~= l.in_flight.dom().remove(txid));
    }
    assert(n.confirmed_at.dom() =~= l.confirmed_at.dom().insert(txid));
    assert forall|i: int| 0 <= i < n.heights.len() implies indexed(
        n.confirmed_at,
        (#[trigger] n.heights[i]).records,
        n.heights[i].height,
    ) by {
        let rs = n.heights[i].records;
        assert forall|j: int| 0 <= j < rs.len() implies n.confirmed_at.contains_key(
            (#[trigger] rs[j]).txid,
        ) && n.confirmed_at[rs[j].txid] == n.heights[i].height by {
            assert(l.confirmed_at.contains_key(rs[j].txid));
        }
    }
    assert forall|j: int| 0 <= j < p.len() implies n.confirmed_at.contains_key(
        (#[trigger] p[j]).txid,
    ) && n.confirmed_at[p[j].txid] == h by {
        if j < pending.len() {
            assert(p[j] == pending[j]);
            assert(l.confirmed_at.contains_key(pending[j].txid));
        }
    }
    assert(distinct(p)) by {
        assert forall|j: int, k: int| 0 <= j < k < p.len() implies (#[trigger] p[j]).txid != (
        #[trigger] p[k]).txid by {
            assert(p[j] == pending[j]);
            assert(l.confirmed_at.contains_key(pending[j].txid));
            if k < pending.len() {
                assert(p[k] == pending[k]);
            }
        }
    }
    assert forall|id: TxId| #[trigger] n.confirmed_at.contains_key(id) implies in_heights(
        n.heights,
        id,
    ) || in_records(p, id) by {
        if id == txid {
            assert(p[pending.len() as int].txid == id);
        } else {
            assert(l.confirmed_at.contains_key(id));
            if in_records(pending, id) {
                let j = choose|j: int|
                    0 <= j < pending.len() && (#[trigger] pending[j]).txid == id;
                assert(p[j].txid == id);
            }
        }
    }
    histogram::lemma_with_sample_wf(t.hist, rec.submission.bucket, rec.latency_ms);
}

/// Recording a height keeps the heights and the index in order.
pub proof fn lemma_with_height(
    heights: Seq<HeightView>,
    at: Map<TxId, u64>,
    e: HeightView,
)
    requires
        index_ok(heights, at, e.height, e.records),
        height_free(heights, e.height),
    ensures
        index_ok(with_height(heights, e), at, 0, Seq::empty()),
        with_height(heights, e).len() == heights.len() + 1,
{
    lemma_with_height_place(heights, e);
    let w = with_height(heights, e);
    let at_e = height_place(heights, e);
    assert forall|i: int| 0 <= i < w.len() implies indexed(
        at,
        (#[trigger] w[i]).records,
        w[i].height,
    ) && distinct(w[i].records) by {
        if i < at_e {
            assert(w[i] == heights[i]);
        } else if i > at_e {
            assert(w[i] == heights[i - 1]);
        }
    }
    assert forall|id: TxId| #[trigger] at.contains_key(id) implies in_heights(w, id) by {
        if in_records(e.records, id) {
            assert(in_records(w[at_e].records, id));
        } else {
            let i = choose|i: int|
                0 <= i < heights.len() && in_records((#[trigger] heights[i]).records, id);
            let k = if i < at_e {
                i
            } else {
                i + 1
            };
            assert(w[k] == heights[i]);
            assert(in_records(w[k].records, id));
        }
    }
}

/// Where a new height goes.
pub open spec fn height_place(heights: Seq<HeightView>, e: HeightView) -> int
    decreases heights.len(),
{
    if heights.len() == 0 || heights.last().height < e.height {
        heights.len() as int
    } else {
        height_place(heights.drop_last(), e)
    }
}

/// A new height goes in its place and moves nothing but those above it.
pub proof fn lemma_with_height_place(heights: Seq<HeightView>, e: HeightView)
    requires
        forall|i: int, j: int|
            0 <= i < j < heights.len() ==> (#[trigger] heights[i]).height < (
            #[trigger] heights[j]).height,
        height_free(heights, e.height),
    ensures
        0 <= height_place(heights, e) <= heights.len(),
        with_height(heights, e) == heights.insert(height_place(heights, e), e),
        forall|i: int|
            0 <= i < height_place(heights, e) ==> (#[trigger] heights[i]).height < e.height,
        forall|i: int|
            height_place(heights, e) <= i < heights.len() ==> e.height < (
            #[trigger] heights[i]).height,
    decreases heights.len(),
{
    if heights.len() == 0 || heights.last().height < e.height {
        assert(with_height(heights, e) =~= heights.insert(heights.len() as int, e));
        if heights.len() > 0 {
            assert forall|i: int| 0 <= i < heights.len() implies (#[trigger] heights[i]).height
                < e.height by {
                let last = heights.len() - 1;
                if i < last {
                    assert(heights[i].height < heights[last].height);
                }
            }
        }
    } else {
        let d = heights.drop_last();
        lemma_with_height_place(d, e);
        let k = height_place(d, e);
        assert(with_height(heights, e) =~= heights.insert(k, e));
        assert(heights[heights.len() - 1].height != e.height);
        assert forall|i: int| 0 <= i < k implies (#[trigger] heights[i]).height < e.height by {
            assert(d[i] == heights[i]);
        }
        assert forall|i: int| k <= i < heights.len() implies e.height < (
        #[trigger] heights[i]).height by {
            if i < d.len() {
                assert(d[i] == heights[i]);
            }
        }
    }
}

/// The topmost height becomes the pending one when it is taken off.
pub proof fn lemma_take_last(heights: Seq<HeightView>, at: Map<TxId, u64>)
    requires
        index_ok(heights, at, 0, Seq::empty()),
        heights.len() > 0,
    ensures
        index_ok(heights.drop_last(), at, heights.last().height, heights.last().records),
        height_free(heights.drop_last(), heights.last().height),
{
    let d = heights.drop_last();
    let e = heights.last();
    assert(heights[heights.len() - 1] == e);
    assert forall|i: int| 0 <= i < d.len() implies (#[trigger] d[i]).height != e.height by {
        assert(heights[i].height < heights[heights.len() - 1].height);
    }
    assert forall|i: int| 0 <= i < d.len() implies indexed(
        at,
        (#[trigger] d[i]).records,
        d[i].height,
    ) && distinct(d[i].records) by {
        assert(d[i] == heights[i]);
    }
    assert forall|id: TxId| #[trigger] at.contains_key(id) implies in_heights(d, id) || in_records(
        e.records,
        id,
    ) by {
        let i = choose|i: int|
            0 <= i < heights.len() && in_records((#[trigger] heights[i]).records, id);
        if i < d.len() {
            assert(d[i] == heights[i]);
            assert(in_records(d[i].records, id));
        }
    }
}

/// The lowest height becomes the pending one when it is taken off.
pub proof fn lemma_take_first(heights: Seq<HeightView>, at: Map<TxId, u64>)
    requires
        index_ok(heights, at, 0, Seq::empty()),
        heights.len() > 0,
    ensures
        index_ok(heights.drop_first(), at, heights[0].height, heights[0].records),
{
    let d = heights.drop_first();
    let e = heights[0];
    assert forall|i: int| 0 <= i < d.len() implies (#[trigger] d[i]).height != e.height by {
        assert(d[i] == heights[i + 1]);
        assert(heights[0].height < heights[i + 1].height);
    }
    assert forall|i: int| 0 <= i < d.len() implies indexed(
        at,
        (#[trigger] d[i]).records,
        d[i].height,
    ) && distinct(d[i].records) by {
        assert(d[i] == heights[i + 1]);
    }
    assert forall|id: TxId| #[trigger] at.contains_key(id) implies in_heights(d, id) || in_records(
        e.records,
        id,
    ) by {
        let i = choose|i: int|
            0 <= i < heights.len() && in_records((#[trigger] heights[i]).records, id);
        if i > 0 {
            assert(d[i - 1] == heights[i]);
            assert(in_records(d[i - 1].records, id));
        }
    }
}

/// Forgetting the last pending confirmation keeps the index in order.
pub proof fn lemma_forget_one(
    heights: Seq<HeightView>,
    at: Map<TxId, u64>,
    h: u64,
    pending: Seq<ConfirmedRecord>,
)
    requires
        index_ok(heights, at, h, pending),
        pending.len() > 0,
    ensures
        index_ok(heights, at.remove(pending.last().txid), h, pending.drop_last()),
        at.contains_key(pending.last().txid),
{
    let rec = pending.last();
    let rest = pending.drop_last();
    let m = at.remove(rec.txid);
    assert(pending[pending.len() - 1] == rec);
    assert forall|i: int| 0 <= i < heights.len() implies indexed(
        m,
        (#[trigger] heights[i]).records,
        heights[i].height,
    ) by {
        let rs = heights[i].records;
        assert forall|j: int| 0 <= j < rs.len() implies m.contains_key((#[trigger] rs[j]).txid)
            && m[rs[j].txid] == heights[i].height by {
            assert(at[rs[j].txid] == heights[i].height);
            assert(heights[i].height != h);
        }
    }
    assert forall|j: int| 0 <= j < rest.len() implies m.contains_key((#[trigger] rest[j]).txid)
        && m[rest[j].txid] == h by {
        assert(pending[j] == rest[j]);
        assert(pending[j].txid != pending[pending.len() - 1].txid);
    }
    assert forall|j: int, k: int| 0 <= j < k < rest.len() implies (#[trigger] rest[j]).txid != (
    #[trigger] rest[k]).txid by {
        assert(pending[j].txid != pending[k].txid);
    }
    assert forall|id: TxId| #[trigger] m.contains_key(id) implies in_heights(heights, id)
        || in_records(rest, id) by {
        assert(at.contains_key(id));
        if !in_heights(heights, id) {
            let j = choose|j: int| 0 <= j < pending.len() && (#[trigger] pending[j]).txid == id;
            assert(rest[j].txid == id);
        }
    }
}

/// Writing an id off keeps the ledger in order.
pub proof fn lemma_expired_one(l: Ledger, txid: TxId)
    requires
        core_wf(l, 0, Seq::empty()),
        l.in_flight.contains_key(txid),
    ensures
        core_wf(expired_one(l, txid), 0, Seq::empty()),
{
    let s = l.in_flight[txid];
    let n = expired_one(l, txid);
    let q = l.dropped_order.push(txid);
    let grown = l.dropped.insert(txid, s);
    assert(n.in_flight.dom() =~= l.in_flight.dom().remove(txid));
    assert(grown.dom() =~= l.dropped.dom().insert(txid));
    assert(!l.dropped_order.contains(txid));
    assert forall|id: TxId| #[trigger] q.contains(id) <==> grown.contains_key(id) by {
        if q.contains(id) && id != txid {
            let i = choose|i: int| 0 <= i < q.len() && q[i] == id;
            assert(l.dropped_order[i] == id);
            assert(l.dropped_order.contains(id));
        }
        if grown.contains_key(id) {
            if id == txid {
                assert(q[l.dropped_order.len() as int] == id);
            } else {
                assert(l.dropped_order.contains(id));
                let i = choose|i: int| 0 <= i < l.dropped_order.len() && l.dropped_order[i] == id;
                assert(q[i] == id);
            }
        }
    }
    assert(q.no_duplicates()) by {
        assert forall|i: int, j: int| 0 <= i < q.len() && 0 <= j < q.len() && i != j implies q[i]
            != q[j] by {
            if i < l.dropped_order.len() {
                assert(l.dropped_order.contains(q[i]));
            }
            if j < l.dropped_order.len() {
                assert(l.dropped_order.contains(q[j]));
            }
        }
    }
    if q.len() > MAX_DROP_MEMORY {
        let old_id = q[0];
        assert(q.contains(old_id));
        assert(n.dropped.dom() =~= grown.dom().remove(old_id));
        let r = q.drop_first();
        assert(n.dropped_order == r);
        assert forall|id: TxId| #[trigger] r.contains(id) <==> n.dropped.contains_key(id) by {
            if r.contains(id) {
                let i = choose|i: int| 0 <= i < r.len() && r[i] == id;
                assert(q[i + 1] == id);
                assert(q.contains(id));
            }
            if n.dropped.contains_key(id) {
                assert(q.contains(id));
                let i = choose|i: int| 0 <= i < q.len() && q[i] == id;
                assert(r[i - 1] == id);
            }
        }
        assert(r.no_duplicates());
    }
    assert(drops_ok(n.dropped, n.dropped_order));
}

/// Compaction leaves exactly what is held in the registration order.
pub proof fn lemma_compacted(l: Ledger)
    requires
        core_wf(l, 0, Seq::empty()),
    ensures
        core_wf(compacted(l), 0, Seq::empty()),
        order_tight(compacted(l)),
{
    lemma_order_filter(l.order, kept(l));
    let n = compacted(l);
    assert forall|id: TxId| #[trigger] n.order.contains(id) implies is_held(n, id) by {
        assert(is_held(l, id));
    }
}

/// The order lists at least what is held, and nothing else where it lists no more.
pub proof fn lemma_order_len(l: Ledger)
    requires
        core_wf(l, 0, Seq::empty()),
    ensures
        l.order.len() >= held(l),
        l.order.len() == held(l) <==> order_tight(l),
        order_tight(l) ==> compacted(l) == l,
{
    let a = l.in_flight.dom();
    let b = l.confirmed_at.dom();
    let c = l.dropped.dom();
    let all = a + b + c;
    assert(a.disjoint(b)) by {
        assert forall|id: TxId| a.contains(id) implies !b.contains(id) by {
            assert(l.in_flight.contains_key(id));
        }
    }
    assert((a + b).disjoint(c)) by {
        assert forall|id: TxId| (a + b).contains(id) implies !c.contains(id) by {
            if c.contains(id) {
                assert(l.dropped.contains_key(id));
            }
            if a.contains(id) {
                assert(l.in_flight.contains_key(id));
            }
        }
    }
    vstd::set_lib::lemma_set_disjoint_lens(a, b);
    vstd::set_lib::lemma_set_disjoint_lens(a + b, c);
    let listed = l.order.to_set();
    l.order.unique_seq_to_set();
    assert(all.subset_of(listed)) by {
        assert forall|id: TxId| all.contains(id) implies listed.contains(id) by {
            if a.contains(id) {
                assert(l.in_flight.contains_key(id));
            } else if b.contains(id) {
                assert(l.confirmed_at.contains_key(id));
            } else {
                assert(l.dropped.contains_key(id));
            }
        }
    }
    vstd::set_lib::lemma_len_subset(all, listed);
    if l.order.len() == held(l) {
        vstd::set_lib::lemma_subset_equality(all, listed);
        assert forall|id: TxId| #[trigger] l.order.contains(id) implies is_held(l, id) by {
            assert(listed.contains(id));
            assert(all.contains(id));
        }
    }
    if order_tight(l) {
        assert(all =~= listed) by {
            assert forall|id: TxId| listed.contains(id) implies all.contains(id) by {
                assert(l.order.contains(id));
                assert(is_held(l, id));
            }
        }
        assert forall|i: int| 0 <= i < l.order.len() implies kept(l)(#[trigger] l.order[i]) by {
            assert(l.order.contains(l.order[i]));
        }
        lemma_filter_keeps_all(l.order, kept(l));
    }
}

proof fn lemma_filter_keeps_all(s: Seq<TxId>, f: spec_fn(TxId) -> bool)
    requires
        forall|i: int| 0 <= i < s.len() ==> f(#[trigger] s[i]),
    ensures
        s.filter(f) == s,
    decreases s.len(),
{
    reveal(Seq::filter);
    if s.len() > 0 {
        let d = s.drop_last();
        assert forall|i: int| 0 <= i < d.len() implies f(#[trigger] d[i]) by {
            assert(d[i] == s[i]);
        }
        lemma_filter_keeps_all(d, f);
        assert(f(s[s.len() - 1]));
        assert(d.push(s.last()) =~= s);
    }
}

/// Taking confirmations back leaves the recorded heights alone.
pub proof fn lemma_unmined_all_heights(l: Ledger, records: Seq<ConfirmedRecord>)
    ensures
        unmined_all(l, records).heights == l.heights,
    decreases records.len(),
{
    if records.len() > 0 {
        lemma_unmined_all_heights(unmined_one(l, records.last()), records.drop_last());
    }
}

/// Looking at a block's ids leaves the recorded heights alone.
pub proof fn lemma_matched_heights(l: Ledger, txids: Seq<TxId>, height: u64, now_ms: u64)
    ensures
        matched(l, txids, height, now_ms).heights == l.heights,
    decreases txids.len(),
{
    if txids.len() > 0 {
        lemma_matched_heights(l, txids.drop_last(), height, now_ms);
    }
}

} // verus!
