//! What the confirmation tracker reports, in terms of what it was told: how long a
//! transaction waited, which ids a block confirms, what a reorg and a sweep take, and that
//! the counters are the reports counted.

use crate::digest::BlockId;
use crate::digest::TxId;
use crate::histogram;
use crate::histogram::TipBucket;
use crate::ledger;
use crate::ledger::ConfirmedRecord;
use crate::ledger::DropReason;
use crate::ledger::HeightView;
use crate::ledger::Ledger;
use crate::ledger::Submission;
use crate::ledger::TrackerEvent;
use crate::ledger::MAX_CONFIRMED_TRACKED;
use crate::ledger::MAX_DROP_MEMORY;
use crate::ledger::MAX_IN_FLIGHT;
use crate::ledger::MAX_TRACKED_HEIGHTS;
use crate::tracker_laws;
use vstd::prelude::*;

verus! {

/// The event confirms this transaction, under this submission, late or not.
pub open spec fn confirms(e: TrackerEvent, id: TxId, s: Submission, late: bool) -> bool {
    match e {
        TrackerEvent::Confirmed(c) => c.txid == id && c.submission == s && c.late == late,
        _ => false,
    }
}

/// Some event confirms this transaction, under this submission, late or not.
pub open spec fn some_confirms(
    events: Seq<TrackerEvent>,
    id: TxId,
    s: Submission,
    late: bool,
) -> bool {
    exists|i: int| 0 <= i < events.len() && confirms(#[trigger] events[i], id, s, late)
}

/// A confirmation that a rollback from this height takes back.
pub open spec fn lost_to(l: Ledger, from: u64, id: TxId, s: Submission) -> bool {
    exists|i: int, j: int|
        #![trigger l.heights[i].records[j]]
        0 <= i < l.heights.len() && l.heights[i].height >= from && 0 <= j
            < l.heights[i].records.len() && l.heights[i].records[j].txid == id
            && l.heights[i].records[j].submission == s
}

/// Matching the ids of a block takes exactly those out of the places they waited in.
proof fn lemma_matched_places(l: Ledger, txids: Seq<TxId>, height: u64, now_ms: u64)
    requires
        ledger::places_apart(l),
    ensures
        ({
            let m = ledger::matched(l, txids, height, now_ms);
            &&& forall|id: TxId| #[trigger]
                m.in_flight.contains_key(id) <==> l.in_flight.contains_key(id) && !txids.contains(
                    id,
                )
            &&& forall|id: TxId| #[trigger]
                m.in_flight.contains_key(id) ==> m.in_flight[id] == l.in_flight[id]
            &&& forall|id: TxId| #[trigger]
                m.dropped.contains_key(id) <==> l.dropped.contains_key(id) && !txids.contains(id)
            &&& forall|id: TxId| #[trigger]
                m.dropped.contains_key(id) ==> m.dropped[id] == l.dropped[id]
            &&& forall|id: TxId| #[trigger]
                m.confirmed_at.contains_key(id) <==> l.confirmed_at.contains_key(id) || (
                ledger::matchable(l, id) && txids.contains(id))
            &&& forall|id: TxId| #[trigger]
                m.confirmed_at.contains_key(id) ==> m.confirmed_at[id] == if ledger::matchable(
                    l,
                    id,
                ) {
                    height
                } else {
                    l.confirmed_at[id]
                }
        }),
    decreases txids.len(),
{
    if txids.len() > 0 {
        let head = txids.drop_last();
        let x = txids.last();
        lemma_matched_places(l, head, height, now_ms);
        let b = ledger::matched(l, head, height, now_ms);
        let m = ledger::matched(l, txids, height, now_ms);
        assert forall|id: TxId| txids.contains(id) <==> head.contains(id) || id == x by {
            if txids.contains(id) {
                let i = choose|i: int| 0 <= i < txids.len() && txids[i] == id;
                if i < head.len() {
                    assert(head[i] == id);
                }
            }
            if head.contains(id) {
                let i = choose|i: int| 0 <= i < head.len() && head[i] == id;
                assert(txids[i] == id);
            }
            assert(txids[txids.len() - 1] == x);
        }
        assert forall|id: TxId| #[trigger] m.confirmed_at.contains_key(id) implies
            m.confirmed_at[id] == if ledger::matchable(l, id) {
            height
        } else {
            l.confirmed_at[id]
        } by {
            if id != x || !ledger::matchable(b, x) {
                assert(b.confirmed_at.contains_key(id));
            } else {
                assert(b.in_flight.contains_key(x) || b.dropped.contains_key(x));
            }
        }
        assert forall|id: TxId| #[trigger]
            m.confirmed_at.contains_key(id) <==> l.confirmed_at.contains_key(id) || (
            ledger::matchable(l, id) && txids.contains(id)) by {
            assert(b.confirmed_at.contains_key(id) <==> l.confirmed_at.contains_key(id) || (
            ledger::matchable(l, id) && head.contains(id)));
            if id == x {
                assert(b.in_flight.contains_key(x) <==> l.in_flight.contains_key(x)
                    && !head.contains(x));
                assert(b.dropped.contains_key(x) <==> l.dropped.contains_key(x)
                    && !head.contains(x));
            }
        }
        assert forall|id: TxId| #[trigger]
            m.in_flight.contains_key(id) <==> l.in_flight.contains_key(id) && !txids.contains(
                id,
            ) by {
            assert(b.in_flight.contains_key(id) <==> l.in_flight.contains_key(id)
                && !head.contains(id));
        }
        assert forall|id: TxId| #[trigger]
            m.dropped.contains_key(id) <==> l.dropped.contains_key(id) && !txids.contains(id) by {
            assert(b.dropped.contains_key(id) <==> l.dropped.contains_key(id) && !head.contains(
                id,
            ));
            if id == x && b.in_flight.contains_key(x) {
                assert(l.in_flight.contains_key(x));
            }
        }
        assert forall|id: TxId| #[trigger] m.in_flight.contains_key(id) implies m.in_flight[id]
            == l.in_flight[id] by {
            assert(b.in_flight.contains_key(id));
        }
        assert forall|id: TxId| #[trigger] m.dropped.contains_key(id) implies m.dropped[id]
            == l.dropped[id] by {
            assert(b.dropped.contains_key(id));
        }
    }
}

/// The confirmations of a block: who they are of, and what they say.
proof fn lemma_matched_events(
    l: Ledger,
    txids: Seq<TxId>,
    height: u64,
    block: BlockId,
    now_ms: u64,
)
    requires
        ledger::places_apart(l),
    ensures
        ({
            let events = ledger::matched_events(l, txids, height, block, now_ms);
            &&& forall|i: int|
                0 <= i < events.len() ==> match #[trigger] events[i] {
                    TrackerEvent::Confirmed(c) => {
                        &&& txids.contains(c.txid)
                        &&& c.height == height
                        &&& c.block == block
                        &&& c.submission.submitted_height <= height
                            ==> c.submission.submitted_height + c.blocks_to_inclusion == height
                        &&& c.submission.submitted_height > height ==> c.blocks_to_inclusion == 0
                        &&& c.submission.submitted_ms <= now_ms ==> c.submission.submitted_ms
                            + c.latency_ms == now_ms
                        &&& c.submission.submitted_ms > now_ms ==> c.latency_ms == 0
                        &&& c.late ==> l.dropped.contains_key(c.txid) && c.submission
                            == l.dropped[c.txid]
                        &&& !c.late ==> l.in_flight.contains_key(c.txid) && c.submission
                            == l.in_flight[c.txid]
                    },
                    _ => false,
                }
            &&& forall|id: TxId| #[trigger]
                l.in_flight.contains_key(id) && txids.contains(id) ==> some_confirms(
                    events,
                    id,
                    l.in_flight[id],
                    false,
                )
            &&& forall|id: TxId| #[trigger]
                l.dropped.contains_key(id) && txids.contains(id) ==> some_confirms(
                    events,
                    id,
                    l.dropped[id],
                    true,
                )
            &&& forall|i: int, j: int|
                0 <= i < j < events.len() ==> comes_before(
                    txids,
                    tracker_laws::txid_of(#[trigger] events[i]),
                    tracker_laws::txid_of(#[trigger] events[j]),
                )
        }),
    decreases txids.len(),
{
    if txids.len() > 0 {
        let head = txids.drop_last();
        let x = txids.last();
        lemma_matched_events(l, head, height, block, now_ms);
        lemma_matched_places(l, head, height, now_ms);
        let b = ledger::matched(l, head, height, now_ms);
        let before = ledger::matched_events(l, head, height, block, now_ms);
        let events = ledger::matched_events(l, txids, height, block, now_ms);
        assert forall|id: TxId| txids.contains(id) <==> head.contains(id) || id == x by {
            if txids.contains(id) {
                let i = choose|i: int| 0 <= i < txids.len() && txids[i] == id;
                if i < head.len() {
                    assert(head[i] == id);
                }
            }
            if head.contains(id) {
                let i = choose|i: int| 0 <= i < head.len() && head[i] == id;
                assert(txids[i] == id);
            }
            assert(txids[txids.len() - 1] == x);
        }
        assert forall|i: int| 0 <= i < before.len() implies events[i] == before[i] by {}
        if ledger::matchable(b, x) {
            assert(events.last() == ledger::confirmation(b, x, height, block, now_ms));
            assert(b.in_flight.contains_key(x) || b.dropped.contains_key(x));
        }
        assert forall|id: TxId| #[trigger]
            l.in_flight.contains_key(id) && txids.contains(id) implies some_confirms(
            events,
            id,
            l.in_flight[id],
            false,
        ) by {
            if head.contains(id) {
                assert(l.in_flight.contains_key(id) && head.contains(id));
                assert(some_confirms(before, id, l.in_flight[id], false));
                let i = choose|i: int|
                    0 <= i < before.len() && confirms(
                        #[trigger] before[i],
                        id,
                        l.in_flight[id],
                        false,
                    );
                assert(confirms(events[i], id, l.in_flight[id], false));
            } else {
                assert(b.in_flight.contains_key(x));
                assert(confirms(events[events.len() - 1], id, l.in_flight[id], false));
            }
        }
        assert forall|id: TxId| #[trigger]
            l.dropped.contains_key(id) && txids.contains(id) implies some_confirms(
            events,
            id,
            l.dropped[id],
            true,
        ) by {
            if head.contains(id) {
                assert(l.dropped.contains_key(id) && head.contains(id));
                assert(some_confirms(before, id, l.dropped[id], true));
                let i = choose|i: int|
                    0 <= i < before.len() && confirms(#[trigger] before[i], id, l.dropped[id], true);
                assert(confirms(events[i], id, l.dropped[id], true));
            } else {
                assert(b.dropped.contains_key(x));
                assert(!b.in_flight.contains_key(x)) by {
                    if b.in_flight.contains_key(x) {
                        assert(l.in_flight.contains_key(x));
                    }
                }
                assert(confirms(events[events.len() - 1], id, l.dropped[id], true));
            }
        }
        assert forall|i: int, j: int| 0 <= i < j < events.len() implies comes_before(
            txids,
            tracker_laws::txid_of(#[trigger] events[i]),
            tracker_laws::txid_of(#[trigger] events[j]),
        ) by {
            let (p, q) = (
                tracker_laws::txid_of(events[i]),
                tracker_laws::txid_of(events[j]),
            );
            assert(events[i] == before[i]);
            if j < before.len() {
                assert(comes_before(
                    head,
                    tracker_laws::txid_of(before[i]),
                    tracker_laws::txid_of(before[j]),
                ));
                let k = choose|k: int| #[trigger] first_at(head, p, k) && !head.take(k + 1).contains(q);
                assert(first_at(txids, p, k)) by {
                    assert(txids.take(k) =~= head.take(k));
                }
                assert(txids.take(k + 1) =~= head.take(k + 1));
            } else {
                assert(q == x);
                assert(head.contains(p));
                assert(!head.contains(x)) by {
                    if b.in_flight.contains_key(x) {
                    } else {
                        assert(b.dropped.contains_key(x));
                    }
                }
                let k = lemma_some_first(head, p);
                assert(first_at(txids, p, k)) by {
                    assert(txids.take(k) =~= head.take(k));
                }
                assert(!txids.take(k + 1).contains(x)) by {
                    if txids.take(k + 1).contains(x) {
                        let upto = txids.take(k + 1);
                        let n = choose|n: int| 0 <= n < upto.len() && upto[n] == x;
                        assert(head[n] == x);
                    }
                }
            }
        }
    }
}

/// The id stands at this place of a block, and nowhere before.
pub open spec fn first_at(txids: Seq<TxId>, id: TxId, k: int) -> bool {
    &&& 0 <= k < txids.len()
    &&& txids[k] == id
    &&& !txids.take(k).contains(id)
}

/// One id stands in a block before another does.
pub open spec fn comes_before(txids: Seq<TxId>, p: TxId, q: TxId) -> bool {
    exists|k: int| #[trigger] first_at(txids, p, k) && !txids.take(k + 1).contains(q)
}

proof fn lemma_some_first(txids: Seq<TxId>, id: TxId) -> (k: int)
    requires
        txids.contains(id),
    ensures
        first_at(txids, id, k),
    decreases txids.len(),
{
    let head = txids.drop_last();
    if head.contains(id) {
        let k = lemma_some_first(head, id);
        assert(txids.take(k) =~= head.take(k));
        k
    } else {
        let i = choose|i: int| 0 <= i < txids.len() && txids[i] == id;
        if i < head.len() {
            assert(head[i] == id);
        }
        assert(txids.take(i) =~= head);
        i
    }
}

/// A rollback brings back what it takes off the heights, and nothing else.
proof fn lemma_rollback_sources(l: Ledger, from: u64)
    ensures
        forall|id: TxId| #[trigger]
            ledger::rolled_back(l, from).in_flight.contains_key(id) ==> (l.in_flight.contains_key(
                id,
            ) && ledger::rolled_back(l, from).in_flight[id] == l.in_flight[id]) || lost_to(
                l,
                from,
                id,
                ledger::rolled_back(l, from).in_flight[id],
            ),
        ledger::rolled_back(l, from).dropped == l.dropped,
    decreases l.heights.len(),
{
    if l.heights.len() > 0 && l.heights.last().height >= from {
        let e = l.heights.last();
        let last = l.heights.len() - 1;
        let base = Ledger { heights: l.heights.drop_last(), ..l };
        lemma_unmined_sources(base, e.records);
        let n = ledger::unmined_all(base, e.records);
        let next = Ledger { heights: l.heights.drop_last(), ..n };
        lemma_rollback_sources(next, from);
        let f = ledger::rolled_back(l, from);
        assert forall|id: TxId| #[trigger] f.in_flight.contains_key(id) implies (
        l.in_flight.contains_key(id) && f.in_flight[id] == l.in_flight[id]) || lost_to(
            l,
            from,
            id,
            f.in_flight[id],
        ) by {
            let s = f.in_flight[id];
            if lost_to(next, from, id, s) {
                let (i, j) = choose|i: int, j: int|
                    #![trigger next.heights[i].records[j]]
                    0 <= i < next.heights.len() && next.heights[i].height >= from && 0 <= j
                        < next.heights[i].records.len() && next.heights[i].records[j].txid == id
                        && next.heights[i].records[j].submission == s;
                assert(l.heights[i].records[j].txid == id);
            } else {
                assert(n.in_flight.contains_key(id) && n.in_flight[id] == s);
                if !(l.in_flight.contains_key(id) && l.in_flight[id] == s) {
                    let j = choose|j: int|
                        0 <= j < e.records.len() && (#[trigger] e.records[j]).txid == id
                            && e.records[j].submission == s;
                    assert(l.heights[last].records[j].txid == id);
                }
            }
        }
    }
}

proof fn lemma_unmined_sources(l: Ledger, records: Seq<ConfirmedRecord>)
    ensures
        forall|id: TxId| #[trigger]
            ledger::unmined_all(l, records).in_flight.contains_key(id) ==> (
            l.in_flight.contains_key(id) && ledger::unmined_all(l, records).in_flight[id]
                == l.in_flight[id]) || exists|j: int|
                0 <= j < records.len() && (#[trigger] records[j]).txid == id
                    && records[j].submission == ledger::unmined_all(l, records).in_flight[id],
        ledger::unmined_all(l, records).dropped == l.dropped,
    decreases records.len(),
{
    if records.len() > 0 {
        let rec = records.last();
        let rest = records.drop_last();
        let n = ledger::unmined_one(l, rec);
        lemma_unmined_sources(n, rest);
        let f = ledger::unmined_all(l, records);
        assert forall|id: TxId| #[trigger] f.in_flight.contains_key(id) implies (
        l.in_flight.contains_key(id) && f.in_flight[id] == l.in_flight[id]) || exists|j: int|
            0 <= j < records.len() && (#[trigger] records[j]).txid == id && records[j].submission
                == f.in_flight[id] by {
            if exists|j: int|
                0 <= j < rest.len() && (#[trigger] rest[j]).txid == id && rest[j].submission
                    == f.in_flight[id] {
                let j = choose|j: int|
                    0 <= j < rest.len() && (#[trigger] rest[j]).txid == id && rest[j].submission
                        == f.in_flight[id];
                assert(records[j].txid == id && records[j].submission == f.in_flight[id]);
            } else {
                assert(n.in_flight.contains_key(id) && f.in_flight[id] == n.in_flight[id]);
                if id == rec.txid {
                    assert(records[records.len() - 1].txid == id);
                }
            }
        }
    }
}

/// The ledger a block is matched against is in order, and waits for what waited before and
/// for what the block's predecessor at its height had confirmed.
proof fn lemma_settled(l: Ledger, height: u64)
    requires
        ledger::ledger_wf(l),
    ensures
        ledger::core_wf(ledger::settled(l, height), 0, Seq::empty()),
        ledger::settled(l, height).dropped == l.dropped,
        forall|id: TxId| #[trigger]
            ledger::settled(l, height).in_flight.contains_key(id) ==> (l.in_flight.contains_key(id)
                && ledger::settled(l, height).in_flight[id] == l.in_flight[id]) || (
            ledger::knows_height(l, height) && lost_to(
                l,
                height,
                id,
                ledger::settled(l, height).in_flight[id],
            )),
        forall|id: TxId| #[trigger]
            l.in_flight.contains_key(id) ==> ledger::settled(l, height).in_flight.contains_key(id)
                && ledger::settled(l, height).in_flight[id] == l.in_flight[id],
        forall|id: TxId, s: Submission| #[trigger]
            lost_to(l, height, id, s) && ledger::knows_height(l, height) ==> ledger::settled(
                l,
                height,
            ).in_flight.contains_key(id) && ledger::settled(l, height).in_flight[id] == s,
        ledger::height_free(ledger::settled(l, height).heights, height),
{
    tracker_laws::lemma_rolled_back(l, height);
    lemma_rollback_sources(l, height);
    let f = ledger::rolled_back(l, height);
    assert forall|id: TxId, s: Submission| #[trigger]
        lost_to(l, height, id, s) && ledger::knows_height(l, height) implies ledger::settled(
        l,
        height,
    ).in_flight.contains_key(id) && ledger::settled(l, height).in_flight[id] == s by {
        let (i, j) = choose|i: int, j: int|
            #![trigger l.heights[i].records[j]]
            0 <= i < l.heights.len() && l.heights[i].height >= height && 0 <= j
                < l.heights[i].records.len() && l.heights[i].records[j].txid == id
                && l.heights[i].records[j].submission == s;
        assert(f.in_flight.contains_key(l.heights[i].records[j].txid));
    }
}

/// A confirmation measures the wait from the submission, whatever else happened: the height
/// it was submitted at and the blocks to inclusion make the height of the block, and the
/// instant it was submitted at and the latency make the instant of the observation. A
/// submission stamped after the block counts for nothing. It is of an id that the block
/// lists, and of a submission that was in flight, given up on, or taken back by this very
/// block; only what was given up on is late.
pub proof fn law_a_confirmation_measures_the_wait(
    l: Ledger,
    height: u64,
    block: BlockId,
    txids: Seq<TxId>,
    now_ms: u64,
    i: int,
)
    requires
        ledger::ledger_wf(l),
        0 <= i < ledger::observed_events(l, height, block, txids, now_ms).len(),
    ensures
        match ledger::observed_events(l, height, block, txids, now_ms)[i] {
            TrackerEvent::Confirmed(c) => {
                &&& txids.contains(c.txid)
                &&& c.height == height
                &&& c.block == block
                &&& c.submission.submitted_height <= height ==> c.submission.submitted_height
                    + c.blocks_to_inclusion == height
                &&& c.submission.submitted_height > height ==> c.blocks_to_inclusion == 0
                &&& c.submission.submitted_ms <= now_ms ==> c.submission.submitted_ms
                    + c.latency_ms == now_ms
                &&& c.submission.submitted_ms > now_ms ==> c.latency_ms == 0
                &&& c.late ==> l.dropped.contains_key(c.txid) && c.submission
                    == l.dropped[c.txid]
                &&& !c.late ==> (l.in_flight.contains_key(c.txid) && c.submission
                    == l.in_flight[c.txid]) || lost_to(l, height, c.txid, c.submission)
            },
            _ => true,
        },
{
    lemma_settled(l, height);
    let base = ledger::settled(l, height);
    lemma_matched_events(base, txids, height, block, now_ms);
    let lost = if ledger::knows_height(l, height) {
        ledger::rollback_events(l.heights, height)
    } else {
        Seq::empty()
    };
    let found = ledger::matched_events(base, txids, height, block, now_ms);
    let r = ledger::recorded(l, height, block, txids, now_ms);
    tracker_laws::law_rollback_reports_each_loss(l.heights, height);
    lemma_shed_drops(r, now_ms);
    let events = ledger::observed_events(l, height, block, txids, now_ms);
    if i < lost.len() {
        assert(events[i] == lost[i]);
    } else if i < lost.len() + found.len() {
        assert(events[i] == found[i - lost.len()]);
    } else {
        assert(events[i] == ledger::shed_events(r, now_ms)[i - lost.len() - found.len()]);
    }
}

/// What is shed is reported as dropped for room, with its age.
proof fn lemma_shed_drops(l: Ledger, now_ms: u64)
    ensures
        forall|i: int|
            0 <= i < ledger::shed_events(l, now_ms).len() ==> match #[trigger] ledger::shed_events(
                l,
                now_ms,
            )[i] {
                TrackerEvent::Dropped(d) => {
                    &&& d.reason == DropReason::CapacityEvicted
                    &&& d.submission.submitted_ms <= now_ms ==> d.submission.submitted_ms
                        + d.age_ms == now_ms
                    &&& d.submission.submitted_ms > now_ms ==> d.age_ms == 0
                },
                _ => false,
            },
    decreases l.order.len(),
{
    if l.in_flight.dom().len() > MAX_IN_FLIGHT && l.order.contains(ledger::oldest(l)) {
        lemma_order_shrinks(l.order, ledger::oldest(l));
        let n = ledger::without_oldest(l);
        lemma_shed_drops(n, now_ms);
        let events = ledger::shed_events(l, now_ms);
        let rest = ledger::shed_events(n, now_ms);
        assert forall|i: int| 0 <= i < events.len() implies match #[trigger] events[i] {
            TrackerEvent::Dropped(d) => {
                &&& d.reason == DropReason::CapacityEvicted
                &&& d.submission.submitted_ms <= now_ms ==> d.submission.submitted_ms + d.age_ms
                    == now_ms
                &&& d.submission.submitted_ms > now_ms ==> d.age_ms == 0
            },
            _ => false,
        } by {
            if i == 0 {
                assert(events[0] == ledger::eviction(l, now_ms));
            } else {
                assert(events[i] == rest[i - 1]);
            }
        }
    }
}

proof fn lemma_order_shrinks(order: Seq<TxId>, id: TxId)
    requires
        order.contains(id),
    ensures
        ledger::without_place(order, id).len() < order.len(),
{
    let at = order.index_of(id);
    assert(0 <= at < order.len());
}

/// A block confirms what it holds: every id in it that was in flight, or given up on and
/// still remembered, or taken back by this very block, under the submission it was held
/// with; late exactly where it was given up on. Each once, in the order of the block.
pub proof fn law_a_block_confirms_what_it_holds(
    l: Ledger,
    height: u64,
    block: BlockId,
    txids: Seq<TxId>,
    now_ms: u64,
    id: TxId,
    s: Submission,
)
    requires
        ledger::ledger_wf(l),
        !ledger::knows_block(l, height, block),
        txids.contains(id),
    ensures
        ({
            let events = ledger::observed_events(l, height, block, txids, now_ms);
            &&& l.in_flight.contains_key(id) ==> some_confirms(
                events,
                id,
                l.in_flight[id],
                false,
            )
            &&& l.dropped.contains_key(id) ==> some_confirms(events, id, l.dropped[id], true)
            &&& ledger::knows_height(l, height) && lost_to(l, height, id, s) ==> some_confirms(
                events,
                id,
                s,
                false,
            )
        }),
{
    lemma_settled(l, height);
    let base = ledger::settled(l, height);
    lemma_matched_events(base, txids, height, block, now_ms);
    let found = ledger::matched_events(base, txids, height, block, now_ms);
    if base.in_flight.contains_key(id) {
        assert(base.in_flight.contains_key(id) && txids.contains(id));
        lemma_found_among(l, height, block, txids, now_ms, id, base.in_flight[id], false);
    }
    if base.dropped.contains_key(id) {
        assert(base.dropped.contains_key(id) && txids.contains(id));
        lemma_found_among(l, height, block, txids, now_ms, id, base.dropped[id], true);
    }
}

proof fn lemma_found_among(
    l: Ledger,
    height: u64,
    block: BlockId,
    txids: Seq<TxId>,
    now_ms: u64,
    id: TxId,
    s: Submission,
    late: bool,
)
    requires
        !ledger::knows_block(l, height, block),
        some_confirms(
            ledger::matched_events(ledger::settled(l, height), txids, height, block, now_ms),
            id,
            s,
            late,
        ),
    ensures
        some_confirms(ledger::observed_events(l, height, block, txids, now_ms), id, s, late),
{
    let lost = if ledger::knows_height(l, height) {
        ledger::rollback_events(l.heights, height)
    } else {
        Seq::empty()
    };
    let found = ledger::matched_events(ledger::settled(l, height), txids, height, block, now_ms);
    let events = ledger::observed_events(l, height, block, txids, now_ms);
    let i = choose|i: int| 0 <= i < found.len() && confirms(#[trigger] found[i], id, s, late);
    assert(events[lost.len() + i] == found[i]);
    assert(confirms(events[lost.len() + i], id, s, late));
}

/// Two confirmations of one observation are of two ids, and the one reported first stands
/// first in the block.
pub proof fn law_confirmations_come_in_block_order(
    l: Ledger,
    height: u64,
    block: BlockId,
    txids: Seq<TxId>,
    now_ms: u64,
    i: int,
    j: int,
)
    requires
        ledger::ledger_wf(l),
        0 <= i < j < ledger::observed_events(l, height, block, txids, now_ms).len(),
        ledger::observed_events(l, height, block, txids, now_ms)[i] is Confirmed,
        ledger::observed_events(l, height, block, txids, now_ms)[j] is Confirmed,
    ensures
        comes_before(
            txids,
            ledger::observed_events(l, height, block, txids, now_ms)[i]->Confirmed_0.txid,
            ledger::observed_events(l, height, block, txids, now_ms)[j]->Confirmed_0.txid,
        ),
{
    lemma_settled(l, height);
    let base = ledger::settled(l, height);
    lemma_matched_events(base, txids, height, block, now_ms);
    let lost = if ledger::knows_height(l, height) {
        ledger::rollback_events(l.heights, height)
    } else {
        Seq::empty()
    };
    let found = ledger::matched_events(base, txids, height, block, now_ms);
    let r = ledger::recorded(l, height, block, txids, now_ms);
    tracker_laws::law_rollback_reports_each_loss(l.heights, height);
    lemma_shed_drops(r, now_ms);
    let events = ledger::observed_events(l, height, block, txids, now_ms);
    let (n, m) = (lost.len() as int, (lost.len() + found.len()) as int);
    if i < n {
        assert(events[i] == lost[i]);
    }
    if j < n {
        assert(events[j] == lost[j]);
    }
    if i >= m {
        assert(events[i] == ledger::shed_events(r, now_ms)[i - m]);
    }
    if j >= m {
        assert(events[j] == ledger::shed_events(r, now_ms)[j - m]);
    }
    assert(events[i] == found[i - n] && events[j] == found[j - n]);
    assert(comes_before(
        txids,
        tracker_laws::txid_of(found[i - n]),
        tracker_laws::txid_of(found[j - n]),
    ));
}

/// What a shedding leaves alone.
proof fn lemma_shed_keeps(l: Ledger)
    ensures
        ledger::shed(l).dropped == l.dropped,
        forall|id: TxId| #[trigger]
            ledger::shed(l).in_flight.contains_key(id) ==> l.in_flight.contains_key(id)
                && ledger::shed(l).in_flight[id] == l.in_flight[id],
        l.in_flight.dom().len() <= MAX_IN_FLIGHT ==> ledger::shed(l) == l,
    decreases l.order.len(),
{
    if l.in_flight.dom().len() > MAX_IN_FLIGHT && l.order.contains(ledger::oldest(l)) {
        lemma_order_shrinks(l.order, ledger::oldest(l));
        let n = ledger::without_oldest(l);
        lemma_shed_keeps(n);
        assert forall|id: TxId| #[trigger]
            ledger::shed(l).in_flight.contains_key(id) implies l.in_flight.contains_key(id)
            && ledger::shed(l).in_flight[id] == l.in_flight[id] by {
            assert(n.in_flight.contains_key(id));
        }
    }
}

proof fn lemma_pruned_keeps(l: Ledger)
    ensures
        ledger::pruned(l).dropped == l.dropped,
        ledger::pruned(l).in_flight == l.in_flight,
    decreases l.heights.len(),
{
    if l.heights.len() > 0 && (l.heights.len() > MAX_TRACKED_HEIGHTS || l.confirmed_at.dom().len()
        > MAX_CONFIRMED_TRACKED) {
        lemma_pruned_keeps(
            Ledger {
                heights: l.heights.drop_first(),
                confirmed_at: ledger::forgotten(l.confirmed_at, l.heights[0].records),
                ..l
            },
        );
    }
}

proof fn lemma_matched_count(l: Ledger, txids: Seq<TxId>, height: u64, now_ms: u64)
    requires
        l.confirmed_at.dom().finite(),
    ensures
        ledger::matched(l, txids, height, now_ms).confirmed_at.dom().finite(),
        ledger::matched(l, txids, height, now_ms).confirmed_at.dom().len()
            <= l.confirmed_at.dom().len() + txids.len(),
    decreases txids.len(),
{
    if txids.len() > 0 {
        lemma_matched_count(l, txids.drop_last(), height, now_ms);
        let b = ledger::matched(l, txids.drop_last(), height, now_ms);
        let m = ledger::matched(l, txids, height, now_ms);
        if ledger::matchable(b, txids.last()) {
            assert(m.confirmed_at.dom() =~= b.confirmed_at.dom().insert(txids.last()));
        }
    }
}

proof fn lemma_with_height_len(heights: Seq<HeightView>, e: HeightView)
    ensures
        ledger::with_height(heights, e).len() == heights.len() + 1,
    decreases heights.len(),
{
    if heights.len() > 0 && heights.last().height >= e.height {
        lemma_with_height_len(heights.drop_last(), e);
    }
}

/// What an observed block moves. Nothing that it lists stays in flight or written off; what
/// it does not list stays written off under its submission. Where its height is new, exactly
/// what it does not list stays in flight, as it was submitted; and while the confirmations
/// that are retained have room, exactly what waited for it is held confirmed at its height,
/// and what was confirmed before stays so.
pub proof fn law_a_block_moves_exactly_what_it_lists(
    l: Ledger,
    height: u64,
    block: BlockId,
    txids: Seq<TxId>,
    now_ms: u64,
    id: TxId,
)
    requires
        ledger::ledger_wf(l),
        !ledger::knows_block(l, height, block),
    ensures
        ({
            let n = ledger::observed(l, height, block, txids, now_ms);
            &&& txids.contains(id) ==> !n.in_flight.contains_key(id) && !n.dropped.contains_key(id)
            &&& n.dropped.contains_key(id) <==> l.dropped.contains_key(id) && !txids.contains(id)
            &&& n.dropped.contains_key(id) ==> n.dropped[id] == l.dropped[id]
            &&& n.in_flight.contains_key(id) ==> (l.in_flight.contains_key(id) && n.in_flight[id]
                == l.in_flight[id]) || lost_to(l, height, id, n.in_flight[id])
            &&& !ledger::knows_height(l, height) ==> {
                &&& n.in_flight.contains_key(id) <==> l.in_flight.contains_key(id)
                    && !txids.contains(id)
                &&& n.in_flight.contains_key(id) ==> n.in_flight[id] == l.in_flight[id]
                &&& l.heights.len() < MAX_TRACKED_HEIGHTS && l.confirmed_at.dom().len()
                    + txids.len() <= MAX_CONFIRMED_TRACKED ==> {
                    let waited = l.in_flight.contains_key(id) || l.dropped.contains_key(id);
                    &&& n.confirmed_at.contains_key(id) <==> l.confirmed_at.contains_key(id) || (
                    waited && txids.contains(id))
                    &&& waited && txids.contains(id) ==> n.confirmed_at[id] == height
                    &&& l.confirmed_at.contains_key(id) ==> n.confirmed_at[id]
                        == l.confirmed_at[id]
                }
            }
        }),
{
    lemma_settled(l, height);
    let base = ledger::settled(l, height);
    lemma_matched_places(base, txids, height, now_ms);
    let m = ledger::matched(base, txids, height, now_ms);
    let e = HeightView { height, block, records: ledger::matched_records(base, txids, height, now_ms) };
    let w = Ledger { heights: ledger::with_height(m.heights, e), ..m };
    lemma_pruned_keeps(w);
    let r = ledger::recorded(l, height, block, txids, now_ms);
    lemma_shed_keeps(r);
    let n = ledger::observed(l, height, block, txids, now_ms);
    assert(r.in_flight == m.in_flight && r.dropped == m.dropped);
    assert(n.dropped == m.dropped);
    assert(m.in_flight.contains_key(id) <==> base.in_flight.contains_key(id) && !txids.contains(id));
    assert(m.dropped.contains_key(id) <==> l.dropped.contains_key(id) && !txids.contains(id));
    if n.in_flight.contains_key(id) {
        assert(r.in_flight.contains_key(id));
        assert(base.in_flight.contains_key(id));
    }
    if !ledger::knows_height(l, height) {
        assert(base == l);
        ledger::lemma_no_pending(base, 0, height);
        tracker_laws::lemma_matched_wf(base, txids, height, now_ms);
        assert(r.in_flight.dom().len() <= MAX_IN_FLIGHT);
        assert(n.in_flight == m.in_flight);
        if l.heights.len() < MAX_TRACKED_HEIGHTS && l.confirmed_at.dom().len() + txids.len()
            <= MAX_CONFIRMED_TRACKED {
            lemma_matched_count(l, txids, height, now_ms);
            lemma_with_height_len(m.heights, e);
            assert(ledger::pruned(w) == w);
            assert(n.confirmed_at == m.confirmed_at);
            assert(m.confirmed_at.contains_key(id) <==> l.confirmed_at.contains_key(id) || (
            ledger::matchable(l, id) && txids.contains(id)));
        }
    }
}

/// The event is the un-mining of this record of this height.
pub open spec fn unmines(e: TrackerEvent, h: HeightView, rec: ConfirmedRecord) -> bool {
    match e {
        TrackerEvent::Unmined(u) => {
            &&& u.txid == rec.txid
            &&& u.submission == rec.submission
            &&& u.height == h.height
            &&& u.block == h.block
        },
        _ => false,
    }
}

proof fn lemma_unmined_events(e: HeightView, records: Seq<ConfirmedRecord>)
    ensures
        ledger::unmined_events(e, records).len() == records.len(),
        forall|i: int|
            0 <= i < records.len() ==> unmines(
                #[trigger] ledger::unmined_events(e, records)[i],
                e,
                records[records.len() - 1 - i],
            ),
    decreases records.len(),
{
    if records.len() > 0 {
        let rest = records.drop_last();
        lemma_unmined_events(e, rest);
        let events = ledger::unmined_events(e, records);
        let tail = ledger::unmined_events(e, rest);
        assert forall|i: int| 0 <= i < records.len() implies unmines(
            #[trigger] events[i],
            e,
            records[records.len() - 1 - i],
        ) by {
            if i > 0 {
                assert(events[i] == tail[i - 1]);
                assert(rest[rest.len() - 1 - (i - 1)] == records[records.len() - 1 - i]);
            }
        }
    }
}

/// The event is the un-mining of some confirmation recorded at this height or above.
pub open spec fn unmines_from(e: TrackerEvent, heights: Seq<HeightView>, from: u64) -> bool {
    exists|i: int, j: int| #[trigger] unmines_at(e, heights, from, i, j)
}

/// The event is the un-mining of this confirmation, recorded at the height or above.
pub open spec fn unmines_at(
    e: TrackerEvent,
    heights: Seq<HeightView>,
    from: u64,
    i: int,
    j: int,
) -> bool {
    &&& 0 <= i < heights.len()
    &&& heights[i].height >= from
    &&& 0 <= j < heights[i].records.len()
    &&& unmines(e, heights[i], heights[i].records[j])
}

/// Some event is the un-mining of this confirmation.
pub open spec fn some_unmines(events: Seq<TrackerEvent>, h: HeightView, rec: ConfirmedRecord) -> bool {
    exists|k: int| 0 <= k < events.len() && unmines(#[trigger] events[k], h, rec)
}

/// Nothing but confirmations recorded at the height or above is reported lost, and the tip's
/// are reported first.
pub proof fn law_a_rollback_reports_nothing_else(heights: Seq<HeightView>, from: u64)
    requires
        forall|i: int, j: int|
            0 <= i < j < heights.len() ==> (#[trigger] heights[i]).height
                < (#[trigger] heights[j]).height,
    ensures
        ({
            let events = ledger::rollback_events(heights, from);
            &&& forall|k: int|
                0 <= k < events.len() ==> unmines_from(#[trigger] events[k], heights, from)
            &&& forall|k: int, n: int|
                0 <= k < n < events.len() ==> (#[trigger] events[k])->Unmined_0.height >= (
                #[trigger] events[n])->Unmined_0.height
        }),
    decreases heights.len(),
{
    let events = ledger::rollback_events(heights, from);
    if heights.len() > 0 && heights.last().height >= from {
        let rest = heights.drop_last();
        let e = heights.last();
        let top = heights.len() - 1;
        assert forall|i: int, j: int| 0 <= i < j < rest.len() implies (#[trigger] rest[i]).height < (
        #[trigger] rest[j]).height by {
            assert(heights[i].height < heights[j].height);
        }
        law_a_rollback_reports_nothing_else(rest, from);
        lemma_unmined_events(e, e.records);
        let first = ledger::unmined_events(e, e.records);
        let later = ledger::rollback_events(rest, from);
        let n0 = first.len() as int;
        assert forall|k: int| 0 <= k < events.len() implies unmines_from(
            #[trigger] events[k],
            heights,
            from,
        ) && (k >= n0 ==> events[k]->Unmined_0.height < e.height) && (k < n0
            ==> events[k]->Unmined_0.height == e.height) by {
            if k < n0 {
                assert(events[k] == first[k]);
                assert(unmines_at(events[k], heights, from, top, n0 - 1 - k));
            } else {
                assert(events[k] == later[k - n0]);
                assert(unmines_from(later[k - n0], rest, from));
                let (i, j) = choose|i: int, j: int| #[trigger]
                    unmines_at(later[k - n0], rest, from, i, j);
                assert(unmines_at(events[k], heights, from, i, j));
                assert(heights[i].height < heights[top].height);
            }
        }
        assert forall|k: int, n: int| 0 <= k < n < events.len() implies (
        #[trigger] events[k])->Unmined_0.height >= (#[trigger] events[n])->Unmined_0.height by {
            if k >= n0 {
                assert(events[k] == later[k - n0] && events[n] == later[n - n0]);
            }
        }
    }
}

/// Every confirmation recorded at the height or above is reported lost, with the
/// transaction, the submission, the height and the block it had.
pub proof fn law_a_rollback_reports_every_loss(
    heights: Seq<HeightView>,
    from: u64,
    i: int,
    j: int,
)
    requires
        forall|a: int, b: int|
            0 <= a < b < heights.len() ==> (#[trigger] heights[a]).height
                < (#[trigger] heights[b]).height,
        0 <= i < heights.len(),
        heights[i].height >= from,
        0 <= j < heights[i].records.len(),
    ensures
        some_unmines(ledger::rollback_events(heights, from), heights[i], heights[i].records[j]),
    decreases heights.len(),
{
    let events = ledger::rollback_events(heights, from);
    let rest = heights.drop_last();
    let e = heights.last();
    let top = heights.len() - 1;
    if i < top {
        assert(heights[i].height < heights[top].height);
    }
    lemma_unmined_events(e, e.records);
    let first = ledger::unmined_events(e, e.records);
    let later = ledger::rollback_events(rest, from);
    let n0 = first.len() as int;
    if i == top {
        let k = n0 - 1 - j;
        assert(events[k] == first[k]);
        assert(unmines(events[k], heights[i], heights[i].records[j]));
    } else {
        assert forall|a: int, b: int| 0 <= a < b < rest.len() implies (#[trigger] rest[a]).height < (
        #[trigger] rest[b]).height by {
            assert(heights[a].height < heights[b].height);
        }
        law_a_rollback_reports_every_loss(rest, from, i, j);
        let k = choose|k: int|
            0 <= k < later.len() && unmines(#[trigger] later[k], rest[i], rest[i].records[j]);
        assert(events[n0 + k] == later[k]);
    }
}

/// An observation loses what a rollback from its height takes, where that height was
/// recorded with another block, and nothing otherwise; and it says so first.
pub proof fn law_only_a_replaced_height_is_lost(
    l: Ledger,
    height: u64,
    block: BlockId,
    txids: Seq<TxId>,
    now_ms: u64,
)
    requires
        ledger::ledger_wf(l),
    ensures
        ({
            let events = ledger::observed_events(l, height, block, txids, now_ms);
            let lost = ledger::rollback_events(l.heights, height);
            let replaced = exists|i: int|
                0 <= i < l.heights.len() && (#[trigger] l.heights[i]).height == height
                    && l.heights[i].block != block;
            let n = if replaced {
                lost.len() as int
            } else {
                0
            };
            &&& n <= events.len()
            &&& forall|i: int| 0 <= i < n ==> #[trigger] events[i] == lost[i]
            &&& forall|i: int| n <= i < events.len() ==> !((#[trigger] events[i]) is Unmined)
        }),
{
    let events = ledger::observed_events(l, height, block, txids, now_ms);
    let replaced = exists|i: int|
        0 <= i < l.heights.len() && (#[trigger] l.heights[i]).height == height
            && l.heights[i].block != block;
    if ledger::knows_block(l, height, block) {
        let i = choose|i: int|
            0 <= i < l.heights.len() && (#[trigger] l.heights[i]).height == height
                && l.heights[i].block == block;
        assert(!replaced) by {
            if replaced {
                let k = choose|k: int|
                    0 <= k < l.heights.len() && (#[trigger] l.heights[k]).height == height
                        && l.heights[k].block != block;
                if i < k {
                    assert(l.heights[i].height < l.heights[k].height);
                } else if k < i {
                    assert(l.heights[k].height < l.heights[i].height);
                }
            }
        }
    } else {
        assert(replaced <==> ledger::knows_height(l, height)) by {
            if ledger::knows_height(l, height) {
                let i = choose|i: int|
                    0 <= i < l.heights.len() && (#[trigger] l.heights[i]).height == height;
                assert(l.heights[i].block != block);
            }
        }
        lemma_settled(l, height);
        let base = ledger::settled(l, height);
        lemma_matched_events(base, txids, height, block, now_ms);
        let lost = if ledger::knows_height(l, height) {
            ledger::rollback_events(l.heights, height)
        } else {
            Seq::empty()
        };
        let found = ledger::matched_events(base, txids, height, block, now_ms);
        let r = ledger::recorded(l, height, block, txids, now_ms);
        lemma_shed_drops(r, now_ms);
        let n = lost.len() as int;
        assert forall|i: int| 0 <= i < n implies #[trigger] events[i] == lost[i] by {}
        assert forall|i: int| n <= i < events.len() implies !((#[trigger] events[i]) is Unmined) by {
            if i < n + found.len() {
                assert(events[i] == found[i - n]);
            } else {
                assert(events[i] == ledger::shed_events(r, now_ms)[i - n - found.len()]);
            }
        }
    }
}

/// A transaction is overdue once its age has reached the limit: a stamp in the future has no
/// age, and a limit of nothing is always reached.
pub open spec fn is_overdue(s: Submission, now_ms: u64, ttl_ms: u64) -> bool {
    ttl_ms == 0 || s.submitted_ms + ttl_ms <= now_ms
}

/// A sweep writes off exactly what is overdue, each under its submission and with its age,
/// and reports each once, as expired. What is not overdue stays in flight as it was. While
/// the memory of drops has room, each is remembered, and so is every earlier one.
pub proof fn law_a_sweep_reports_exactly_the_overdue(
    l: Ledger,
    now_ms: u64,
    ttl_ms: u64,
    id: TxId,
)
    requires
        ledger::ledger_wf(l),
    ensures
        ({
            let n = ledger::swept(l, now_ms, ttl_ms);
            let events = ledger::expired_events(
                l,
                ledger::sweep_list(l, now_ms, ttl_ms),
                now_ms,
            );
            let gone = l.in_flight.contains_key(id) && is_overdue(
                l.in_flight[id],
                now_ms,
                ttl_ms,
            );
            &&& gone <==> exists|i: int|
                0 <= i < events.len() && tracker_laws::txid_of(#[trigger] events[i]) == id
            &&& forall|i: int|
                0 <= i < events.len() && tracker_laws::txid_of(#[trigger] events[i]) == id
                    ==> match events[i] {
                    TrackerEvent::Dropped(d) => {
                        &&& d.reason == DropReason::Expired
                        &&& d.submission == l.in_flight[id]
                        &&& d.submission.submitted_ms <= now_ms ==> d.submission.submitted_ms
                            + d.age_ms == now_ms
                        &&& d.submission.submitted_ms > now_ms ==> d.age_ms == 0
                    },
                    _ => false,
                }
            &&& forall|i: int, j: int|
                0 <= i < j < events.len() ==> tracker_laws::txid_of(#[trigger] events[i])
                    != tracker_laws::txid_of(#[trigger] events[j])
            &&& n.in_flight.contains_key(id) <==> l.in_flight.contains_key(id) && !gone
            &&& n.in_flight.contains_key(id) ==> n.in_flight[id] == l.in_flight[id]
            &&& l.dropped.dom().len() + events.len() <= MAX_DROP_MEMORY ==> {
                &&& n.dropped.contains_key(id) <==> l.dropped.contains_key(id) || gone
                &&& gone ==> n.dropped[id] == l.in_flight[id]
                &&& l.dropped.contains_key(id) ==> n.dropped[id] == l.dropped[id]
            }
        }),
{
    let list = ledger::sweep_list(l, now_ms, ttl_ms);
    let f = ledger::overdue(l.in_flight, now_ms, ttl_ms);
    ledger::lemma_order_filter(l.order, f);
    tracker_laws::law_sweep_drops_exactly_the_overdue(l, now_ms, ttl_ms, id);
    assert forall|i: int| 0 <= i < list.len() implies f(#[trigger] list[i]) by {
        l.order.lemma_filter_pred(f, i);
    }
    assert forall|i: int| 0 <= i < list.len() implies l.in_flight.contains_key(
        #[trigger] list[i],
    ) by {
        assert(f(list[i]));
    }
    tracker_laws::lemma_expired_events(l, list, now_ms);
    lemma_expired_says(l, list, now_ms);
    let events = ledger::expired_events(l, list, now_ms);
    let gone = l.in_flight.contains_key(id) && is_overdue(l.in_flight[id], now_ms, ttl_ms);
    assert(gone <==> f(id));
    if gone {
        assert(l.order.contains(id));
        assert(list.contains(id));
        let i = choose|i: int| 0 <= i < list.len() && list[i] == id;
        assert(tracker_laws::txid_of(events[i]) == id);
    }
    assert forall|i: int, j: int| 0 <= i < j < events.len() implies tracker_laws::txid_of(
        #[trigger] events[i],
    ) != tracker_laws::txid_of(#[trigger] events[j]) by {
        assert(list[i] != list[j]);
    }
    if l.dropped.dom().len() + events.len() <= MAX_DROP_MEMORY {
        lemma_expired_remembered(l, list);
        let a = ledger::expired_all(l, list);
        assert(ledger::swept(l, now_ms, ttl_ms).dropped == a.dropped);
        assert(a.dropped.contains_key(id) <==> l.dropped.contains_key(id) || list.contains(id));
        if list.contains(id) {
            let i = choose|i: int| 0 <= i < list.len() && list[i] == id;
            assert(f(list[i]));
        }
    }
}

proof fn lemma_expired_says(l: Ledger, ids: Seq<TxId>, now_ms: u64)
    requires
        ledger::core_wf(l, 0, Seq::empty()),
    ensures
        forall|i: int|
            0 <= i < ledger::expired_events(l, ids, now_ms).len()
                ==> match #[trigger] ledger::expired_events(l, ids, now_ms)[i] {
                TrackerEvent::Dropped(d) => {
                    &&& d.reason == DropReason::Expired
                    &&& l.in_flight.contains_key(d.txid)
                    &&& d.submission == l.in_flight[d.txid]
                    &&& d.submission.submitted_ms <= now_ms ==> d.submission.submitted_ms
                        + d.age_ms == now_ms
                    &&& d.submission.submitted_ms > now_ms ==> d.age_ms == 0
                },
                _ => false,
            },
    decreases ids.len(),
{
    if ids.len() > 0 {
        lemma_expired_says(l, ids.drop_last(), now_ms);
        tracker_laws::lemma_expired_all(l, ids.drop_last());
        let before = ledger::expired_all(l, ids.drop_last());
        if before.in_flight.contains_key(ids.last()) {
            assert(l.in_flight.contains_key(ids.last()));
        }
    }
}

proof fn lemma_expired_remembered(l: Ledger, ids: Seq<TxId>)
    requires
        ledger::core_wf(l, 0, Seq::empty()),
        ids.no_duplicates(),
        forall|i: int| 0 <= i < ids.len() ==> l.in_flight.contains_key(#[trigger] ids[i]),
        l.dropped.dom().len() + ids.len() <= MAX_DROP_MEMORY,
    ensures
        ({
            let a = ledger::expired_all(l, ids);
            &&& a.dropped_order.len() == l.dropped_order.len() + ids.len()
            &&& forall|id: TxId| #[trigger]
                a.dropped.contains_key(id) <==> l.dropped.contains_key(id) || ids.contains(id)
            &&& forall|id: TxId| #[trigger]
                a.dropped.contains_key(id) ==> a.dropped[id] == if ids.contains(id) {
                    l.in_flight[id]
                } else {
                    l.dropped[id]
                }
        }),
    decreases ids.len(),
{
    if ids.len() > 0 {
        let head = ids.drop_last();
        let x = ids.last();
        assert forall|i: int| 0 <= i < head.len() implies l.in_flight.contains_key(
            #[trigger] head[i],
        ) by {
            assert(head[i] == ids[i]);
        }
        lemma_expired_remembered(l, head);
        tracker_laws::lemma_expired_all(l, head);
        let b = ledger::expired_all(l, head);
        let a = ledger::expired_all(l, ids);
        assert(l.in_flight.contains_key(ids[ids.len() - 1]));
        assert(!head.contains(x));
        assert(b.in_flight.contains_key(x));
        assert(b.dropped_order.push(x).len() <= MAX_DROP_MEMORY);
        assert(a.dropped == b.dropped.insert(x, l.in_flight[x]));
        assert forall|id: TxId| ids.contains(id) <==> head.contains(id) || id == x by {
            if ids.contains(id) {
                let i = choose|i: int| 0 <= i < ids.len() && ids[i] == id;
                if i < head.len() {
                    assert(head[i] == id);
                }
            }
            if head.contains(id) {
                let i = choose|i: int| 0 <= i < head.len() && head[i] == id;
                assert(ids[i] == id);
            }
            assert(ids[ids.len() - 1] == x);
        }
        assert forall|id: TxId| #[trigger]
            a.dropped.contains_key(id) <==> l.dropped.contains_key(id) || ids.contains(id) by {
            assert(b.dropped.contains_key(id) <==> l.dropped.contains_key(id) || head.contains(
                id,
            ));
        }
        assert forall|id: TxId| #[trigger] a.dropped.contains_key(id) implies a.dropped[id]
            == if ids.contains(id) {
            l.in_flight[id]
        } else {
            l.dropped[id]
        } by {
            if id != x {
                assert(b.dropped.contains_key(id));
            }
        }
    }
}

/// A registration that is taken holds the submission it was given, under its id, and leaves
/// every other in flight as it was, but for the one it has to shed where the set is full.
/// That one is reported, dropped for room, with its age at the new submission's instant. The
/// id is not written off any more, nor is any other touched. An id that is in flight or
/// confirmed is not registered again, and nothing is shed for it.
pub proof fn law_a_registration_holds_what_it_was_given(
    l: Ledger,
    id: TxId,
    s: Submission,
)
    requires
        ledger::ledger_wf(l),
    ensures
        ({
            let n = ledger::registered(l, id, s);
            let known = l.in_flight.contains_key(id) || l.confirmed_at.contains_key(id);
            let full = l.in_flight.dom().len() == MAX_IN_FLIGHT;
            let events = tracker_laws::call_events(
                l,
                tracker_laws::Call::Register { txid: id, submission: s },
            );
            &&& known ==> n == l && events.len() == 0
            &&& !known ==> {
                &&& n.in_flight.contains_key(id)
                &&& n.in_flight[id] == s
                &&& n.dropped == l.dropped.remove(id)
                &&& n.confirmed_at == l.confirmed_at
                &&& n.heights == l.heights
                &&& n.hist == l.hist
            }
            &&& !known && !full ==> {
                &&& events.len() == 0
                &&& n.in_flight == l.in_flight.insert(id, s)
            }
            &&& !known && full ==> {
                &&& events.len() == 1
                &&& match events[0] {
                    TrackerEvent::Dropped(d) => {
                        &&& d.reason == DropReason::CapacityEvicted
                        &&& l.in_flight.contains_key(d.txid)
                        &&& d.submission == l.in_flight[d.txid]
                        &&& d.submission.submitted_ms <= s.submitted_ms
                            ==> d.submission.submitted_ms + d.age_ms == s.submitted_ms
                        &&& d.submission.submitted_ms > s.submitted_ms ==> d.age_ms == 0
                        &&& n.in_flight == l.in_flight.remove(d.txid).insert(id, s)
                    },
                    _ => false,
                }
            }
        }),
{
    if !ledger::followed(l, id) {
        ledger::lemma_cleared(l, id);
        let fresh = ledger::cleared(l, id);
        if !l.dropped.contains_key(id) {
            assert(l.dropped.remove(id) =~= l.dropped);
        }
        if ledger::must_shed(l, id) {
            ledger::lemma_without_oldest(fresh);
        }
    }
}

/// How many events of a list are such.
pub open spec fn number(events: Seq<TrackerEvent>, such: spec_fn(TrackerEvent) -> bool) -> int
    decreases events.len(),
{
    if events.len() == 0 {
        0
    } else {
        number(events.drop_last(), such) + if such(events.last()) {
            1int
        } else {
            0
        }
    }
}

/// A confirmation.
pub open spec fn is_confirmed() -> spec_fn(TrackerEvent) -> bool {
    |e: TrackerEvent| e is Confirmed
}

/// A confirmation that came late.
pub open spec fn is_late() -> spec_fn(TrackerEvent) -> bool {
    |e: TrackerEvent| e is Confirmed && e->Confirmed_0.late
}

/// A confirmation taken back.
pub open spec fn is_unmined() -> spec_fn(TrackerEvent) -> bool {
    |e: TrackerEvent| e is Unmined
}

/// A drop for room.
pub open spec fn is_evicted() -> spec_fn(TrackerEvent) -> bool {
    |e: TrackerEvent| e is Dropped && e->Dropped_0.reason == DropReason::CapacityEvicted
}

/// A drop for its age.
pub open spec fn is_expired() -> spec_fn(TrackerEvent) -> bool {
    |e: TrackerEvent| e is Dropped && e->Dropped_0.reason == DropReason::Expired
}

proof fn lemma_number_add(
    a: Seq<TrackerEvent>,
    b: Seq<TrackerEvent>,
    such: spec_fn(TrackerEvent) -> bool,
)
    ensures
        number(a + b, such) == number(a, such) + number(b, such),
        0 <= number(b, such) <= b.len(),
    decreases b.len(),
{
    if b.len() == 0 {
        assert(a + b =~= a);
    } else {
        assert((a + b).drop_last() =~= a + b.drop_last());
        lemma_number_add(a, b.drop_last(), such);
    }
}

proof fn lemma_number_all(events: Seq<TrackerEvent>, such: spec_fn(TrackerEvent) -> bool, all: bool)
    requires
        forall|i: int| 0 <= i < events.len() ==> such(#[trigger] events[i]) == all,
    ensures
        number(events, such) == if all {
            events.len() as int
        } else {
            0
        },
    decreases events.len(),
{
    if events.len() > 0 {
        let d = events.drop_last();
        assert forall|i: int| 0 <= i < d.len() implies such(#[trigger] d[i]) == all by {
            assert(d[i] == events[i]);
        }
        lemma_number_all(d, such, all);
        assert(such(events[events.len() - 1]) == all);
    }
}

proof fn lemma_unmined_counts(l: Ledger, h: u64, pending: Seq<ConfirmedRecord>)
    requires
        ledger::core_wf(l, h, pending),
        l.stats.unmined_total + pending.len() <= u64::MAX,
    ensures
        ({
            let n = ledger::unmined_all(l, pending);
            &&& n.stats.confirmed == l.stats.confirmed - pending.len()
            &&& n.stats.unmined_total == l.stats.unmined_total + pending.len()
            &&& n.stats.late_total == l.stats.late_total
            &&& n.stats.dropped_expired == l.stats.dropped_expired
            &&& n.stats.dropped_evicted == l.stats.dropped_evicted
        }),
    decreases pending.len(),
{
    if pending.len() > 0 {
        ledger::lemma_unmined_one(l, h, pending);
        assert(l.confirmed_at.dom().contains(pending.last().txid));
        assert(l.confirmed_at.dom().len() > 0) by {
            if l.confirmed_at.dom().len() == 0 {
                assert(l.confirmed_at.dom() =~= Set::empty());
            }
        }
        lemma_unmined_counts(ledger::unmined_one(l, pending.last()), h, pending.drop_last());
    }
}

proof fn lemma_rollback_counts(l: Ledger, from: u64)
    requires
        ledger::core_wf(l, 0, Seq::empty()),
        l.stats.unmined_total + ledger::rollback_events(l.heights, from).len() <= u64::MAX,
    ensures
        ({
            let n = ledger::rolled_back(l, from);
            let lost = ledger::rollback_events(l.heights, from);
            &&& n.stats.confirmed == l.stats.confirmed - lost.len()
            &&& n.stats.unmined_total == l.stats.unmined_total + lost.len()
            &&& n.stats.late_total == l.stats.late_total
            &&& n.stats.dropped_expired == l.stats.dropped_expired
            &&& n.stats.dropped_evicted == l.stats.dropped_evicted
        }),
    decreases l.heights.len(),
{
    if l.heights.len() > 0 && l.heights.last().height >= from {
        let e = l.heights.last();
        let base = Ledger { heights: l.heights.drop_last(), ..l };
        ledger::lemma_take_last(l.heights, l.confirmed_at);
        lemma_unmined_events(e, e.records);
        lemma_unmined_counts(base, e.height, e.records);
        tracker_laws::lemma_unmined_all(base, e.height, e.records);
        let n = ledger::unmined_all(base, e.records);
        ledger::lemma_no_pending(n, e.height, 0);
        assert((Ledger { heights: l.heights.drop_last(), ..n }) =~= n);
        lemma_rollback_counts(n, from);
    }
}

proof fn lemma_matched_counts(
    l: Ledger,
    txids: Seq<TxId>,
    height: u64,
    block: BlockId,
    now_ms: u64,
)
    requires
        ledger::core_wf(l, height, Seq::empty()),
        ledger::height_free(l.heights, height),
        l.stats.confirmed + ledger::matched_events(l, txids, height, block, now_ms).len()
            <= u64::MAX,
        l.stats.late_total + ledger::matched_events(l, txids, height, block, now_ms).len()
            <= u64::MAX,
    ensures
        ({
            let n = ledger::matched(l, txids, height, now_ms);
            let found = ledger::matched_events(l, txids, height, block, now_ms);
            &&& n.stats.confirmed == l.stats.confirmed + found.len()
            &&& n.stats.late_total == l.stats.late_total + number(found, is_late())
            &&& n.stats.dropped_expired == l.stats.dropped_expired - number(found, is_late())
            &&& n.stats.unmined_total == l.stats.unmined_total
            &&& n.stats.dropped_evicted == l.stats.dropped_evicted
            &&& 0 <= number(found, is_late()) <= found.len()
        }),
    decreases txids.len(),
{
    if txids.len() > 0 {
        let head = txids.drop_last();
        let x = txids.last();
        let before = ledger::matched_events(l, head, height, block, now_ms);
        let found = ledger::matched_events(l, txids, height, block, now_ms);
        let b = ledger::matched(l, head, height, now_ms);
        lemma_matched_counts(l, head, height, block, now_ms);
        tracker_laws::lemma_matched_wf(l, head, height, now_ms);
        if ledger::matchable(b, x) {
            assert(found.drop_last() =~= before);
            if !b.in_flight.contains_key(x) {
                tracker_laws::lemma_some_key(b.dropped, x);
            }
        }
    }
}

proof fn lemma_shed_number(l: Ledger, now_ms: u64)
    requires
        l.stats.dropped_evicted + ledger::shed_events(l, now_ms).len() <= u64::MAX,
    ensures
        ({
            let n = ledger::shed(l);
            let gone = ledger::shed_events(l, now_ms);
            &&& n.stats.dropped_evicted == l.stats.dropped_evicted + gone.len()
            &&& n.stats.confirmed == l.stats.confirmed
            &&& n.stats.late_total == l.stats.late_total
            &&& n.stats.dropped_expired == l.stats.dropped_expired
            &&& n.stats.unmined_total == l.stats.unmined_total
        }),
    decreases l.order.len(),
{
    if l.in_flight.dom().len() > MAX_IN_FLIGHT && l.order.contains(ledger::oldest(l)) {
        lemma_order_shrinks(l.order, ledger::oldest(l));
        lemma_shed_number(ledger::without_oldest(l), now_ms);
    }
}

/// The counters are the reports counted: an observation adds its confirmations to the
/// confirmed and takes its un-minings off, moves its late ones out of the expired, adds its
/// sheddings to the evicted, and tallies each kind once. This holds until a count reaches
/// the largest number.
pub proof fn law_an_observation_counts_what_it_reports(
    l: Ledger,
    height: u64,
    block: BlockId,
    txids: Seq<TxId>,
    now_ms: u64,
)
    requires
        ledger::ledger_wf(l),
        ({
            let n = ledger::observed_events(l, height, block, txids, now_ms).len();
            &&& l.stats.confirmed + n <= u64::MAX
            &&& l.stats.unmined_total + n <= u64::MAX
            &&& l.stats.late_total + n <= u64::MAX
            &&& l.stats.dropped_evicted + n <= u64::MAX
        }),
    ensures
        ({
            let n = ledger::observed(l, height, block, txids, now_ms);
            let events = ledger::observed_events(l, height, block, txids, now_ms);
            &&& n.stats.in_flight == n.in_flight.dom().len()
            &&& n.stats.confirmed == l.stats.confirmed + number(events, is_confirmed()) - number(
                events,
                is_unmined(),
            )
            &&& n.stats.unmined_total == l.stats.unmined_total + number(events, is_unmined())
            &&& n.stats.late_total == l.stats.late_total + number(events, is_late())
            &&& n.stats.dropped_expired == l.stats.dropped_expired - number(events, is_late())
            &&& n.stats.dropped_evicted == l.stats.dropped_evicted + number(events, is_evicted())
        }),
{
    tracker_laws::law_every_operation_keeps_the_bounds(
        l,
        tracker_laws::Call::Observe { height, block, txids, now_ms },
    );
    let events = ledger::observed_events(l, height, block, txids, now_ms);
    if !ledger::knows_block(l, height, block) {
        lemma_settled(l, height);
        let base = ledger::settled(l, height);
        let lost = if ledger::knows_height(l, height) {
            ledger::rollback_events(l.heights, height)
        } else {
            Seq::empty()
        };
        if ledger::knows_height(l, height) {
            lemma_rollback_counts(l, height);
        }
        ledger::lemma_no_pending(base, 0, height);
        let found = ledger::matched_events(base, txids, height, block, now_ms);
        lemma_matched_counts(base, txids, height, block, now_ms);
        lemma_matched_events(base, txids, height, block, now_ms);
        let m = ledger::matched(base, txids, height, now_ms);
        let e = HeightView {
            height,
            block,
            records: ledger::matched_records(base, txids, height, now_ms),
        };
        tracker_laws::lemma_pruned_counts(
            Ledger { heights: ledger::with_height(m.heights, e), ..m },
        );
        let r = ledger::recorded(l, height, block, txids, now_ms);
        let gone = ledger::shed_events(r, now_ms);
        lemma_shed_number(r, now_ms);
        lemma_shed_drops(r, now_ms);
        tracker_laws::law_rollback_reports_each_loss(l.heights, height);
        lemma_kinds(lost, found, gone);
    }
}

/// Of losses, confirmations and sheddings in a row, each kind counts its own.
proof fn lemma_kinds(lost: Seq<TrackerEvent>, found: Seq<TrackerEvent>, gone: Seq<TrackerEvent>)
    requires
        forall|i: int| 0 <= i < lost.len() ==> (#[trigger] lost[i]) is Unmined,
        forall|i: int| 0 <= i < found.len() ==> (#[trigger] found[i]) is Confirmed,
        forall|i: int|
            0 <= i < gone.len() ==> (#[trigger] gone[i]) is Dropped && gone[i]->Dropped_0.reason
                == DropReason::CapacityEvicted,
    ensures
        number(lost + found + gone, is_unmined()) == lost.len(),
        number(lost + found + gone, is_confirmed()) == found.len(),
        number(lost + found + gone, is_late()) == number(found, is_late()),
        number(lost + found + gone, is_evicted()) == gone.len(),
{
    lemma_number_add(lost + found, gone, is_unmined());
    lemma_number_add(lost, found, is_unmined());
    lemma_number_all(lost, is_unmined(), true);
    lemma_number_all(found, is_unmined(), false);
    lemma_number_all(gone, is_unmined(), false);
    lemma_number_add(lost + found, gone, is_confirmed());
    lemma_number_add(lost, found, is_confirmed());
    lemma_number_all(lost, is_confirmed(), false);
    lemma_number_all(found, is_confirmed(), true);
    lemma_number_all(gone, is_confirmed(), false);
    lemma_number_add(lost + found, gone, is_late());
    lemma_number_add(lost, found, is_late());
    lemma_number_all(lost, is_late(), false);
    lemma_number_all(gone, is_late(), false);
    lemma_number_add(lost + found, gone, is_evicted());
    lemma_number_add(lost, found, is_evicted());
    lemma_number_all(lost, is_evicted(), false);
    lemma_number_all(found, is_evicted(), false);
    lemma_number_all(gone, is_evicted(), true);
}

/// A sweep adds what it writes off to the expired, and changes no other count but of those
/// in flight.
pub proof fn law_a_sweep_counts_what_it_reports(l: Ledger, now_ms: u64, ttl_ms: u64)
    requires
        ledger::ledger_wf(l),
        l.stats.dropped_expired + l.in_flight.dom().len() <= u64::MAX,
    ensures
        ({
            let n = ledger::swept(l, now_ms, ttl_ms);
            let events = ledger::expired_events(
                l,
                ledger::sweep_list(l, now_ms, ttl_ms),
                now_ms,
            );
            &&& n.stats == (ledger::Stats {
                in_flight: n.stats.in_flight,
                dropped_expired: (l.stats.dropped_expired + events.len()) as u64,
                ..l.stats
            })
            &&& number(events, is_expired()) == events.len()
            &&& n.stats.in_flight == l.stats.in_flight - events.len()
        }),
{
    tracker_laws::law_every_operation_keeps_the_bounds(
        l,
        tracker_laws::Call::Expire { now_ms, ttl_ms },
    );
    let list = ledger::sweep_list(l, now_ms, ttl_ms);
    let f = ledger::overdue(l.in_flight, now_ms, ttl_ms);
    ledger::lemma_order_filter(l.order, f);
    assert forall|i: int| 0 <= i < list.len() implies l.in_flight.contains_key(
        #[trigger] list[i],
    ) by {
        l.order.lemma_filter_pred(f, i);
        assert(f(list[i]));
    }
    tracker_laws::lemma_expired_events(l, list, now_ms);
    lemma_expired_says(l, list, now_ms);
    let events = ledger::expired_events(l, list, now_ms);
    lemma_number_all(events, is_expired(), true);
    list.unique_seq_to_set();
    assert(list.to_set().subset_of(l.in_flight.dom())) by {
        assert forall|x: TxId| list.to_set().contains(x) implies l.in_flight.dom().contains(x) by {
            let i = choose|i: int| 0 <= i < list.len() && list[i] == x;
            assert(l.in_flight.contains_key(list[i]));
        }
    }
    vstd::set_lib::lemma_len_subset(list.to_set(), l.in_flight.dom());
    lemma_expired_counts(l, list);
}

proof fn lemma_expired_counts(l: Ledger, ids: Seq<TxId>)
    requires
        ledger::core_wf(l, 0, Seq::empty()),
        ids.no_duplicates(),
        forall|i: int| 0 <= i < ids.len() ==> l.in_flight.contains_key(#[trigger] ids[i]),
        l.stats.dropped_expired + ids.len() <= u64::MAX,
    ensures
        ({
            let a = ledger::expired_all(l, ids);
            &&& a.stats == (ledger::Stats {
                dropped_expired: (l.stats.dropped_expired + ids.len()) as u64,
                ..l.stats
            })
            &&& a.in_flight.dom().len() == l.in_flight.dom().len() - ids.len()
        }),
    decreases ids.len(),
{
    if ids.len() > 0 {
        let head = ids.drop_last();
        let x = ids.last();
        assert forall|i: int| 0 <= i < head.len() implies l.in_flight.contains_key(
            #[trigger] head[i],
        ) by {
            assert(head[i] == ids[i]);
        }
        lemma_expired_counts(l, head);
        tracker_laws::lemma_expired_all(l, head);
        let b = ledger::expired_all(l, head);
        assert(l.in_flight.contains_key(ids[ids.len() - 1]));
        assert(!head.contains(x));
        assert(b.in_flight.contains_key(x));
        assert(b.in_flight.remove(x).dom() =~= b.in_flight.dom().remove(x));
        assert(b.in_flight.dom().contains(x));
    }
}

/// A registration counts itself in flight, and the one it sheds as evicted; an id that was
/// written off is expired no more.
pub proof fn law_a_registration_counts_itself(l: Ledger, id: TxId, s: Submission)
    requires
        ledger::ledger_wf(l),
        l.stats.dropped_evicted < u64::MAX,
        !l.in_flight.contains_key(id),
        !l.confirmed_at.contains_key(id),
    ensures
        ({
            let n = ledger::registered(l, id, s);
            let full = l.in_flight.dom().len() == MAX_IN_FLIGHT;
            n.stats == (ledger::Stats {
                in_flight: if full {
                    l.stats.in_flight
                } else {
                    (l.stats.in_flight + 1) as u64
                },
                dropped_evicted: if full {
                    (l.stats.dropped_evicted + 1) as u64
                } else {
                    l.stats.dropped_evicted
                },
                dropped_expired: if l.dropped.contains_key(id) {
                    (l.stats.dropped_expired - 1) as u64
                } else {
                    l.stats.dropped_expired
                },
                ..l.stats
            })
        }),
{
    ledger::lemma_cleared(l, id);
    let fresh = ledger::cleared(l, id);
    if l.dropped.contains_key(id) {
        tracker_laws::lemma_some_key(l.dropped, id);
    }
    let room = if ledger::must_shed(l, id) {
        ledger::lemma_without_oldest(fresh);
        ledger::without_oldest(fresh)
    } else {
        fresh
    };
    assert(room.in_flight.insert(id, s).dom() =~= room.in_flight.dom().insert(id));
}

/// The latency samples once those of some confirmations were recorded, in order.
pub open spec fn with_latencies(
    h: Map<TipBucket, Seq<u64>>,
    events: Seq<TrackerEvent>,
) -> Map<TipBucket, Seq<u64>>
    decreases events.len(),
{
    if events.len() == 0 {
        h
    } else {
        let before = with_latencies(h, events.drop_last());
        match events.last() {
            TrackerEvent::Confirmed(c) => histogram::with_sample(
                before,
                c.submission.bucket,
                c.latency_ms,
            ),
            _ => before,
        }
    }
}

/// The latency samples once those of some confirmations were withdrawn, the last first.
pub open spec fn without_latencies(
    h: Map<TipBucket, Seq<u64>>,
    records: Seq<ConfirmedRecord>,
) -> Map<TipBucket, Seq<u64>>
    decreases records.len(),
{
    if records.len() == 0 {
        h
    } else {
        without_latencies(
            histogram::without_sample(
                h,
                records.last().submission.bucket,
                records.last().latency_ms,
            ),
            records.drop_last(),
        )
    }
}

/// The confirmations recorded at a height and above, in order.
pub open spec fn records_above(heights: Seq<HeightView>, from: u64) -> Seq<ConfirmedRecord>
    decreases heights.len(),
{
    if heights.len() == 0 || heights.last().height < from {
        Seq::empty()
    } else {
        records_above(heights.drop_last(), from) + heights.last().records
    }
}

proof fn lemma_without_latencies_add(
    h: Map<TipBucket, Seq<u64>>,
    a: Seq<ConfirmedRecord>,
    b: Seq<ConfirmedRecord>,
)
    ensures
        without_latencies(h, a + b) == without_latencies(without_latencies(h, b), a),
    decreases b.len(),
{
    if b.len() == 0 {
        assert(a + b =~= a);
    } else {
        assert((a + b).drop_last() =~= a + b.drop_last());
        lemma_without_latencies_add(
            histogram::without_sample(h, b.last().submission.bucket, b.last().latency_ms),
            a,
            b.drop_last(),
        );
    }
}

proof fn lemma_unmined_latencies(l: Ledger, records: Seq<ConfirmedRecord>)
    ensures
        ledger::unmined_all(l, records).hist == without_latencies(l.hist, records),
    decreases records.len(),
{
    if records.len() > 0 {
        lemma_unmined_latencies(ledger::unmined_one(l, records.last()), records.drop_last());
    }
}

proof fn lemma_rollback_latencies(l: Ledger, from: u64)
    ensures
        ledger::rolled_back(l, from).hist == without_latencies(
            l.hist,
            records_above(l.heights, from),
        ),
    decreases l.heights.len(),
{
    if l.heights.len() > 0 && l.heights.last().height >= from {
        let e = l.heights.last();
        let base = Ledger { heights: l.heights.drop_last(), ..l };
        lemma_unmined_latencies(base, e.records);
        let n = ledger::unmined_all(base, e.records);
        lemma_rollback_latencies(Ledger { heights: l.heights.drop_last(), ..n }, from);
        lemma_without_latencies_add(
            l.hist,
            records_above(l.heights.drop_last(), from),
            e.records,
        );
    }
}

proof fn lemma_matched_latencies(
    l: Ledger,
    txids: Seq<TxId>,
    height: u64,
    block: BlockId,
    now_ms: u64,
)
    ensures
        ledger::matched(l, txids, height, now_ms).hist == with_latencies(
            l.hist,
            ledger::matched_events(l, txids, height, block, now_ms),
        ),
        ({
            let events = ledger::matched_events(l, txids, height, block, now_ms);
            let records = ledger::matched_records(l, txids, height, now_ms);
            &&& events.len() == records.len()
            &&& forall|i: int|
                0 <= i < events.len() ==> records_event(#[trigger] records[i], events[i])
        }),
    decreases txids.len(),
{
    if txids.len() > 0 {
        let head = txids.drop_last();
        lemma_matched_latencies(l, head, height, block, now_ms);
        let b = ledger::matched(l, head, height, now_ms);
        let before = ledger::matched_events(l, head, height, block, now_ms);
        let events = ledger::matched_events(l, txids, height, block, now_ms);
        let old_records = ledger::matched_records(l, head, height, now_ms);
        let records = ledger::matched_records(l, txids, height, now_ms);
        if ledger::matchable(b, txids.last()) {
            assert(events.drop_last() =~= before);
            assert forall|i: int| 0 <= i < events.len() implies records_event(
                #[trigger] records[i],
                events[i],
            ) by {
                if i < before.len() {
                    assert(records[i] == old_records[i] && events[i] == before[i]);
                }
            }
        }
    }
}

/// The retained record is of this confirmation: its transaction, submission and latency.
pub open spec fn records_event(rec: ConfirmedRecord, e: TrackerEvent) -> bool {
    match e {
        TrackerEvent::Confirmed(c) => {
            &&& rec.txid == c.txid
            &&& rec.submission == c.submission
            &&& rec.latency_ms == c.latency_ms
        },
        _ => false,
    }
}

proof fn lemma_with_latencies_add(
    h: Map<TipBucket, Seq<u64>>,
    a: Seq<TrackerEvent>,
    b: Seq<TrackerEvent>,
)
    ensures
        with_latencies(h, a + b) == with_latencies(with_latencies(h, a), b),
    decreases b.len(),
{
    if b.len() == 0 {
        assert(a + b =~= a);
    } else {
        assert((a + b).drop_last() =~= a + b.drop_last());
        lemma_with_latencies_add(h, a, b.drop_last());
    }
}

proof fn lemma_no_latencies(h: Map<TipBucket, Seq<u64>>, events: Seq<TrackerEvent>)
    requires
        forall|i: int| 0 <= i < events.len() ==> !((#[trigger] events[i]) is Confirmed),
    ensures
        with_latencies(h, events) == h,
    decreases events.len(),
{
    if events.len() > 0 {
        let d = events.drop_last();
        assert forall|i: int| 0 <= i < d.len() implies !((#[trigger] d[i]) is Confirmed) by {
            assert(d[i] == events[i]);
        }
        lemma_no_latencies(h, d);
        assert(!(events[events.len() - 1] is Confirmed));
    }
}

proof fn lemma_shed_latencies(l: Ledger)
    ensures
        ledger::shed(l).hist == l.hist,
        ledger::pruned(l).hist == l.hist,
    decreases l.order.len(), l.heights.len(),
{
    if l.in_flight.dom().len() > MAX_IN_FLIGHT && l.order.contains(ledger::oldest(l)) {
        lemma_order_shrinks(l.order, ledger::oldest(l));
        lemma_shed_latencies(ledger::without_oldest(l));
    }
    lemma_pruned_latencies(l);
}

proof fn lemma_pruned_latencies(l: Ledger)
    ensures
        ledger::pruned(l).hist == l.hist,
    decreases l.heights.len(),
{
    if l.heights.len() > 0 && (l.heights.len() > MAX_TRACKED_HEIGHTS || l.confirmed_at.dom().len()
        > MAX_CONFIRMED_TRACKED) {
        lemma_pruned_latencies(
            Ledger {
                heights: l.heights.drop_first(),
                confirmed_at: ledger::forgotten(l.confirmed_at, l.heights[0].records),
                ..l
            },
        );
    }
}

/// The latency distributions are of the confirmations that stand: an observation withdraws
/// the sample of every confirmation that it takes back, and records that of every one it
/// reports, each in the bucket its submission named.
pub proof fn law_latencies_are_of_the_confirmations(
    l: Ledger,
    height: u64,
    block: BlockId,
    txids: Seq<TxId>,
    now_ms: u64,
)
    requires
        ledger::ledger_wf(l),
        !ledger::knows_block(l, height, block),
    ensures
        ledger::observed(l, height, block, txids, now_ms).hist == with_latencies(
            if ledger::knows_height(l, height) {
                without_latencies(l.hist, records_above(l.heights, height))
            } else {
                l.hist
            },
            ledger::observed_events(l, height, block, txids, now_ms),
        ),
        ({
            let base = ledger::settled(l, height);
            let events = ledger::matched_events(base, txids, height, block, now_ms);
            let records = ledger::matched_records(base, txids, height, now_ms);
            &&& records.len() == events.len()
            &&& forall|i: int|
                0 <= i < events.len() ==> records_event(#[trigger] records[i], events[i])
        }),
{
    let base = ledger::settled(l, height);
    lemma_rollback_latencies(l, height);
    lemma_matched_latencies(base, txids, height, block, now_ms);
    let lost = if ledger::knows_height(l, height) {
        ledger::rollback_events(l.heights, height)
    } else {
        Seq::empty()
    };
    let found = ledger::matched_events(base, txids, height, block, now_ms);
    let m = ledger::matched(base, txids, height, now_ms);
    let e = HeightView { height, block, records: ledger::matched_records(base, txids, height, now_ms) };
    lemma_shed_latencies(Ledger { heights: ledger::with_height(m.heights, e), ..m });
    let r = ledger::recorded(l, height, block, txids, now_ms);
    lemma_shed_latencies(r);
    let gone = ledger::shed_events(r, now_ms);
    lemma_shed_drops(r, now_ms);
    tracker_laws::law_rollback_reports_each_loss(l.heights, height);
    let start = if ledger::knows_height(l, height) {
        without_latencies(l.hist, records_above(l.heights, height))
    } else {
        l.hist
    };
    lemma_with_latencies_add(start, lost + found, gone);
    lemma_with_latencies_add(start, lost, found);
    lemma_no_latencies(start, lost);
    lemma_no_latencies(with_latencies(start, lost + found), gone);
}

} // verus!
