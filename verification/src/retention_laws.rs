//! What the confirmation tracker keeps and what it gives up: heights and confirmations while
//! there is room for them, the oldest of them first where there is none, and no more of the
//! transactions in flight than the cap asks for.

use crate::digest::BlockId;
use crate::digest::TxId;
use crate::ledger;
use crate::ledger::ConfirmedRecord;
use crate::ledger::DropReason;
use crate::ledger::Ledger;
use crate::ledger::Submission;
use crate::ledger::TrackerEvent;
use crate::ledger::MAX_CONFIRMED_TRACKED;
use crate::ledger::MAX_DROP_MEMORY;
use crate::ledger::MAX_IN_FLIGHT;
use crate::ledger::MAX_TRACKED_HEIGHTS;
use crate::tracker_laws;
use vstd::prelude::*;

verus! {

/// The event reports that this transaction was given up for want of room, at its true age.
pub open spec fn evicts(e: TrackerEvent, id: TxId, s: Submission, now_ms: u64) -> bool {
    match e {
        TrackerEvent::Dropped(d) => {
            &&& d.reason == DropReason::CapacityEvicted
            &&& d.txid == id
            &&& d.submission == s
            &&& s.submitted_ms <= now_ms ==> s.submitted_ms + d.age_ms == now_ms
            &&& s.submitted_ms >= now_ms ==> d.age_ms == 0
        },
        _ => false,
    }
}

/// Shedding gives up no more than the cap asks for: those in flight come down to the cap, and
/// not below it; there is one report for each that went, under the submission it was held
/// with and at its age; and whatever was reported is no longer in flight, while whatever was
/// not still is.
pub proof fn law_shedding_stops_at_the_cap(l: Ledger, now_ms: u64)
    requires
        ledger::core_wf(l, 0, Seq::empty()),
        ledger::order_tight(l),
    ensures
        ({
            let n = ledger::shed(l);
            let events = ledger::shed_events(l, now_ms);
            &&& l.in_flight.dom().len() <= MAX_IN_FLIGHT ==> n == l && events.len() == 0
            &&& l.in_flight.dom().len() > MAX_IN_FLIGHT ==> n.in_flight.dom().len()
                == MAX_IN_FLIGHT
            &&& events.len() + n.in_flight.dom().len() == l.in_flight.dom().len()
            &&& forall|i: int|
                0 <= i < events.len() ==> {
                    let id = tracker_laws::txid_of(#[trigger] events[i]);
                    &&& l.in_flight.contains_key(id)
                    &&& !n.in_flight.contains_key(id)
                    &&& evicts(events[i], id, l.in_flight[id], now_ms)
                }
            &&& forall|id: TxId| #[trigger]
                n.in_flight.contains_key(id) ==> l.in_flight.contains_key(id) && n.in_flight[id]
                    == l.in_flight[id]
        }),
    decreases l.order.len(),
{
    let n = ledger::shed(l);
    let events = ledger::shed_events(l, now_ms);
    if l.in_flight.dom().len() > MAX_IN_FLIGHT {
        ledger::lemma_without_oldest(l);
        let v = ledger::oldest(l);
        let m = ledger::without_oldest(l);
        ledger::lemma_without_place(l.order, v);
        law_shedding_stops_at_the_cap(m, now_ms);
        let rest = ledger::shed_events(m, now_ms);
        let first = ledger::eviction(l, now_ms);
        assert(events == seq![first] + rest);
        assert(m.in_flight == l.in_flight.remove(v));
        if m.in_flight.dom().len() <= MAX_IN_FLIGHT {
            assert(n == m);
        }
        assert forall|i: int| 0 <= i < events.len() implies ({
            let id = tracker_laws::txid_of(#[trigger] events[i]);
            &&& l.in_flight.contains_key(id)
            &&& !n.in_flight.contains_key(id)
            &&& evicts(events[i], id, l.in_flight[id], now_ms)
        }) by {
            if i == 0 {
                assert(events[0] == first);
                if n.in_flight.contains_key(v) {
                    assert(m.in_flight.contains_key(v));
                }
            } else {
                assert(events[i] == rest[i - 1]);
            }
        }
    }
}

proof fn lemma_forgotten_fewer(m: Map<TxId, u64>, records: Seq<ConfirmedRecord>)
    requires
        m.dom().finite(),
    ensures
        ledger::forgotten(m, records).dom().finite(),
        ledger::forgotten(m, records).dom().len() <= m.dom().len(),
    decreases records.len(),
{
    if records.len() > 0 {
        let r = m.remove(records.last().txid);
        assert(r.dom() =~= m.dom().remove(records.last().txid));
        lemma_forgotten_fewer(r, records.drop_last());
    }
}

/// Forgetting takes the oldest heights and no more of them than the bounds ask for: nothing
/// where both hold, and where only the heights are too many, exactly those above the bound.
pub proof fn law_only_the_oldest_heights_are_forgotten(l: Ledger)
    requires
        l.confirmed_at.dom().finite(),
    ensures
        ({
            let n = ledger::pruned(l);
            let k = l.heights.len() - n.heights.len();
            &&& 0 <= k
            &&& n.heights == l.heights.skip(k)
            &&& l.heights.len() <= MAX_TRACKED_HEIGHTS && l.confirmed_at.dom().len()
                <= MAX_CONFIRMED_TRACKED ==> n == l
            &&& l.heights.len() > MAX_TRACKED_HEIGHTS && l.confirmed_at.dom().len()
                <= MAX_CONFIRMED_TRACKED ==> n.heights.len() == MAX_TRACKED_HEIGHTS
        }),
    decreases l.heights.len(),
{
    assert(l.heights.skip(0) =~= l.heights);
    if l.heights.len() > 0 && (l.heights.len() > MAX_TRACKED_HEIGHTS || l.confirmed_at.dom().len()
        > MAX_CONFIRMED_TRACKED) {
        let m = Ledger {
            heights: l.heights.drop_first(),
            confirmed_at: ledger::forgotten(l.confirmed_at, l.heights[0].records),
            ..l
        };
        lemma_forgotten_fewer(l.confirmed_at, l.heights[0].records);
        law_only_the_oldest_heights_are_forgotten(m);
        let k = l.heights.len() - ledger::pruned(m).heights.len();
        assert(m.heights.skip(k - 1) =~= l.heights.skip(k));
    }
}

/// The drop memory forgets nothing while it has room, and its oldest entry where it has none.
pub proof fn law_the_oldest_drop_is_forgotten(l: Ledger, id: TxId, s: Submission)
    requires
        ledger::drops_ok(l.dropped, l.dropped_order),
        !l.dropped.contains_key(id),
    ensures
        ({
            let n = ledger::with_drop(l, id, s);
            &&& n.dropped_order.len() > 0
            &&& n.dropped_order.last() == id
            &&& n.dropped.contains_key(id)
            &&& n.dropped[id] == s
            &&& l.dropped.dom().len() < MAX_DROP_MEMORY ==> n.dropped == l.dropped.insert(id, s)
            &&& l.dropped.dom().len() == MAX_DROP_MEMORY ==> n.dropped == l.dropped.remove(
                l.dropped_order[0],
            ).insert(id, s)
            &&& n.in_flight == l.in_flight && n.order == l.order && n.heights == l.heights
            &&& n.confirmed_at == l.confirmed_at && n.hist == l.hist && n.stats == l.stats
        }),
{
    let queue = l.dropped_order.push(id);
    if queue.len() > MAX_DROP_MEMORY {
        let first = l.dropped_order[0];
        assert(queue[0] == first);
        assert(l.dropped_order.contains(first));
        assert(first != id);
        assert(l.dropped.insert(id, s).remove(first) =~= l.dropped.remove(first).insert(id, s));
    }
}

proof fn lemma_matched_adds(l: Ledger, txids: Seq<TxId>, height: u64, now_ms: u64)
    requires
        ledger::core_wf(l, height, Seq::empty()),
        ledger::height_free(l.heights, height),
    ensures
        ({
            let n = ledger::matched(l, txids, height, now_ms);
            &&& n.confirmed_at.dom().len() <= l.confirmed_at.dom().len() + txids.len()
            &&& forall|id: TxId| #[trigger]
                l.confirmed_at.contains_key(id) ==> n.confirmed_at.contains_key(id)
                    && n.confirmed_at[id] == l.confirmed_at[id]
        }),
    decreases txids.len(),
{
    if txids.len() > 0 {
        let head = txids.drop_last();
        let before = ledger::matched(l, head, height, now_ms);
        let n = ledger::matched(l, txids, height, now_ms);
        lemma_matched_adds(l, head, height, now_ms);
        tracker_laws::lemma_matched_wf(l, head, height, now_ms);
        let x = txids.last();
        if ledger::matchable(before, x) {
            assert(n.confirmed_at == before.confirmed_at.insert(x, height));
            assert(n.confirmed_at.dom() =~= before.confirmed_at.dom().insert(x));
            assert(!before.confirmed_at.contains_key(x));
        } else {
            assert(n == before);
        }
    }
}

/// While there is room, a new block takes nothing away: every height that was recorded stays
/// recorded, with its block and its confirmations, the new one stands among them, and every
/// confirmation is still known at its height.
pub proof fn law_nothing_is_forgotten_while_there_is_room(
    l: Ledger,
    height: u64,
    block: BlockId,
    txids: Seq<TxId>,
    now_ms: u64,
)
    requires
        ledger::ledger_wf(l),
        !ledger::knows_height(l, height),
        l.heights.len() < MAX_TRACKED_HEIGHTS,
        l.confirmed_at.dom().len() + txids.len() <= MAX_CONFIRMED_TRACKED,
    ensures
        ({
            let n = ledger::observed(l, height, block, txids, now_ms);
            &&& n.heights.len() == l.heights.len() + 1
            &&& forall|i: int| 0 <= i < l.heights.len() ==> n.heights.contains(#[trigger] l.heights[i])
            &&& exists|i: int|
                0 <= i < n.heights.len() && (#[trigger] n.heights[i]).height == height
                    && n.heights[i].block == block
            &&& forall|id: TxId| #[trigger]
                l.confirmed_at.contains_key(id) ==> n.confirmed_at.contains_key(id)
                    && n.confirmed_at[id] == l.confirmed_at[id]
        }),
{
    let n = ledger::observed(l, height, block, txids, now_ms);
    assert(ledger::height_free(l.heights, height));
    assert(!ledger::knows_block(l, height, block));
    ledger::lemma_no_pending(l, 0, height);
    let m = ledger::matched(l, txids, height, now_ms);
    let e = ledger::HeightView {
        height,
        block,
        records: ledger::matched_records(l, txids, height, now_ms),
    };
    tracker_laws::lemma_matched_wf(l, txids, height, now_ms);
    lemma_matched_adds(l, txids, height, now_ms);
    ledger::lemma_with_height(l.heights, m.confirmed_at, e);
    ledger::lemma_with_height_place(l.heights, e);
    let k = ledger::height_place(l.heights, e);
    let w = ledger::with_height(l.heights, e);
    tracker_laws::lemma_recorded_wf(l, height, block, txids, now_ms);
    let r = ledger::recorded(l, height, block, txids, now_ms);
    ledger::lemma_shed(r);
    assert(r.heights == w && r.confirmed_at == m.confirmed_at);
    assert(n.heights == w && n.confirmed_at == m.confirmed_at);
    assert forall|i: int| 0 <= i < l.heights.len() implies n.heights.contains(
        #[trigger] l.heights[i],
    ) by {
        if i < k {
            assert(w[i] == l.heights[i]);
        } else {
            assert(w[i + 1] == l.heights[i]);
        }
    }
    assert(w[k] == e);
}

/// The counters count one at a time and hold at their ends; a difference is what lies
/// between, and nothing where it would be negative.
pub proof fn law_counters_hold_at_their_ends(x: u64, y: u64)
    ensures
        x < u64::MAX ==> ledger::up(x) == x + 1,
        ledger::up(u64::MAX) == u64::MAX,
        x > 0 ==> ledger::down(x) == x - 1,
        ledger::down(0) == 0,
        y <= x ==> ledger::since(x, y) + y == x,
        x <= y ==> ledger::since(x, y) == 0,
{
}

} // verus!
