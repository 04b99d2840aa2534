//! Laws of the confirmation tracker, over the ledger that its operations are
//! specified by.

use crate::digest::BlockId;
use crate::digest::TxId;
use crate::histogram;
use crate::ledger;
use crate::ledger::ConfirmedRecord;
use crate::ledger::HeightView;
use crate::ledger::Ledger;
use crate::ledger::Submission;
use crate::ledger::TrackerEvent;
use crate::ledger::MAX_CONFIRMED_TRACKED;
use crate::ledger::MAX_DROP_MEMORY;
use crate::ledger::MAX_IN_FLIGHT;
use crate::ledger::MAX_TRACKED;
use crate::ledger::MAX_TRACKED_HEIGHTS;
use vstd::prelude::*;

verus! {

/// A call of the tracker.
pub enum Call {
    /// A submission was accepted.
    Register { txid: TxId, submission: Submission },
    /// A block was observed.
    Observe { height: u64, block: BlockId, txids: Seq<TxId>, now_ms: u64 },
    /// The overdue are written off.
    Expire { now_ms: u64, ttl_ms: u64 },
}

/// The ledger after a call.
pub open spec fn after_call(l: Ledger, c: Call) -> Ledger {
    match c {
        Call::Register { txid, submission } => ledger::registered(l, txid, submission),
        Call::Observe { height, block, txids, now_ms } => ledger::observed(
            l,
            height,
            block,
            txids,
            now_ms,
        ),
        Call::Expire { now_ms, ttl_ms } => ledger::swept(l, now_ms, ttl_ms),
    }
}

/// The events that a call reports.
pub open spec fn call_events(l: Ledger, c: Call) -> Seq<TrackerEvent> {
    match c {
        Call::Register { txid, submission } => if ledger::must_shed(l, txid) {
            seq![ledger::eviction(ledger::cleared(l, txid), submission.submitted_ms)]
        } else {
            Seq::empty()
        },
        Call::Observe { height, block, txids, now_ms } => ledger::observed_events(
            l,
            height,
            block,
            txids,
            now_ms,
        ),
        Call::Expire { now_ms, ttl_ms } => ledger::expired_events(
            l,
            ledger::sweep_list(l, now_ms, ttl_ms),
            now_ms,
        ),
    }
}

/// The ledger of a new tracker after some calls.
pub open spec fn after_calls(calls: Seq<Call>) -> Ledger
    decreases calls.len(),
{
    if calls.len() == 0 {
        ledger::empty_ledger()
    } else {
        after_call(after_calls(calls.drop_last()), calls.last())
    }
}

/// Everything that some calls of a new tracker reported, in order.
pub open spec fn log_of(calls: Seq<Call>) -> Seq<TrackerEvent>
    decreases calls.len(),
{
    if calls.len() == 0 {
        Seq::empty()
    } else {
        log_of(calls.drop_last()) + call_events(after_calls(calls.drop_last()), calls.last())
    }
}

/// The transaction an event is about.
pub open spec fn txid_of(e: TrackerEvent) -> TxId {
    match e {
        TrackerEvent::Confirmed(c) => c.txid,
        TrackerEvent::Unmined(u) => u.txid,
        TrackerEvent::Dropped(d) => d.txid,
    }
}

/// The latest event about a transaction.
pub open spec fn latest(log: Seq<TrackerEvent>, id: TxId) -> Option<TrackerEvent>
    decreases log.len(),
{
    if log.len() == 0 {
        None
    } else if txid_of(log.last()) == id {
        Some(log.last())
    } else {
        latest(log.drop_last(), id)
    }
}

/// The latest event about a transaction is its confirmation at a height.
pub open spec fn last_confirmed_at(log: Seq<TrackerEvent>, id: TxId, height: u64) -> bool {
    match latest(log, id) {
        Some(TrackerEvent::Confirmed(c)) => c.height == height,
        _ => false,
    }
}

/// Every structure stays inside its bound, whatever the history of calls.
pub proof fn law_memory_is_bounded(l: Ledger)
    requires
        ledger::ledger_wf(l),
    ensures
        l.in_flight.dom().len() <= MAX_IN_FLIGHT,
        l.order.len() == ledger::held(l),
        l.heights.len() <= MAX_TRACKED_HEIGHTS,
        l.confirmed_at.dom().len() <= MAX_CONFIRMED_TRACKED,
        l.dropped.dom().len() <= MAX_DROP_MEMORY,
        l.in_flight.dom().len() + l.confirmed_at.dom().len() + l.dropped.dom().len()
            <= MAX_TRACKED,
        l.hist.dom().len() <= histogram::MAX_TIP_BUCKETS,
        forall|b: u8| #[trigger]
            l.hist.contains_key(b) ==> 1 <= l.hist[b].len() <= histogram::MAX_SAMPLES_PER_BUCKET,
{
    ledger::lemma_order_len(l);
}

/// A transaction is in at most one place: in flight, confirmed or dropped.
pub proof fn law_one_place_each(l: Ledger, id: TxId)
    requires
        ledger::ledger_wf(l),
    ensures
        l.in_flight.contains_key(id) ==> !l.confirmed_at.contains_key(id)
            && !l.dropped.contains_key(id),
        l.confirmed_at.contains_key(id) ==> !l.dropped.contains_key(id),
{
}

/// Every operation keeps the tracker in order, and with it every bound.
pub proof fn law_every_operation_keeps_the_bounds(l: Ledger, c: Call)
    requires
        ledger::ledger_wf(l),
    ensures
        ledger::ledger_wf(after_call(l, c)),
{
    match c {
        Call::Register { txid, submission } => lemma_registered_wf(l, txid, submission),
        Call::Observe { height, block, txids, now_ms } => {
            if !ledger::knows_block(l, height, block) {
                lemma_recorded_wf(l, height, block, txids, now_ms);
                ledger::lemma_shed(ledger::recorded(l, height, block, txids, now_ms));
            }
        },
        Call::Expire { now_ms, ttl_ms } => {
            lemma_expired_all(l, ledger::sweep_list(l, now_ms, ttl_ms));
            lemma_expired_keeps_confirmed(l, ledger::sweep_list(l, now_ms, ttl_ms));
            let x = ledger::expired_all(l, ledger::sweep_list(l, now_ms, ttl_ms));
            ledger::lemma_compacted(ledger::counted(x));
            if x.in_flight.dom().len() > l.in_flight.dom().len() {
                assert(x.in_flight.dom().subset_of(l.in_flight.dom()));
                vstd::set_lib::lemma_len_subset(x.in_flight.dom(), l.in_flight.dom());
            }
        },
    }
}

proof fn lemma_registered_wf(l: Ledger, id: TxId, s: Submission)
    requires
        ledger::ledger_wf(l),
    ensures
        ledger::ledger_wf(ledger::registered(l, id, s)),
{
    if !ledger::followed(l, id) {
        ledger::lemma_cleared(l, id);
        let fresh = ledger::cleared(l, id);
        let room = if ledger::must_shed(l, id) {
            ledger::without_oldest(fresh)
        } else {
            fresh
        };
        if ledger::must_shed(l, id) {
            ledger::lemma_without_oldest(fresh);
            ledger::lemma_without_place(fresh.order, ledger::oldest(fresh));
        }
        assert(!room.order.contains(id));
        ledger::lemma_order_push(room.order, id);
        assert(room.in_flight.insert(id, s).dom() =~= room.in_flight.dom().insert(id));
        let n = ledger::registered(l, id, s);
        assert forall|x: TxId| #[trigger] n.order.contains(x) implies ledger::is_held(n, x) by {
            if x != id {
                assert(room.order.contains(x));
                assert(ledger::is_held(room, x));
            }
        }
    }
}

/// A registration is the newest: it stands last in the order that shedding and expiry
/// follow, also where the id was written off before, and those before it keep theirs.
pub proof fn law_a_registration_is_the_newest(l: Ledger, id: TxId, s: Submission)
    requires
        ledger::ledger_wf(l),
        !ledger::followed(l, id),
    ensures
        ({
            let n = ledger::registered(l, id, s);
            let others = ledger::without_place(l.order, id);
            &&& n.order == (if ledger::must_shed(l, id) {
                ledger::without_place(others, ledger::oldest(ledger::cleared(l, id)))
            } else {
                others
            }).push(id)
            &&& n.order.no_duplicates()
            &&& forall|x: TxId| #[trigger] n.order.contains(x) <==> ledger::is_held(n, x)
        }),
{
    lemma_registered_wf(l, id, s);
}

/// A reorg does not touch the registration order: what it returns to flight stands where
/// its registration put it, before everything that was registered later.
pub proof fn law_a_reorg_keeps_the_registration_order(l: Ledger, height: u64)
    ensures
        ledger::settled(l, height).order == l.order,
{
    lemma_rolled_back_order(l, height);
}

proof fn lemma_unmined_order(l: Ledger, records: Seq<ConfirmedRecord>)
    ensures
        ledger::unmined_all(l, records).order == l.order,
    decreases records.len(),
{
    if records.len() > 0 {
        lemma_unmined_order(ledger::unmined_one(l, records.last()), records.drop_last());
    }
}

proof fn lemma_rolled_back_order(l: Ledger, from: u64)
    ensures
        ledger::rolled_back(l, from).order == l.order,
    decreases l.heights.len(),
{
    if l.heights.len() > 0 && l.heights.last().height >= from {
        let base = Ledger { heights: l.heights.drop_last(), ..l };
        let records = l.heights.last().records;
        lemma_unmined_order(base, records);
        let n = ledger::unmined_all(base, records);
        lemma_rolled_back_order(Ledger { heights: l.heights.drop_last(), ..n }, from);
    }
}

/// What is shed is the oldest registration, and an expiry sweep reports the overdue in
/// registration order, each once.
pub proof fn law_drops_come_in_registration_order(l: Ledger, now_ms: u64, ttl_ms: u64)
    requires
        ledger::ledger_wf(l),
    ensures
        l.in_flight.dom().len() > 0 ==> {
            &&& l.in_flight.contains_key(ledger::oldest(l))
            &&& l.order.contains(ledger::oldest(l))
            &&& forall|k: int|
                0 <= k < l.order.index_of(ledger::oldest(l)) ==> !l.in_flight.contains_key(
                    #[trigger] l.order[k],
                )
        },
        ({
            let f = ledger::overdue(l.in_flight, now_ms, ttl_ms);
            let ids = l.order.filter(f);
            let events = ledger::expired_events(
                l,
                ledger::sweep_list(l, now_ms, ttl_ms),
                now_ms,
            );
            &&& events.len() == ids.len()
            &&& forall|i: int|
                0 <= i < ids.len() ==> (#[trigger] events[i]) is Dropped && txid_of(events[i])
                    == ids[i]
        }),
{
    if l.in_flight.dom().len() > 0 {
        ledger::lemma_without_oldest(l);
        let v = ledger::oldest(l);
        let at = l.order.index_of(v);
        assert(0 <= at < l.order.len() && l.order[at] == v);
        lemma_before_oldest(l.order, l.in_flight, at);
    }
    let f = ledger::overdue(l.in_flight, now_ms, ttl_ms);
    let ids = l.order.filter(f);
    ledger::lemma_order_filter(l.order, f);
    assert forall|i: int| 0 <= i < ids.len() implies l.in_flight.contains_key(#[trigger] ids[i]) by {
        assert(ids.contains(ids[i]));
    }
    lemma_expired_events(l, ids, now_ms);
}

/// Nothing that is in flight stands before the first that is.
proof fn lemma_before_oldest(order: Seq<TxId>, m: Map<TxId, Submission>, at: int)
    requires
        order.no_duplicates(),
        0 <= at < order.len(),
        m.contains_key(order[at]),
        order.filter(ledger::live(m))[0] == order[at],
    ensures
        forall|k: int| 0 <= k < at ==> !m.contains_key(#[trigger] order[k]),
{
    if exists|k: int| 0 <= k < at && m.contains_key(#[trigger] order[k]) {
        let k = choose|k: int| 0 <= k < at && m.contains_key(#[trigger] order[k]);
        let first = lemma_least_live(order, m, k);
        ledger::lemma_first_live(order, m, first);
        assert(order[first] == order[at]);
    }
}

proof fn lemma_least_live(order: Seq<TxId>, m: Map<TxId, Submission>, k: int) -> (first: int)
    requires
        0 <= k < order.len(),
        m.contains_key(order[k]),
    ensures
        0 <= first <= k,
        m.contains_key(order[first]),
        forall|j: int| 0 <= j < first ==> !m.contains_key(#[trigger] order[j]),
    decreases k,
{
    if exists|j: int| 0 <= j < k && m.contains_key(#[trigger] order[j]) {
        let j = choose|j: int| 0 <= j < k && m.contains_key(#[trigger] order[j]);
        lemma_least_live(order, m, j)
    } else {
        k
    }
}

pub proof fn lemma_expired_events(l: Ledger, ids: Seq<TxId>, now_ms: u64)
    requires
        ledger::core_wf(l, 0, Seq::empty()),
        ids.no_duplicates(),
        forall|i: int| 0 <= i < ids.len() ==> l.in_flight.contains_key(#[trigger] ids[i]),
    ensures
        ledger::expired_events(l, ids, now_ms).len() == ids.len(),
        forall|i: int|
            0 <= i < ids.len() ==> (#[trigger] ledger::expired_events(l, ids, now_ms)[i]) is Dropped
                && txid_of(ledger::expired_events(l, ids, now_ms)[i]) == ids[i],
    decreases ids.len(),
{
    if ids.len() > 0 {
        let head = ids.drop_last();
        assert forall|i: int| 0 <= i < head.len() implies l.in_flight.contains_key(
            #[trigger] head[i],
        ) by {
            assert(head[i] == ids[i]);
        }
        lemma_expired_events(l, head, now_ms);
        lemma_expired_all(l, head);
        let x = ids[ids.len() - 1];
        assert(l.in_flight.contains_key(x));
        assert(!head.contains(x));
    }
}

/// Registering an id a second time changes nothing and sheds nothing: the first
/// submission is the one that is measured.
pub proof fn law_registering_again_changes_nothing(
    l: Ledger,
    id: TxId,
    first: Submission,
    again: Submission,
)
    requires
        ledger::ledger_wf(l),
    ensures
        ledger::followed(ledger::registered(l, id, first), id),
        ledger::registered(ledger::registered(l, id, first), id, again) == ledger::registered(l, id, first),
        !ledger::must_shed(ledger::registered(l, id, first), id),
{
}

/// Once a block is recorded at its height, seeing it again changes nothing and
/// reports nothing.
pub proof fn law_reobserving_a_known_block_changes_nothing(
    l: Ledger,
    height: u64,
    block: BlockId,
    txids: Seq<TxId>,
    now_ms: u64,
)
    requires
        ledger::knows_block(l, height, block),
    ensures
        ledger::observed(l, height, block, txids, now_ms) == l,
        ledger::observed_events(l, height, block, txids, now_ms) == Seq::<TrackerEvent>::empty(),
{
}

/// The ledger keeps its invariant while the ids of a block are matched.
pub proof fn lemma_matched_wf(base: Ledger, txids: Seq<TxId>, height: u64, now_ms: u64)
    requires
        ledger::core_wf(base, height, Seq::empty()),
        ledger::height_free(base.heights, height),
    ensures
        ledger::core_wf(
            ledger::matched(base, txids, height, now_ms),
            height,
            ledger::matched_records(base, txids, height, now_ms),
        ),
        ledger::matched(base, txids, height, now_ms).heights == base.heights,
        ledger::matched_records(base, txids, height, now_ms).len() <= txids.len(),
        accounted(base) <= u64::MAX ==> accounted(ledger::matched(base, txids, height, now_ms))
            == accounted(base),
        ledger::matched(base, txids, height, now_ms).in_flight.dom().len() <= base.in_flight.dom().len(),
    decreases txids.len(),
{
    if txids.len() > 0 {
        let head = txids.drop_last();
        let before = ledger::matched(base, head, height, now_ms);
        lemma_matched_wf(base, head, height, now_ms);
        let id = txids.last();
        if ledger::matchable(before, id) {
            let recs = ledger::matched_records(base, head, height, now_ms);
            ledger::lemma_matched_one(before, id, height, now_ms, recs);
            if before.in_flight.contains_key(id) {
                assert(before.in_flight.remove(id).dom() =~= before.in_flight.dom().remove(id));
                assert(before.in_flight.dom().contains(id));
            } else {
                assert(before.dropped.dom().contains(id));
                assert(before.dropped.dom().len() > 0) by {
                    if before.dropped.dom().len() == 0 {
                        assert(before.dropped.dom() =~= Set::empty());
                    }
                }
            }
        }
    }
}

/// What the four classification counters add up to.
pub open spec fn accounted(l: Ledger) -> int {
    l.in_flight.dom().len() + l.stats.confirmed + l.stats.dropped_expired + l.stats.dropped_evicted
}

/// The ledger keeps its invariant while a block's confirmations are taken back,
/// each returns to flight as it was submitted, and nothing else in flight moves.
pub proof fn lemma_unmined_all(l: Ledger, h: u64, pending: Seq<ConfirmedRecord>)
    requires
        ledger::core_wf(l, h, pending),
    ensures
        ledger::core_wf(ledger::unmined_all(l, pending), h, Seq::empty()),
        ledger::unmined_all(l, pending).heights == l.heights,
        accounted(ledger::unmined_all(l, pending)) == accounted(l),
        forall|id: TxId| #[trigger]
            l.in_flight.contains_key(id) ==> ledger::unmined_all(l, pending).in_flight.contains_key(id)
                && ledger::unmined_all(l, pending).in_flight[id] == l.in_flight[id],
        forall|j: int|
            0 <= j < pending.len() ==> {
                &&& ledger::unmined_all(l, pending).in_flight.contains_key((#[trigger] pending[j]).txid)
                &&& ledger::unmined_all(l, pending).in_flight[pending[j].txid] == pending[j].submission
            },
    decreases pending.len(),
{
    if pending.len() > 0 {
        let rec = pending.last();
        let rest = pending.drop_last();
        let n = ledger::unmined_one(l, rec);
        ledger::lemma_unmined_one(l, h, pending);
        assert(n.in_flight.dom() =~= l.in_flight.dom().insert(rec.txid));
        assert(l.confirmed_at.dom().contains(rec.txid));
        assert(l.confirmed_at.dom().len() > 0) by {
            if l.confirmed_at.dom().len() == 0 {
                assert(l.confirmed_at.dom() =~= Set::empty());
            }
        }
        lemma_unmined_all(n, h, rest);
        let f = ledger::unmined_all(l, pending);
        assert(f == ledger::unmined_all(n, rest));
        assert(n.in_flight.contains_key(rec.txid));
        assert forall|j: int| 0 <= j < pending.len() implies {
            &&& f.in_flight.contains_key((#[trigger] pending[j]).txid)
            &&& f.in_flight[pending[j].txid] == pending[j].submission
        } by {
            if j < rest.len() {
                assert(rest[j] == pending[j]);
            } else {
                assert(pending[j] == rec);
            }
        }
        assert forall|id: TxId| #[trigger] l.in_flight.contains_key(id) implies f.in_flight.contains_key(
            id,
        ) && f.in_flight[id] == l.in_flight[id] by {
            assert(n.in_flight.contains_key(id));
        }
    } else {
        assert(pending =~= Seq::empty());
    }
}

/// A rollback keeps the ledger in order and puts every confirmation of the heights
/// it takes off back in flight with its original submission.
pub proof fn lemma_rolled_back(l: Ledger, from: u64)
    requires
        ledger::core_wf(l, 0, Seq::empty()),
    ensures
        ledger::core_wf(ledger::rolled_back(l, from), 0, Seq::empty()),
        accounted(ledger::rolled_back(l, from)) == accounted(l),
        forall|i: int|
            0 <= i < ledger::rolled_back(l, from).heights.len() ==> (
            #[trigger] ledger::rolled_back(l, from).heights[i]).height < from,
        forall|id: TxId| #[trigger]
            l.in_flight.contains_key(id) ==> ledger::rolled_back(l, from).in_flight.contains_key(id)
                && ledger::rolled_back(l, from).in_flight[id] == l.in_flight[id],
        forall|i: int, j: int|
            #![trigger l.heights[i].records[j]]
            0 <= i < l.heights.len() && l.heights[i].height >= from && 0 <= j
                < l.heights[i].records.len() ==> {
                &&& ledger::rolled_back(l, from).in_flight.contains_key(l.heights[i].records[j].txid)
                &&& ledger::rolled_back(l, from).in_flight[l.heights[i].records[j].txid]
                    == l.heights[i].records[j].submission
            },
    decreases l.heights.len(),
{
    let f = ledger::rolled_back(l, from);
    if l.heights.len() == 0 || l.heights.last().height < from {
        assert forall|i: int| 0 <= i < l.heights.len() implies (#[trigger] l.heights[i]).height
            < from by {
            let last = l.heights.len() - 1;
            if i < last {
                assert(l.heights[i].height < l.heights[last].height);
            }
        }
    } else {
        let e = l.heights.last();
        let base = Ledger { heights: l.heights.drop_last(), ..l };
        ledger::lemma_take_last(l.heights, l.confirmed_at);
        lemma_unmined_all(base, e.height, e.records);
        let n = ledger::unmined_all(base, e.records);
        ledger::lemma_no_pending(n, e.height, 0);
        assert((Ledger { heights: l.heights.drop_last(), ..n }) =~= n);
        lemma_rolled_back(n, from);
        assert(f == ledger::rolled_back(n, from));
        assert forall|id: TxId| #[trigger] l.in_flight.contains_key(id) implies f.in_flight.contains_key(
            id,
        ) && f.in_flight[id] == l.in_flight[id] by {
            assert(base.in_flight.contains_key(id));
            assert(n.in_flight.contains_key(id));
        }
        assert forall|i: int, j: int|
            #![trigger l.heights[i].records[j]]
            0 <= i < l.heights.len() && l.heights[i].height >= from && 0 <= j
                < l.heights[i].records.len() implies {
            &&& f.in_flight.contains_key(l.heights[i].records[j].txid)
            &&& f.in_flight[l.heights[i].records[j].txid] == l.heights[i].records[j].submission
        } by {
            let rec = l.heights[i].records[j];
            if i == l.heights.len() - 1 {
                assert(e.records[j] == rec);
                assert(n.in_flight.contains_key(rec.txid));
            } else {
                assert(n.heights[i].records[j] == rec);
            }
        }
    }
}

/// A reorg takes back every confirmation at and above the replaced height: each
/// is in flight again with its original submission, no such height stays recorded,
/// and what was in flight stays as it was.
pub proof fn law_reorg_returns_txs_to_flight(l: Ledger, height: u64, i: int, j: int)
    requires
        ledger::ledger_wf(l),
        ledger::knows_height(l, height),
        0 <= i < l.heights.len(),
        l.heights[i].height >= height,
        0 <= j < l.heights[i].records.len(),
    ensures
        ({
            let rec = l.heights[i].records[j];
            let n = ledger::settled(l, height);
            &&& n.in_flight.contains_key(rec.txid)
            &&& n.in_flight[rec.txid] == rec.submission
            &&& !n.confirmed_at.contains_key(rec.txid)
            &&& ledger::height_free(n.heights, l.heights[i].height)
        }),
{
    lemma_rolled_back(l, height);
    let rec = l.heights[i].records[j];
    let n = ledger::rolled_back(l, height);
    assert(n.in_flight.contains_key(rec.txid));
}

/// A reorg leaves what was in flight as it was.
pub proof fn law_reorg_keeps_what_was_in_flight(l: Ledger, height: u64, id: TxId)
    requires
        ledger::ledger_wf(l),
        l.in_flight.contains_key(id),
    ensures
        ledger::settled(l, height).in_flight.contains_key(id),
        ledger::settled(l, height).in_flight[id] == l.in_flight[id],
{
    lemma_rolled_back(l, height);
}

/// A reorg reports exactly the confirmations of the heights it takes off, tip
/// first: the event count is the number of their records.
pub open spec fn records_from(heights: Seq<HeightView>, from: u64) -> nat
    decreases heights.len(),
{
    if heights.len() == 0 || heights.last().height < from {
        0
    } else {
        heights.last().records.len() + records_from(heights.drop_last(), from)
    }
}

proof fn lemma_unmined_events_len(e: HeightView, records: Seq<ConfirmedRecord>)
    ensures
        ledger::unmined_events(e, records).len() == records.len(),
        forall|i: int|
            0 <= i < records.len() ==> (#[trigger] ledger::unmined_events(e, records)[i]) is Unmined,
    decreases records.len(),
{
    if records.len() > 0 {
        lemma_unmined_events_len(e, records.drop_last());
    }
}

/// A rollback reports one un-mining per confirmation it takes back, and nothing
/// else.
pub proof fn law_rollback_reports_each_loss(heights: Seq<HeightView>, from: u64)
    ensures
        ledger::rollback_events(heights, from).len() == records_from(heights, from),
        forall|i: int|
            0 <= i < ledger::rollback_events(heights, from).len() ==> (#[trigger] ledger::rollback_events(
                heights,
                from,
            )[i]) is Unmined,
    decreases heights.len(),
{
    if heights.len() > 0 && heights.last().height >= from {
        law_rollback_reports_each_loss(heights.drop_last(), from);
        lemma_unmined_events_len(heights.last(), heights.last().records);
    }
}

/// Extending the chain never un-mines anything: a block at a height that was not
/// recorded only confirms, and nothing has to be shed for it.
pub proof fn law_extending_never_unmines(
    l: Ledger,
    height: u64,
    block: BlockId,
    txids: Seq<TxId>,
    now_ms: u64,
)
    requires
        ledger::ledger_wf(l),
        !ledger::knows_height(l, height),
    ensures
        forall|i: int|
            0 <= i < ledger::observed_events(l, height, block, txids, now_ms).len() ==> (
            #[trigger] ledger::observed_events(l, height, block, txids, now_ms)[i]) is Confirmed,
{
    assert(!ledger::knows_block(l, height, block));
    lemma_matches_confirm(l, txids, height, block, now_ms);
    assert(ledger::height_free(l.heights, height));
    ledger::lemma_no_pending(l, 0, height);
    lemma_matched_wf(l, txids, height, now_ms);
    let m = ledger::matched(l, txids, height, now_ms);
    let e = HeightView { height, block, records: ledger::matched_records(l, txids, height, now_ms) };
    lemma_pruned_counts(Ledger { heights: ledger::with_height(m.heights, e), ..m });
    let none = Seq::<TrackerEvent>::empty();
    assert(none + ledger::matched_events(l, txids, height, block, now_ms) + none
        =~= ledger::matched_events(l, txids, height, block, now_ms));
}

proof fn lemma_matches_confirm(
    l: Ledger,
    txids: Seq<TxId>,
    height: u64,
    block: BlockId,
    now_ms: u64,
)
    ensures
        forall|i: int|
            0 <= i < ledger::matched_events(l, txids, height, block, now_ms).len() ==> (
            #[trigger] ledger::matched_events(l, txids, height, block, now_ms)[i]) is Confirmed,
    decreases txids.len(),
{
    if txids.len() > 0 {
        lemma_matches_confirm(l, txids.drop_last(), height, block, now_ms);
    }
}

/// An expiry sweep leaves nothing overdue in flight and takes nothing else.
pub proof fn law_sweep_drops_exactly_the_overdue(l: Ledger, now_ms: u64, ttl_ms: u64, id: TxId)
    requires
        ledger::ledger_wf(l),
    ensures
        ledger::swept(l, now_ms, ttl_ms).in_flight.contains_key(id) <==> l.in_flight.contains_key(id)
            && ledger::since(now_ms, l.in_flight[id].submitted_ms) < ttl_ms,
        ledger::swept(l, now_ms, ttl_ms).in_flight.contains_key(id) ==> ledger::swept(
            l,
            now_ms,
            ttl_ms,
        ).in_flight[id] == l.in_flight[id],
{
    let list = ledger::sweep_list(l, now_ms, ttl_ms);
    let f = ledger::overdue(l.in_flight, now_ms, ttl_ms);
    lemma_expired_all(l, list);
    if f(id) {
        assert(l.order.contains(id));
        let i = choose|i: int| 0 <= i < l.order.len() && l.order[i] == id;
        l.order.lemma_filter_contains(f, i);
        assert(list.contains(id));
    }
    if list.contains(id) {
        let i = choose|i: int| 0 <= i < list.len() && list[i] == id;
        l.order.lemma_filter_pred(f, i);
        assert(f(id));
    }
}

/// Writing off a list takes exactly its ids out of flight and keeps the ledger in
/// order.
pub proof fn lemma_expired_all(l: Ledger, ids: Seq<TxId>)
    requires
        ledger::core_wf(l, 0, Seq::empty()),
    ensures
        ledger::core_wf(ledger::expired_all(l, ids), 0, Seq::empty()),
        accounted(l) <= u64::MAX ==> accounted(ledger::expired_all(l, ids)) == accounted(l),
        forall|id: TxId| #[trigger]
            ledger::expired_all(l, ids).in_flight.contains_key(id) <==> l.in_flight.contains_key(id)
                && !ids.contains(id),
        forall|id: TxId| #[trigger]
            ledger::expired_all(l, ids).in_flight.contains_key(id) ==> ledger::expired_all(l, ids).in_flight[id]
                == l.in_flight[id],
    decreases ids.len(),
{
    if ids.len() > 0 {
        let head = ids.drop_last();
        let x = ids.last();
        lemma_expired_all(l, head);
        let b = ledger::expired_all(l, head);
        let n = ledger::expired_all(l, ids);
        if b.in_flight.contains_key(x) {
            ledger::lemma_expired_one(b, x);
            assert(n.in_flight.dom() =~= b.in_flight.dom().remove(x));
            assert(b.in_flight.dom().contains(x));
        }
        assert forall|id: TxId| #[trigger] n.in_flight.contains_key(id) <==> l.in_flight.contains_key(
            id,
        ) && !ids.contains(id) by {
            assert(b.in_flight.contains_key(id) <==> l.in_flight.contains_key(id)
                && !head.contains(id));
            if ids.contains(id) {
                let i = choose|i: int| 0 <= i < ids.len() && ids[i] == id;
                if i < head.len() {
                    assert(head[i] == id);
                }
            }
            if head.contains(id) {
                let i = choose|i: int| 0 <= i < head.len() && head[i] == id;
                assert(ids[i] == id);
            }
            assert(ids[ids.len() - 1] == x);
        }
        assert forall|id: TxId| #[trigger] n.in_flight.contains_key(id) implies n.in_flight[id]
            == l.in_flight[id] by {
            assert(b.in_flight.contains_key(id));
        }
    }
}

/// A TTL of zero writes off everything in flight.
pub proof fn law_zero_ttl_drops_everything(l: Ledger, now_ms: u64)
    requires
        ledger::ledger_wf(l),
    ensures
        ledger::swept(l, now_ms, 0).in_flight == Map::<TxId, Submission>::empty(),
{
    assert forall|id: TxId| !ledger::swept(l, now_ms, 0).in_flight.contains_key(id) by {
        law_sweep_drops_exactly_the_overdue(l, now_ms, 0, id);
    }
    assert(ledger::swept(l, now_ms, 0).in_flight =~= Map::<TxId, Submission>::empty());
}

/// Sweeping twice at the same instant drops nothing the second time.
pub proof fn law_second_sweep_finds_nothing(l: Ledger, now_ms: u64, ttl_ms: u64)
    requires
        ledger::ledger_wf(l),
    ensures
        ledger::sweep_list(ledger::swept(l, now_ms, ttl_ms), now_ms, ttl_ms) == Seq::<TxId>::empty(),
{
    let n = ledger::swept(l, now_ms, ttl_ms);
    let f = ledger::overdue(n.in_flight, now_ms, ttl_ms);
    let list = ledger::sweep_list(n, now_ms, ttl_ms);
    if list.len() > 0 {
        n.order.lemma_filter_pred(f, 0);
        law_sweep_drops_exactly_the_overdue(l, now_ms, ttl_ms, list[0]);
    }
    assert(list =~= Seq::<TxId>::empty());
}

/// Pruning forgets heights and their index entries and nothing else.
pub proof fn lemma_pruned_counts(l: Ledger)
    ensures
        ledger::pruned(l).in_flight == l.in_flight,
        ledger::pruned(l).stats == l.stats,
    decreases l.heights.len(),
{
    if l.heights.len() > 0 && (l.heights.len() > MAX_TRACKED_HEIGHTS || l.confirmed_at.dom().len()
        > MAX_CONFIRMED_TRACKED) {
        lemma_pruned_counts(
            Ledger {
                heights: l.heights.drop_first(),
                confirmed_at: ledger::forgotten(l.confirmed_at, l.heights[0].records),
                ..l
            },
        );
    }
}

/// The monotonic tallies of `n` are at least those of `l`.
pub open spec fn tallies_grow(l: Ledger, n: Ledger) -> bool {
    &&& l.stats.unmined_total <= n.stats.unmined_total
    &&& l.stats.late_total <= n.stats.late_total
    &&& l.stats.unbucketed_samples <= n.stats.unbucketed_samples
    &&& l.stats.evicted_samples <= n.stats.evicted_samples
}

/// Every registration is accounted for, once: the classification counters always add up to
/// the same sum while blocks are observed and sweeps are made, and a registration adds
/// exactly one, except that an id already followed adds nothing and one that was written
/// off only changes its class. The tallies never go down. This holds until the sum reaches
/// the largest count.
pub proof fn law_every_registration_is_accounted_for(l: Ledger, c: Call)
    requires
        ledger::ledger_wf(l),
        accounted(l) <= u64::MAX,
    ensures
        accounted(after_call(l, c)) == accounted(l) + (match c {
            Call::Register { txid, .. } => if ledger::followed(l, txid) || l.dropped.contains_key(
                txid,
            ) {
                0int
            } else {
                1int
            },
            _ => 0int,
        }),
        tallies_grow(l, after_call(l, c)),
        after_call(l, c).stats.in_flight == after_call(l, c).in_flight.dom().len(),
{
    law_every_operation_keeps_the_bounds(l, c);
    match c {
        Call::Register { txid: id, submission: s } => {
            if !ledger::followed(l, id) {
                ledger::lemma_without_drop(l, id, 0, Seq::empty());
                ledger::lemma_cleared(l, id);
                let fresh = ledger::cleared(l, id);
                if l.dropped.contains_key(id) {
                    lemma_some_key(l.dropped, id);
                }
                let room = if ledger::must_shed(l, id) {
                    ledger::without_oldest(fresh)
                } else {
                    fresh
                };
                if ledger::must_shed(l, id) {
                    ledger::lemma_without_oldest(fresh);
                }
                assert(room.in_flight.insert(id, s).dom() =~= room.in_flight.dom().insert(id));
            }
        },
        Call::Observe { height, block, txids, now_ms } => {
            if !ledger::knows_block(l, height, block) {
                lemma_rolled_back(l, height);
                let base = ledger::settled(l, height);
                ledger::lemma_no_pending(base, 0, height);
                lemma_matched_wf(base, txids, height, now_ms);
                let m = ledger::matched(base, txids, height, now_ms);
                let e = HeightView {
                    height,
                    block,
                    records: ledger::matched_records(base, txids, height, now_ms),
                };
                lemma_pruned_counts(Ledger { heights: ledger::with_height(m.heights, e), ..m });
                lemma_recorded_wf(l, height, block, txids, now_ms);
                lemma_shed_counts(ledger::recorded(l, height, block, txids, now_ms));
                lemma_tallies_rolled_back(l, height);
                lemma_tallies_matched(base, txids, height, now_ms);
            }
        },
        Call::Expire { now_ms, ttl_ms } => {
            lemma_expired_all(l, ledger::sweep_list(l, now_ms, ttl_ms));
            lemma_tallies_expired(l, ledger::sweep_list(l, now_ms, ttl_ms));
        },
    }
}

pub proof fn lemma_some_key(m: Map<TxId, Submission>, id: TxId)
    requires
        m.contains_key(id),
        m.dom().finite(),
    ensures
        m.dom().len() > 0,
{
    assert(m.dom().contains(id));
    if m.dom().len() == 0 {
        assert(m.dom() =~= Set::empty());
    }
}

pub proof fn lemma_shed_counts(l: Ledger)
    requires
        ledger::core_wf(l, 0, Seq::empty()),
        ledger::order_tight(l),
    ensures
        accounted(l) <= u64::MAX ==> accounted(ledger::shed(l)) == accounted(l),
        tallies_grow(l, ledger::shed(l)),
    decreases l.order.len(),
{
    if l.in_flight.dom().len() > MAX_IN_FLIGHT {
        ledger::lemma_without_oldest(l);
        lemma_shed_counts(ledger::without_oldest(l));
    }
}

proof fn lemma_tallies_unmined(l: Ledger, records: Seq<ConfirmedRecord>)
    ensures
        tallies_grow(l, ledger::unmined_all(l, records)),
    decreases records.len(),
{
    if records.len() > 0 {
        lemma_tallies_unmined(ledger::unmined_one(l, records.last()), records.drop_last());
    }
}

proof fn lemma_tallies_rolled_back(l: Ledger, from: u64)
    ensures
        tallies_grow(l, ledger::rolled_back(l, from)),
    decreases l.heights.len(),
{
    if l.heights.len() > 0 && l.heights.last().height >= from {
        let base = Ledger { heights: l.heights.drop_last(), ..l };
        let records = l.heights.last().records;
        lemma_tallies_unmined(base, records);
        let n = ledger::unmined_all(base, records);
        lemma_tallies_rolled_back(Ledger { heights: l.heights.drop_last(), ..n }, from);
    }
}

proof fn lemma_tallies_matched(l: Ledger, txids: Seq<TxId>, height: u64, now_ms: u64)
    ensures
        tallies_grow(l, ledger::matched(l, txids, height, now_ms)),
    decreases txids.len(),
{
    if txids.len() > 0 {
        lemma_tallies_matched(l, txids.drop_last(), height, now_ms);
    }
}

proof fn lemma_tallies_expired(l: Ledger, ids: Seq<TxId>)
    ensures
        tallies_grow(l, ledger::expired_all(l, ids)),
    decreases ids.len(),
{
    if ids.len() > 0 {
        lemma_tallies_expired(l, ids.drop_last());
    }
}

/// A block above every recorded height is still recorded after the observation,
/// provided its own confirmations fit the retention bound, so that a later change
/// of its hash is recognised as a reorg.
pub proof fn law_a_new_tip_is_recorded(
    l: Ledger,
    height: u64,
    block: BlockId,
    txids: Seq<TxId>,
    now_ms: u64,
)
    requires
        ledger::ledger_wf(l),
        forall|i: int| 0 <= i < l.heights.len() ==> (#[trigger] l.heights[i]).height < height,
        txids.len() <= MAX_CONFIRMED_TRACKED,
    ensures
        ledger::knows_block(ledger::observed(l, height, block, txids, now_ms), height, block),
{
    assert(ledger::height_free(l.heights, height));
    assert(!ledger::knows_height(l, height));
    ledger::lemma_no_pending(l, 0, height);
    lemma_matched_wf(l, txids, height, now_ms);
    let m = ledger::matched(l, txids, height, now_ms);
    let e = HeightView { height, block, records: ledger::matched_records(l, txids, height, now_ms) };
    ledger::lemma_with_height(m.heights, m.confirmed_at, e);
    let w = Ledger { heights: ledger::with_height(m.heights, e), ..m };
    if m.heights.len() > 0 {
        assert(m.heights[m.heights.len() - 1].height < height);
    }
    assert(w.heights == m.heights.push(e));
    lemma_pruned_keeps_last(w);
    let p = ledger::pruned(w);
    assert(p.heights[p.heights.len() - 1] == e);
    lemma_recorded_wf(l, height, block, txids, now_ms);
    ledger::lemma_shed(ledger::recorded(l, height, block, txids, now_ms));
    assert(ledger::observed(l, height, block, txids, now_ms).heights == p.heights);
}

proof fn lemma_forgotten_index(
    heights: Seq<HeightView>,
    at: Map<TxId, u64>,
    h: u64,
    pending: Seq<ConfirmedRecord>,
)
    requires
        ledger::index_ok(heights, at, h, pending),
    ensures
        ledger::index_ok(heights, ledger::forgotten(at, pending), h, Seq::empty()),
    decreases pending.len(),
{
    if pending.len() > 0 {
        ledger::lemma_forget_one(heights, at, h, pending);
        lemma_forgotten_index(heights, at.remove(pending.last().txid), h, pending.drop_last());
    } else {
        assert(pending =~= Seq::empty());
    }
}

/// Pruning never forgets the topmost height while that height's own confirmations
/// fit the bound.
proof fn lemma_pruned_keeps_last(l: Ledger)
    requires
        ledger::index_ok(l.heights, l.confirmed_at, 0, Seq::empty()),
        l.heights.len() > 0,
        l.heights.last().records.len() <= MAX_CONFIRMED_TRACKED,
    ensures
        ledger::pruned(l).heights.len() > 0,
        ledger::pruned(l).heights.last() == l.heights.last(),
    decreases l.heights.len(),
{
    if l.heights.len() > MAX_TRACKED_HEIGHTS || l.confirmed_at.dom().len() > MAX_CONFIRMED_TRACKED {
        if l.heights.len() == 1 {
            let records = l.heights[0].records;
            let ids = records.map_values(|r: ConfirmedRecord| r.txid);
            assert(l.confirmed_at.dom().subset_of(ids.to_set())) by {
                assert forall|id: TxId| l.confirmed_at.dom().contains(id) implies ids.to_set().contains(
                    id,
                ) by {
                    assert(l.confirmed_at.contains_key(id));
                    let i = choose|i: int|
                        0 <= i < l.heights.len() && ledger::in_records((#[trigger] l.heights[i]).records, id);
                    assert(i == 0);
                    let j = choose|j: int| 0 <= j < records.len() && (#[trigger] records[j]).txid == id;
                    assert(ids[j] == id);
                }
            }
            ids.lemma_cardinality_of_set();
            vstd::set_lib::lemma_len_subset(l.confirmed_at.dom(), ids.to_set());
            assert(false);
        } else {
            let n = Ledger {
                heights: l.heights.drop_first(),
                confirmed_at: ledger::forgotten(l.confirmed_at, l.heights[0].records),
                ..l
            };
            ledger::lemma_take_first(l.heights, l.confirmed_at);
            lemma_forgotten_index(
                l.heights.drop_first(),
                l.confirmed_at,
                l.heights[0].height,
                l.heights[0].records,
            );
            lemma_pruned_keeps_last(n);
        }
    }
}

/// Forgetting a block's confirmations keeps the ledger in order.
proof fn lemma_forgotten_wf(l: Ledger, h: u64, pending: Seq<ConfirmedRecord>)
    requires
        ledger::core_wf(l, h, pending),
    ensures
        ledger::core_wf(
            Ledger { confirmed_at: ledger::forgotten(l.confirmed_at, pending), ..l },
            h,
            Seq::empty(),
        ),
        forall|id: TxId| #[trigger]
            ledger::forgotten(l.confirmed_at, pending).contains_key(id)
                ==> l.confirmed_at.contains_key(id) && l.confirmed_at[id] == ledger::forgotten(
                l.confirmed_at,
                pending,
            )[id],
    decreases pending.len(),
{
    if pending.len() > 0 {
        ledger::lemma_forget_one(l.heights, l.confirmed_at, h, pending);
        let m = l.confirmed_at.remove(pending.last().txid);
        assert(m.dom() =~= l.confirmed_at.dom().remove(pending.last().txid));
        let n = Ledger { confirmed_at: m, ..l };
        lemma_forgotten_wf(n, h, pending.drop_last());
        assert((Ledger { confirmed_at: ledger::forgotten(m, pending.drop_last()), ..n })
            =~= (Ledger { confirmed_at: ledger::forgotten(l.confirmed_at, pending), ..l }));
    } else {
        assert(pending =~= Seq::empty());
        assert((Ledger { confirmed_at: ledger::forgotten(l.confirmed_at, pending), ..l }) =~= l);
    }
}

/// Pruning keeps the ledger in order, brings both retention bounds about, and forgets
/// confirmations without changing any.
proof fn lemma_pruned_wf(l: Ledger)
    requires
        ledger::core_wf(l, 0, Seq::empty()),
    ensures
        ledger::core_wf(ledger::pruned(l), 0, Seq::empty()),
        ledger::pruned(l).heights.len() <= MAX_TRACKED_HEIGHTS,
        ledger::pruned(l).confirmed_at.dom().len() <= MAX_CONFIRMED_TRACKED,
        forall|id: TxId| #[trigger]
            ledger::pruned(l).confirmed_at.contains_key(id) ==> l.confirmed_at.contains_key(id)
                && l.confirmed_at[id] == ledger::pruned(l).confirmed_at[id],
    decreases l.heights.len(),
{
    if l.heights.len() == 0 {
        assert(l.confirmed_at.dom() =~= Set::empty()) by {
            assert forall|id: TxId| !l.confirmed_at.contains_key(id) by {}
        }
    } else if l.heights.len() > MAX_TRACKED_HEIGHTS || l.confirmed_at.dom().len()
        > MAX_CONFIRMED_TRACKED {
        let e = l.heights[0];
        let rest = Ledger { heights: l.heights.drop_first(), ..l };
        ledger::lemma_take_first(l.heights, l.confirmed_at);
        lemma_forgotten_wf(rest, e.height, e.records);
        let n = Ledger {
            heights: l.heights.drop_first(),
            confirmed_at: ledger::forgotten(l.confirmed_at, e.records),
            ..l
        };
        ledger::lemma_no_pending(n, e.height, 0);
        lemma_pruned_wf(n);
        assert forall|id: TxId| #[trigger]
            ledger::pruned(l).confirmed_at.contains_key(id) implies l.confirmed_at.contains_key(id)
            && l.confirmed_at[id] == ledger::pruned(l).confirmed_at[id] by {
            assert(n.confirmed_at.contains_key(id));
        }
    }
}

/// Recording a block keeps the ledger in order; only the cap may be exceeded.
pub proof fn lemma_recorded_wf(
    l: Ledger,
    height: u64,
    block: BlockId,
    txids: Seq<TxId>,
    now_ms: u64,
)
    requires
        ledger::ledger_wf(l),
        !ledger::knows_block(l, height, block),
    ensures
        ({
            let r = ledger::recorded(l, height, block, txids, now_ms);
            let m = ledger::matched(ledger::settled(l, height), txids, height, now_ms);
            &&& ledger::core_wf(r, 0, Seq::empty())
            &&& ledger::order_tight(r)
            &&& r.heights.len() <= MAX_TRACKED_HEIGHTS
            &&& r.confirmed_at.dom().len() <= MAX_CONFIRMED_TRACKED
            &&& forall|id: TxId| #[trigger]
                r.confirmed_at.contains_key(id) ==> m.confirmed_at.contains_key(id)
                    && m.confirmed_at[id] == r.confirmed_at[id]
        }),
{
    lemma_rolled_back(l, height);
    let base = ledger::settled(l, height);
    ledger::lemma_no_pending(base, 0, height);
    assert(ledger::height_free(base.heights, height));
    lemma_matched_wf(base, txids, height, now_ms);
    let m = ledger::matched(base, txids, height, now_ms);
    let e = HeightView { height, block, records: ledger::matched_records(base, txids, height, now_ms) };
    ledger::lemma_with_height(m.heights, m.confirmed_at, e);
    let w = Ledger { heights: ledger::with_height(m.heights, e), ..m };
    assert(ledger::core_wf(w, 0, Seq::empty()));
    lemma_pruned_wf(w);
    ledger::lemma_compacted(ledger::pruned(w));
}

/// Every retained confirmation is the latest that was reported of its transaction.
pub open spec fn agrees(l: Ledger, log: Seq<TrackerEvent>) -> bool {
    forall|id: TxId| #[trigger]
        l.confirmed_at.contains_key(id) ==> last_confirmed_at(log, id, l.confirmed_at[id])
}

/// What a confirmation index says of a transaction, told by the events since another.
spec fn told(at: Map<TxId, u64>, before: Map<TxId, u64>, events: Seq<TrackerEvent>) -> bool {
    forall|id: TxId| #[trigger]
        at.contains_key(id) ==> match latest(events, id) {
            Some(TrackerEvent::Confirmed(c)) => c.height == at[id],
            Some(_) => false,
            None => before.contains_key(id) && before[id] == at[id],
        }
}

proof fn lemma_latest_add(a: Seq<TrackerEvent>, b: Seq<TrackerEvent>, id: TxId)
    ensures
        latest(a + b, id) == if latest(b, id) is Some {
            latest(b, id)
        } else {
            latest(a, id)
        },
    decreases b.len(),
{
    if b.len() == 0 {
        assert(a + b =~= a);
    } else {
        assert((a + b).drop_last() =~= a + b.drop_last());
        assert((a + b).last() == b.last());
        lemma_latest_add(a, b.drop_last(), id);
    }
}

proof fn lemma_latest_none(b: Seq<TrackerEvent>, id: TxId)
    requires
        forall|i: int| 0 <= i < b.len() ==> txid_of(#[trigger] b[i]) != id,
    ensures
        latest(b, id) is None,
    decreases b.len(),
{
    if b.len() > 0 {
        assert(txid_of(b[b.len() - 1]) != id);
        let d = b.drop_last();
        assert forall|i: int| 0 <= i < d.len() implies txid_of(#[trigger] d[i]) != id by {
            assert(d[i] == b[i]);
        }
        lemma_latest_none(d, id);
    }
}

proof fn lemma_told_add(
    a: Map<TxId, u64>,
    b: Map<TxId, u64>,
    c: Map<TxId, u64>,
    first: Seq<TrackerEvent>,
    second: Seq<TrackerEvent>,
)
    requires
        told(b, a, first),
        told(c, b, second),
    ensures
        told(c, a, first + second),
{
    assert forall|id: TxId| #[trigger] c.contains_key(id) implies match latest(first + second, id) {
        Some(TrackerEvent::Confirmed(x)) => x.height == c[id],
        Some(_) => false,
        None => a.contains_key(id) && a[id] == c[id],
    } by {
        lemma_latest_add(first, second, id);
    }
}

/// Events about none of the indexed transactions change nothing of what is told.
proof fn lemma_told_strangers(at: Map<TxId, u64>, before: Map<TxId, u64>, events: Seq<TrackerEvent>)
    requires
        forall|id: TxId| #[trigger] at.contains_key(id) ==> before.contains_key(id) && before[id]
            == at[id],
        forall|i: int|
            0 <= i < events.len() ==> !at.contains_key(txid_of(#[trigger] events[i])),
    ensures
        told(at, before, events),
{
    assert forall|id: TxId| #[trigger] at.contains_key(id) implies latest(events, id) is None by {
        lemma_latest_none(events, id);
    }
}

proof fn lemma_told_unmined(l: Ledger, e: HeightView, records: Seq<ConfirmedRecord>)
    ensures
        forall|id: TxId| #[trigger]
            ledger::unmined_all(l, records).confirmed_at.contains_key(id)
                ==> l.confirmed_at.contains_key(id) && l.confirmed_at[id] == ledger::unmined_all(
                l,
                records,
            ).confirmed_at[id],
        forall|i: int|
            0 <= i < ledger::unmined_events(e, records).len() ==> !ledger::unmined_all(
                l,
                records,
            ).confirmed_at.contains_key(txid_of(#[trigger] ledger::unmined_events(e, records)[i])),
    decreases records.len(),
{
    if records.len() > 0 {
        let rec = records.last();
        let n = ledger::unmined_one(l, rec);
        let rest = records.drop_last();
        lemma_told_unmined(n, e, rest);
        assert(ledger::unmined_all(l, records) == ledger::unmined_all(n, rest));
        let events = ledger::unmined_events(e, records);
        let tail = ledger::unmined_events(e, rest);
        assert forall|i: int| 0 <= i < events.len() implies !ledger::unmined_all(
            l,
            records,
        ).confirmed_at.contains_key(txid_of(#[trigger] events[i])) by {
            if i == 0 {
                assert(txid_of(events[0]) == rec.txid);
                assert(!n.confirmed_at.contains_key(rec.txid));
            } else {
                assert(events[i] == tail[i - 1]);
            }
        }
        assert forall|id: TxId| #[trigger]
            ledger::unmined_all(l, records).confirmed_at.contains_key(
                id,
            ) implies l.confirmed_at.contains_key(id) && l.confirmed_at[id] == ledger::unmined_all(
            l,
            records,
        ).confirmed_at[id] by {
            assert(n.confirmed_at.contains_key(id));
        }
    }
}

proof fn lemma_told_rolled_back(l: Ledger, from: u64)
    ensures
        told(
            ledger::rolled_back(l, from).confirmed_at,
            l.confirmed_at,
            ledger::rollback_events(l.heights, from),
        ),
    decreases l.heights.len(),
{
    let none = Seq::<TrackerEvent>::empty();
    if l.heights.len() == 0 || l.heights.last().height < from {
        lemma_told_strangers(l.confirmed_at, l.confirmed_at, none);
    } else {
        let e = l.heights.last();
        let base = Ledger { heights: l.heights.drop_last(), ..l };
        let n = ledger::unmined_all(base, e.records);
        lemma_told_unmined(base, e, e.records);
        lemma_told_strangers(
            n.confirmed_at,
            l.confirmed_at,
            ledger::unmined_events(e, e.records),
        );
        let next = Ledger { heights: l.heights.drop_last(), ..n };
        lemma_told_rolled_back(next, from);
        lemma_told_add(
            l.confirmed_at,
            n.confirmed_at,
            ledger::rolled_back(l, from).confirmed_at,
            ledger::unmined_events(e, e.records),
            ledger::rollback_events(l.heights.drop_last(), from),
        );
    }
}

proof fn lemma_told_matched(
    l: Ledger,
    txids: Seq<TxId>,
    height: u64,
    block: BlockId,
    now_ms: u64,
)
    ensures
        told(
            ledger::matched(l, txids, height, now_ms).confirmed_at,
            l.confirmed_at,
            ledger::matched_events(l, txids, height, block, now_ms),
        ),
    decreases txids.len(),
{
    if txids.len() > 0 {
        let head = txids.drop_last();
        let id = txids.last();
        lemma_told_matched(l, head, height, block, now_ms);
        let before = ledger::matched(l, head, height, now_ms);
        let n = ledger::matched(l, txids, height, now_ms);
        let events = ledger::matched_events(l, txids, height, block, now_ms);
        if ledger::matchable(before, id) {
            assert(events.drop_last() =~= ledger::matched_events(l, head, height, block, now_ms));
            assert(txid_of(events.last()) == id);
            assert(n.confirmed_at == before.confirmed_at.insert(id, height));
            assert forall|x: TxId| #[trigger] n.confirmed_at.contains_key(x) implies match latest(
                events,
                x,
            ) {
                Some(TrackerEvent::Confirmed(c)) => c.height == n.confirmed_at[x],
                Some(_) => false,
                None => l.confirmed_at.contains_key(x) && l.confirmed_at[x] == n.confirmed_at[x],
            } by {
                if x != id {
                    assert(before.confirmed_at.contains_key(x));
                }
            }
        }
    }
}

/// What is shed was in flight, so it is confirmed nowhere.
proof fn lemma_shed_strangers(l: Ledger, now_ms: u64)
    requires
        ledger::core_wf(l, 0, Seq::empty()),
        ledger::order_tight(l),
    ensures
        forall|i: int|
            0 <= i < ledger::shed_events(l, now_ms).len() ==> !l.confirmed_at.contains_key(
                txid_of(#[trigger] ledger::shed_events(l, now_ms)[i]),
            ),
    decreases l.order.len(),
{
    if l.in_flight.dom().len() > MAX_IN_FLIGHT {
        ledger::lemma_without_oldest(l);
        let n = ledger::without_oldest(l);
        lemma_shed_strangers(n, now_ms);
        let events = ledger::shed_events(l, now_ms);
        let rest = ledger::shed_events(n, now_ms);
        assert forall|i: int| 0 <= i < events.len() implies !l.confirmed_at.contains_key(
            txid_of(#[trigger] events[i]),
        ) by {
            if i == 0 {
                assert(txid_of(events[0]) == ledger::oldest(l));
            } else {
                assert(events[i] == rest[i - 1]);
            }
        }
    }
}

/// One call tells truly what it changed of the confirmations.
proof fn lemma_told_call(l: Ledger, c: Call)
    requires
        ledger::ledger_wf(l),
    ensures
        told(after_call(l, c).confirmed_at, l.confirmed_at, call_events(l, c)),
{
    match c {
        Call::Register { txid, submission } => {
            if ledger::must_shed(l, txid) {
                ledger::lemma_cleared(l, txid);
                ledger::lemma_without_oldest(ledger::cleared(l, txid));
            }
            lemma_told_strangers(
                after_call(l, c).confirmed_at,
                l.confirmed_at,
                call_events(l, c),
            );
        },
        Call::Observe { height, block, txids, now_ms } => {
            if ledger::knows_block(l, height, block) {
                lemma_told_strangers(l.confirmed_at, l.confirmed_at, Seq::empty());
            } else {
                let base = ledger::settled(l, height);
                let lost = if ledger::knows_height(l, height) {
                    ledger::rollback_events(l.heights, height)
                } else {
                    Seq::empty()
                };
                if ledger::knows_height(l, height) {
                    lemma_told_rolled_back(l, height);
                } else {
                    lemma_told_strangers(l.confirmed_at, l.confirmed_at, lost);
                }
                let m = ledger::matched(base, txids, height, now_ms);
                let found = ledger::matched_events(base, txids, height, block, now_ms);
                lemma_told_matched(base, txids, height, block, now_ms);
                lemma_told_add(l.confirmed_at, base.confirmed_at, m.confirmed_at, lost, found);
                let r = ledger::recorded(l, height, block, txids, now_ms);
                lemma_recorded_wf(l, height, block, txids, now_ms);
                lemma_shed_strangers(r, now_ms);
                ledger::lemma_shed(r);
                let gone = ledger::shed_events(r, now_ms);
                lemma_told_strangers(r.confirmed_at, m.confirmed_at, gone);
                lemma_told_add(
                    l.confirmed_at,
                    m.confirmed_at,
                    r.confirmed_at,
                    lost + found,
                    gone,
                );
            }
        },
        Call::Expire { now_ms, ttl_ms } => {
            let ids = ledger::sweep_list(l, now_ms, ttl_ms);
            let events = ledger::expired_events(l, ids, now_ms);
            law_drops_come_in_registration_order(l, now_ms, ttl_ms);
            ledger::lemma_order_filter(l.order, ledger::overdue(l.in_flight, now_ms, ttl_ms));
            assert forall|i: int| 0 <= i < events.len() implies !l.confirmed_at.contains_key(
                txid_of(#[trigger] events[i]),
            ) by {
                assert(ids.contains(ids[i]));
            }
            lemma_expired_keeps_confirmed(l, ids);
            lemma_told_strangers(after_call(l, c).confirmed_at, l.confirmed_at, events);
        },
    }
}

proof fn lemma_expired_keeps_confirmed(l: Ledger, ids: Seq<TxId>)
    ensures
        ledger::expired_all(l, ids).confirmed_at == l.confirmed_at,
        ledger::expired_all(l, ids).heights == l.heights,
    decreases ids.len(),
{
    if ids.len() > 0 {
        lemma_expired_keeps_confirmed(l, ids.drop_last());
    }
}

/// The tracker never contradicts its own log: after any calls of a new tracker, a
/// transaction that it holds confirmed at a height was last reported as confirmed at that
/// very height, the height is one of those it keeps, and the transaction is not in flight.
pub proof fn law_a_confirmation_is_the_latest_report(calls: Seq<Call>, id: TxId)
    ensures
        ({
            let l = after_calls(calls);
            &&& ledger::ledger_wf(l)
            &&& l.confirmed_at.contains_key(id) ==> {
                &&& last_confirmed_at(log_of(calls), id, l.confirmed_at[id])
                &&& ledger::knows_height(l, l.confirmed_at[id])
                &&& !l.in_flight.contains_key(id)
            }
        }),
{
    lemma_agrees(calls);
    let l = after_calls(calls);
    if l.confirmed_at.contains_key(id) {
        let i = choose|i: int|
            0 <= i < l.heights.len() && ledger::in_records((#[trigger] l.heights[i]).records, id);
        assert(l.heights[i].height == l.confirmed_at[id]) by {
            let records = l.heights[i].records;
            let j = choose|j: int| 0 <= j < records.len() && (#[trigger] records[j]).txid == id;
            assert(ledger::indexed(l.confirmed_at, records, l.heights[i].height));
        }
    }
}

proof fn lemma_agrees(calls: Seq<Call>)
    ensures
        ledger::ledger_wf(after_calls(calls)),
        agrees(after_calls(calls), log_of(calls)),
    decreases calls.len(),
{
    if calls.len() == 0 {
        ledger::lemma_empty_ledger();
    } else {
        let before = after_calls(calls.drop_last());
        let c = calls.last();
        lemma_agrees(calls.drop_last());
        law_every_operation_keeps_the_bounds(before, c);
        lemma_told_call(before, c);
        let n = after_call(before, c);
        assert forall|id: TxId| #[trigger] n.confirmed_at.contains_key(id) implies last_confirmed_at(
            log_of(calls),
            id,
            n.confirmed_at[id],
        ) by {
            lemma_latest_add(log_of(calls.drop_last()), call_events(before, c), id);
        }
    }
}

} // verus!
