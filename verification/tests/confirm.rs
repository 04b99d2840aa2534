//! The confirmation tracker: inclusion, reorganisations, expiry and latency.

use sov_tx_cannon::confirm::{
    percentile_ms, BlockId, BucketLatency, ConfirmTracker, Confirmed, DropReason, Dropped,
    TipBucket, TrackerEvent, TxId, Unmined, MAX_DROP_MEMORY, MAX_IN_FLIGHT,
    MAX_SAMPLES_PER_BUCKET, MAX_TIP_BUCKETS, MAX_TRACKED_HEIGHTS,
};

fn tx(n: u64) -> TxId {
    let mut b = [0u8; 32];
    b[..8].copy_from_slice(&n.to_le_bytes());
    TxId::new(b)
}

fn blk(n: u64) -> BlockId {
    let mut b = [0xffu8; 32];
    b[..8].copy_from_slice(&n.to_le_bytes());
    BlockId::new(b)
}

fn confirmations(events: &[TrackerEvent]) -> Vec<Confirmed> {
    events
        .iter()
        .filter_map(|e| match e {
            TrackerEvent::Confirmed(c) => Some(*c),
            _ => None,
        })
        .collect()
}

fn unmines(events: &[TrackerEvent]) -> Vec<Unmined> {
    events
        .iter()
        .filter_map(|e| match e {
            TrackerEvent::Unmined(u) => Some(*u),
            _ => None,
        })
        .collect()
}

fn drops(events: &[TrackerEvent]) -> Vec<Dropped> {
    events
        .iter()
        .filter_map(|e| match e {
            TrackerEvent::Dropped(d) => Some(*d),
            _ => None,
        })
        .collect()
}

#[test]
fn percentile_of_an_empty_sample_is_unknown_not_zero() {
    assert_eq!(percentile_ms(&[], 50), None);
    assert_eq!(percentile_ms(&[], 95), None);
    assert_eq!(percentile_ms(&[], 0), None);
}

#[test]
fn percentile_of_one_sample_is_that_sample_for_every_p() {
    for p in [0u8, 1, 50, 95, 99, 100, 255] {
        assert_eq!(percentile_ms(&[1_234], p), Some(1_234), "p{p}");
    }
}

#[test]
fn percentile_of_an_even_count_takes_the_lower_middle_never_an_average() {
    // p50 of [10,20]: rank = ceil(0.5×2) = 1 → the FIRST sample. 15 would be a
    // number that was never observed.
    assert_eq!(percentile_ms(&[10, 20], 50), Some(10));
    assert_eq!(percentile_ms(&[10, 20, 30, 40], 50), Some(20));
    assert_eq!(percentile_ms(&[10, 20], 95), Some(20));
}

#[test]
fn percentile_uses_nearest_rank_over_a_known_hundred_sample_set() {
    let sorted: Vec<u64> = (1..=100).collect();
    // rank = ceil(p×100/100) = p, so the p-th percentile is the value p.
    assert_eq!(percentile_ms(&sorted, 50), Some(50));
    assert_eq!(percentile_ms(&sorted, 95), Some(95));
    assert_eq!(percentile_ms(&sorted, 99), Some(99));
    // p = 0 clamps up to rank 1 (the minimum); p >= 100 is the maximum.
    assert_eq!(percentile_ms(&sorted, 0), Some(1));
    assert_eq!(percentile_ms(&sorted, 100), Some(100));
    assert_eq!(percentile_ms(&sorted, 255), Some(100));
}

#[test]
fn percentile_is_monotonic_in_p_and_always_an_observed_value() {
    let sorted: Vec<u64> = vec![3, 3, 7, 11, 11, 42, 1_000];
    let mut prev = 0;
    for p in 0..=100u8 {
        let v = percentile_ms(&sorted, p).expect("non-empty");
        assert!(v >= prev, "p{p} went backwards");
        assert!(sorted.contains(&v), "p{p} invented the value {v}");
        prev = v;
    }
}

#[test]
fn percentile_does_not_overflow_on_a_large_sample_count() {
    // The rank product is computed in u128, so a large n with p = 255 is fine.
    let sorted = vec![7u64; 100_000];
    assert_eq!(percentile_ms(&sorted, 255), Some(7));
    assert_eq!(percentile_ms(&sorted, 50), Some(7));
}

#[test]
fn confirmation_reports_blocks_and_milliseconds_to_inclusion() {
    let mut t = ConfirmTracker::new();
    assert!(t.register(tx(1), 1_000, 100, 500, 2).is_none());
    let ev = t.observe_block(103, blk(103), &[tx(1)], 4_500);
    let c = confirmations(&ev);
    assert_eq!(c.len(), 1);
    assert_eq!(c[0].txid, tx(1));
    assert_eq!(c[0].height, 103);
    assert_eq!(c[0].block, blk(103));
    assert_eq!(c[0].blocks_to_inclusion, 3); // 103 - 100
    assert_eq!(c[0].latency_ms, 3_500); // 4500 - 1000
    assert!(!c[0].late);
    assert_eq!(c[0].submission.tip_grains, 500);
    assert_eq!(c[0].submission.bucket, 2);
    assert_eq!(t.in_flight_len(), 0);
    assert_eq!(t.confirmed_height(&tx(1)), Some(103));
    assert_eq!(t.stats().confirmed, 1);
    assert_eq!(t.stats().in_flight, 0);
}

#[test]
fn transactions_we_never_registered_are_ignored_silently() {
    let mut t = ConfirmTracker::new();
    t.register(tx(1), 0, 10, 0, 0);
    // A block full of other people's traffic plus one of ours.
    let ev = t.observe_block(11, blk(11), &[tx(90), tx(91), tx(1), tx(92)], 1_000);
    let c = confirmations(&ev);
    assert_eq!(c.len(), 1);
    assert_eq!(c[0].txid, tx(1));
    assert_eq!(t.stats().confirmed, 1);
}

#[test]
fn out_of_order_heights_and_stamps_saturate_instead_of_underflowing() {
    let mut t = ConfirmTracker::new();
    // Submitted at height 50 / 9_000 ms but observed at height 40 / 1_000 ms:
    // nonsensical input must produce zeros, never a panic or a wrapped huge.
    t.register(tx(1), 9_000, 50, 0, 0);
    let ev = t.observe_block(40, blk(40), &[tx(1)], 1_000);
    let c = confirmations(&ev);
    assert_eq!(c[0].blocks_to_inclusion, 0);
    assert_eq!(c[0].latency_ms, 0);
}

#[test]
fn re_registering_an_in_flight_or_confirmed_tx_changes_nothing() {
    let mut t = ConfirmTracker::new();
    t.register(tx(1), 1_000, 10, 5, 1);
    // A duplicate registration must not overwrite the first submit time.
    assert!(t.register(tx(1), 9_000, 20, 99, 3).is_none());
    assert_eq!(t.in_flight(&tx(1)).map(|s| s.submitted_ms), Some(1_000));
    assert_eq!(t.in_flight_len(), 1);

    let ev = t.observe_block(12, blk(12), &[tx(1)], 3_000);
    assert_eq!(confirmations(&ev).len(), 1);
    // Once confirmed, re-registration is also a no-op.
    assert!(t.register(tx(1), 9_000, 20, 99, 3).is_none());
    assert_eq!(t.in_flight_len(), 0);
    assert_eq!(t.stats().confirmed, 1);
}

#[test]
fn re_observing_the_same_block_is_idempotent() {
    let mut t = ConfirmTracker::new();
    t.register(tx(1), 0, 1, 0, 0);
    let first = t.observe_block(2, blk(2), &[tx(1)], 1_000);
    assert_eq!(confirmations(&first).len(), 1);
    let again = t.observe_block(2, blk(2), &[tx(1)], 5_000);
    assert!(again.is_empty(), "duplicate observation must emit nothing");
    assert_eq!(t.stats().confirmed, 1);
    assert_eq!(t.stats().unmined_total, 0);
    // And the latency retained is still the FIRST observation's.
    assert_eq!(t.latency(0).map(|l| l.p50_ms), Some(1_000));
}

#[test]
fn a_replaced_block_unmines_its_txs_and_returns_them_to_flight() {
    let mut t = ConfirmTracker::new();
    t.register(tx(1), 0, 1, 10, 0);
    t.register(tx(2), 0, 1, 10, 0);
    t.observe_block(2, blk(2), &[tx(1), tx(2)], 1_000);
    assert_eq!(t.stats().confirmed, 2);
    assert_eq!(t.latency(0).map(|l| l.count), Some(2));

    // Height 2 comes back with a different hash carrying only tx(1).
    let ev = t.observe_block(2, blk(999), &[tx(1)], 2_000);
    let u = unmines(&ev);
    assert_eq!(u.len(), 2, "both prior confirmations must be reported");
    assert!(u.iter().any(|x| x.txid == tx(1)));
    assert!(u.iter().any(|x| x.txid == tx(2)));
    assert_eq!(u[0].height, 2);
    assert_eq!(u[0].block, blk(2));

    // tx(1) re-confirms in the replacement block; tx(2) is back in flight.
    let c = confirmations(&ev);
    assert_eq!(c.len(), 1);
    assert_eq!(c[0].txid, tx(1));
    assert_eq!(c[0].block, blk(999));
    assert_eq!(c[0].latency_ms, 2_000, "measured from the ORIGINAL submit");
    assert_eq!(t.in_flight_len(), 1);
    assert!(t.in_flight(&tx(2)).is_some());
    assert_eq!(t.confirmed_height(&tx(2)), None);
    assert_eq!(t.stats().confirmed, 1);
    assert_eq!(t.stats().unmined_total, 2);
    // The withdrawn samples leave only the re-confirmation behind.
    assert_eq!(t.latency(0).map(|l| l.count), Some(1));
    assert_eq!(t.latency(0).map(|l| l.p50_ms), Some(2_000));
}

#[test]
fn a_multi_block_rollback_unmines_every_height_above_the_fork_point() {
    let mut t = ConfirmTracker::new();
    for n in 1..=6u64 {
        t.register(tx(n), 0, 10, 1, 0);
    }
    t.observe_block(11, blk(11), &[tx(1), tx(2)], 1_000);
    t.observe_block(12, blk(12), &[tx(3), tx(4)], 2_000);
    t.observe_block(13, blk(13), &[tx(5), tx(6)], 3_000);
    assert_eq!(t.stats().confirmed, 6);
    assert_eq!(t.in_flight_len(), 0);

    // A 3-deep reorg: height 11 is replaced, so 11, 12 and 13 all die.
    let ev = t.observe_block(11, blk(911), &[], 4_000);
    let u = unmines(&ev);
    assert_eq!(u.len(), 6);
    // Tip first: heights 13, 12, 11 in that order.
    assert_eq!(
        u.iter().map(|x| x.height).collect::<Vec<_>>(),
        vec![13, 13, 12, 12, 11, 11]
    );
    assert_eq!(t.in_flight_len(), 6);
    assert_eq!(t.stats().confirmed, 0);
    assert_eq!(t.stats().unmined_total, 6);
    // Every latency sample from the dead branch was withdrawn.
    assert_eq!(t.latency(0), None);
    for n in 1..=6u64 {
        assert_eq!(t.confirmed_height(&tx(n)), None);
    }
}

#[test]
fn a_tx_reincluded_at_a_different_height_measures_from_its_original_submit() {
    let mut t = ConfirmTracker::new();
    t.register(tx(1), 500, 10, 7, 3);
    t.observe_block(11, blk(11), &[tx(1)], 1_500);
    assert_eq!(t.confirmed_height(&tx(1)), Some(11));

    // A reorg replaces height 11 with an empty block, then tx(1) lands at 13.
    let ev = t.observe_block(11, blk(911), &[], 2_500);
    assert_eq!(unmines(&ev).len(), 1);
    assert!(t.in_flight(&tx(1)).is_some());
    t.observe_block(12, blk(912), &[], 3_000);
    let ev = t.observe_block(13, blk(913), &[tx(1)], 4_000);
    let c = confirmations(&ev);
    assert_eq!(c.len(), 1);
    assert_eq!(c[0].height, 13);
    assert_eq!(c[0].blocks_to_inclusion, 3); // 13 - 10, not 13 - 11
    assert_eq!(c[0].latency_ms, 3_500); // 4000 - 500, the original submit
    assert_eq!(t.stats().confirmed, 1);
    assert_eq!(t.stats().unmined_total, 1);
    assert_eq!(t.latency(3).map(|l| l.count), Some(1));
    assert_eq!(t.latency(3).map(|l| l.p50_ms), Some(3_500));
}

#[test]
fn a_reorg_at_an_empty_height_still_rolls_back_the_heights_above_it() {
    let mut t = ConfirmTracker::new();
    t.register(tx(1), 0, 1, 0, 0);
    // Height 5 held nothing of ours but is still recorded...
    t.observe_block(5, blk(5), &[tx(77)], 1_000);
    t.observe_block(6, blk(6), &[tx(1)], 2_000);
    assert_eq!(t.stats().confirmed, 1);
    // ...so replacing it is recognized and height 6 is rolled back too.
    let ev = t.observe_block(5, blk(905), &[], 3_000);
    assert_eq!(unmines(&ev).len(), 1);
    assert_eq!(t.stats().confirmed, 0);
    assert_eq!(t.in_flight_len(), 1);
}

#[test]
fn extending_the_chain_never_unmines_anything() {
    let mut t = ConfirmTracker::new();
    for n in 1..=5u64 {
        t.register(tx(n), 0, 0, 1, 0);
        let ev = t.observe_block(n, blk(n), &[tx(n)], n * 1_000);
        assert_eq!(confirmations(&ev).len(), 1);
        assert!(unmines(&ev).is_empty());
    }
    assert_eq!(t.stats().confirmed, 5);
    assert_eq!(t.stats().unmined_total, 0);
}

#[test]
fn expiry_drops_only_what_has_outlived_the_ttl_in_registration_order() {
    let mut t = ConfirmTracker::new();
    t.register(tx(1), 0, 1, 0, 0);
    t.register(tx(2), 1_000, 1, 0, 0);
    t.register(tx(3), 5_000, 1, 0, 0);
    // At t=6_000 with a 5_000 ms TTL: tx(1) (6_000 old) and tx(2) (5_000 old,
    // exactly at the boundary) go; tx(3) (1_000 old) stays.
    let ev = t.expire(6_000, 5_000);
    let d = drops(&ev);
    assert_eq!(d.len(), 2);
    assert_eq!(d[0].txid, tx(1));
    assert_eq!(d[0].age_ms, 6_000);
    assert_eq!(d[0].reason, DropReason::Expired);
    assert_eq!(d[1].txid, tx(2));
    assert_eq!(d[1].age_ms, 5_000);
    assert_eq!(t.in_flight_len(), 1);
    assert_eq!(t.stats().dropped_expired, 2);
    assert_eq!(t.stats().in_flight, 1);
    // A second sweep at the same instant finds nothing more to drop.
    assert!(t.expire(6_000, 5_000).is_empty());
}

#[test]
fn a_zero_ttl_expires_everything_and_a_future_stamp_expires_nothing() {
    let mut t = ConfirmTracker::new();
    t.register(tx(1), 1_000, 1, 0, 0);
    t.register(tx(2), 1_000, 1, 0, 0);
    assert_eq!(drops(&t.expire(1_000, 0)).len(), 2);

    let mut t = ConfirmTracker::new();
    // Submitted "in the future" relative to now: the age saturates to 0.
    t.register(tx(1), 9_000, 1, 0, 0);
    assert!(t.expire(1_000, 1).is_empty());
    assert_eq!(t.in_flight_len(), 1);
}

#[test]
fn a_dropped_tx_that_shows_up_anyway_is_counted_as_a_late_confirmation() {
    let mut t = ConfirmTracker::new();
    t.register(tx(1), 0, 10, 4, 1);
    assert_eq!(drops(&t.expire(60_000, 30_000)).len(), 1);
    assert_eq!(t.stats().dropped_expired, 1);
    assert_eq!(t.stats().confirmed, 0);

    // It lands anyway. The TTL was OUR cutoff, so the drop is reclassified and
    // the (long) latency IS recorded — hiding it would flatter the p95.
    let ev = t.observe_block(15, blk(15), &[tx(1)], 90_000);
    let c = confirmations(&ev);
    assert_eq!(c.len(), 1);
    assert!(c[0].late);
    assert_eq!(c[0].latency_ms, 90_000);
    assert_eq!(c[0].blocks_to_inclusion, 5);
    assert_eq!(t.stats().dropped_expired, 0);
    assert_eq!(t.stats().confirmed, 1);
    assert_eq!(t.stats().late_total, 1);
    assert_eq!(t.latency(1).map(|l| l.max_ms), Some(90_000));
    // And it is a normal confirmation from then on: a reorg un-mines it back
    // into flight, not back into the drop pile.
    let ev = t.observe_block(15, blk(915), &[], 95_000);
    assert_eq!(unmines(&ev).len(), 1);
    assert!(t.in_flight(&tx(1)).is_some());
    assert_eq!(t.stats().dropped_expired, 0);
}

#[test]
fn a_dropped_tx_can_be_registered_again_and_leaves_the_drop_pile() {
    let mut t = ConfirmTracker::new();
    t.register(tx(1), 0, 1, 0, 0);
    t.expire(10_000, 1_000);
    assert_eq!(t.stats().dropped_expired, 1);
    // A fresh submission of the same id restarts the measurement.
    assert!(t.register(tx(1), 20_000, 5, 0, 0).is_none());
    assert_eq!(t.stats().dropped_expired, 0);
    assert_eq!(t.in_flight(&tx(1)).map(|s| s.submitted_ms), Some(20_000));
    let ev = t.observe_block(6, blk(6), &[tx(1)], 21_000);
    let c = confirmations(&ev);
    assert!(!c[0].late, "re-registered, so not a late arrival");
    assert_eq!(c[0].latency_ms, 1_000);
}

#[test]
fn latency_percentiles_are_reported_per_tip_bucket_not_pooled() {
    let mut t = ConfirmTracker::new();
    // Bucket 0 (low tip): 100 txs taking 1_000..=100_000 ms.
    // Bucket 1 (high tip): 100 txs taking 10..=1_000 ms.
    for i in 1..=100u64 {
        t.register(tx(i), 0, 0, 1, 0);
        t.observe_block(i, blk(i), &[tx(i)], i * 1_000);
    }
    for i in 1..=100u64 {
        let id = tx(1_000 + i);
        t.register(id, 0, 0, 999, 1);
        t.observe_block(1_000 + i, blk(1_000 + i), &[id], i * 10);
    }
    let low = t.latency(0).expect("bucket 0 measured");
    let high = t.latency(1).expect("bucket 1 measured");
    assert_eq!(low.count, 100);
    assert_eq!(low.min_ms, 1_000);
    assert_eq!(low.max_ms, 100_000);
    assert_eq!(low.p50_ms, 50_000);
    assert_eq!(low.p95_ms, 95_000);
    assert_eq!(high.count, 100);
    assert_eq!(high.min_ms, 10);
    assert_eq!(high.max_ms, 1_000);
    assert_eq!(high.p50_ms, 500);
    assert_eq!(high.p95_ms, 950);
    assert_eq!(t.buckets(), vec![0, 1]);
    // An unmeasured bucket is unknown, never a zeroed distribution.
    assert_eq!(t.latency(2), None);
}

#[test]
fn a_single_sample_bucket_reports_that_sample_for_every_statistic() {
    let mut t = ConfirmTracker::new();
    t.register(tx(1), 0, 0, 1, 7);
    t.observe_block(1, blk(1), &[tx(1)], 4_242);
    assert_eq!(
        t.latency(7),
        Some(BucketLatency {
            count: 1,
            min_ms: 4_242,
            max_ms: 4_242,
            p50_ms: 4_242,
            p95_ms: 4_242,
        })
    );
}

#[test]
fn bucket_keys_beyond_the_cap_are_counted_not_stored() {
    let mut t = ConfirmTracker::new();
    // Fill every allowed bucket, then use one more key.
    for b in 0..MAX_TIP_BUCKETS {
        let id = tx(b as u64);
        t.register(id, 0, 0, 1, b as TipBucket);
        t.observe_block(b as u64, blk(b as u64), &[id], 1_000);
    }
    assert_eq!(t.buckets().len(), MAX_TIP_BUCKETS);
    let overflow = tx(9_999);
    t.register(overflow, 0, 0, 1, 200);
    let ev = t.observe_block(9_999, blk(9_999), &[overflow], 2_000);
    // The confirmation is still reported in full...
    assert_eq!(confirmations(&ev).len(), 1);
    // ...but the sample is not stored, and the loss is visible.
    assert_eq!(t.latency(200), None);
    assert_eq!(t.buckets().len(), MAX_TIP_BUCKETS);
    assert_eq!(t.stats().unbucketed_samples, 1);
}

#[test]
fn the_in_flight_set_never_exceeds_its_cap_and_sheds_the_oldest() {
    let mut t = ConfirmTracker::new();
    for i in 0..MAX_IN_FLIGHT as u64 {
        assert!(t.register(tx(i), i, 0, 1, 0).is_none());
    }
    assert_eq!(t.in_flight_len(), MAX_IN_FLIGHT);
    // One past the cap evicts the very first registration.
    let ev = t
        .register(tx(MAX_IN_FLIGHT as u64), 1_000_000, 0, 1, 0)
        .expect("capacity eviction is reported");
    match ev {
        TrackerEvent::Dropped(d) => {
            assert_eq!(d.txid, tx(0));
            assert_eq!(d.reason, DropReason::CapacityEvicted);
            assert_eq!(d.age_ms, 1_000_000);
        }
        other => panic!("expected a capacity drop, got {other:?}"),
    }
    assert_eq!(t.in_flight_len(), MAX_IN_FLIGHT);
    assert!(t.in_flight(&tx(0)).is_none());
    assert!(t.in_flight(&tx(MAX_IN_FLIGHT as u64)).is_some());
    assert_eq!(t.stats().dropped_evicted, 1);
    // An evicted tx is NOT in the drop memory, so its later inclusion is not
    // claimed as a late confirmation of something we stopped tracking.
    let ev = t.observe_block(1, blk(1), &[tx(0)], 1_000_001);
    assert!(confirmations(&ev).is_empty());
}

#[test]
fn history_retention_is_bounded_by_heights_and_by_confirmations() {
    let mut t = ConfirmTracker::new();
    let blocks = MAX_TRACKED_HEIGHTS as u64 + 50;
    for h in 1..=blocks {
        t.register(tx(h), h, h, 1, 0);
        t.observe_block(h, blk(h), &[tx(h)], h * 10);
    }
    // Every confirmation still COUNTS...
    assert_eq!(t.stats().confirmed, blocks);
    // ...but only the most recent window is retained for rollback.
    assert_eq!(t.confirmed_height(&tx(1)), None);
    assert_eq!(t.confirmed_height(&tx(blocks)), Some(blocks));
    // A reorg at a pruned height cannot resurrect what was forgotten: nothing
    // is un-mined, and nothing is fabricated either.
    let ev = t.observe_block(1, blk(901), &[], 999_999);
    assert!(unmines(&ev).is_empty());
    assert_eq!(t.stats().unmined_total, 0);
}

#[test]
fn a_long_soak_keeps_every_structure_inside_its_documented_bound() {
    let mut t = ConfirmTracker::new();
    // 20_000 submissions across 400 blocks: some confirm, some expire, and one
    // reorg strikes midway. Nothing may grow without limit.
    let mut id = 0u64;
    for h in 1..=400u64 {
        let mut batch = Vec::new();
        for _ in 0..50 {
            id += 1;
            t.register(tx(id), h * 1_000, h, u128::from(id), (id % 4) as TipBucket);
            if id % 2 == 0 {
                batch.push(tx(id));
            }
        }
        t.observe_block(h, blk(h), &batch, h * 1_000 + 500);
        if h == 200 {
            t.observe_block(h, blk(h + 100_000), &batch, h * 1_000 + 900);
        }
        t.expire(h * 1_000, 30_000);
    }
    assert!(t.in_flight_len() <= MAX_IN_FLIGHT);
    assert!(t.buckets().len() <= MAX_TIP_BUCKETS);
    for b in t.buckets() {
        let l = t.latency(b).expect("non-empty bucket");
        assert!(l.count <= MAX_SAMPLES_PER_BUCKET);
        assert!(l.min_ms <= l.p50_ms && l.p50_ms <= l.p95_ms && l.p95_ms <= l.max_ms);
    }
    let s = t.stats();
    assert_eq!(s.in_flight, t.in_flight_len() as u64);
    assert!(s.unmined_total > 0, "the injected reorg must be visible");
    // Confirmed + in-flight + dropped never exceeds what we registered.
    assert!(s.confirmed + s.in_flight + s.dropped_expired + s.dropped_evicted <= id);
}

#[test]
fn per_bucket_samples_are_a_bounded_rolling_window() {
    let mut t = ConfirmTracker::new();
    let n = MAX_SAMPLES_PER_BUCKET as u64 + 100;
    for i in 1..=n {
        t.register(tx(i), 0, 0, 1, 0);
        t.observe_block(i, blk(i), &[tx(i)], i);
    }
    let l = t.latency(0).expect("measured");
    assert_eq!(l.count, MAX_SAMPLES_PER_BUCKET);
    // The window holds the most RECENT samples: 101..=n.
    assert_eq!(l.min_ms, 101);
    assert_eq!(l.max_ms, n);
    assert_eq!(t.stats().evicted_samples, 100);
}

#[test]
fn drop_memory_forgets_the_oldest_drops_first() {
    let mut t = ConfirmTracker::new();
    let n = MAX_DROP_MEMORY as u64 + 10;
    for i in 1..=n {
        t.register(tx(i), 0, 0, 1, 0);
    }
    assert_eq!(drops(&t.expire(1_000, 100)).len() as u64, n);
    // The oldest 10 drops are forgotten: their later inclusion reads as a
    // stranger's transaction rather than being counted twice.
    let ev = t.observe_block(1, blk(1), &[tx(1)], 2_000);
    assert!(confirmations(&ev).is_empty());
    // A still-remembered drop is recognized as a late inclusion.
    let ev = t.observe_block(2, blk(2), &[tx(n)], 2_000);
    let c = confirmations(&ev);
    assert_eq!(c.len(), 1);
    assert!(c[0].late);
}

#[test]
fn identical_input_sequences_produce_identical_event_sequences() {
    let run = || {
        let mut t = ConfirmTracker::new();
        let mut log = Vec::new();
        for i in 1..=200u64 {
            if let Some(e) = t.register(tx(i), i * 10, i, u128::from(i), (i % 5) as TipBucket) {
                log.push(e);
            }
        }
        let all: Vec<TxId> = (1..=100).map(tx).collect();
        let some: Vec<TxId> = (1..=40).map(tx).collect();
        log.extend(t.observe_block(50, blk(50), &all, 5_000));
        log.extend(t.observe_block(50, blk(950), &some, 6_000));
        log.extend(t.expire(9_000, 1_000));
        (log, t.stats(), t.latency(0), t.latency(3))
    };
    assert_eq!(run(), run());
}

#[test]
fn ids_render_as_short_hex_prefixes_for_logs() {
    assert_eq!(tx(0).short(), "00000000");
    assert_eq!(tx(1).short(), "01000000");
    assert_eq!(blk(1).short(), "01000000");
    assert_eq!(tx(1).label(), "tx:01000000");
    assert_eq!(blk(1).label(), "blk:01000000");
    assert_eq!(tx(1).as_bytes()[0], 1);
    assert_eq!(blk(1).as_bytes()[31], 0xff);
}
