//! Tip policies, buckets, the floor probe and replacement bids.

use sov_tx_cannon::auction::{
    bucket_of, wrap_tipped, Admission, FloorBracket, FloorProbe, LadderMode, RbfPlan, RbfVerdict,
    TipBucket, TipPolicy, TipSelector, MIN_RBF_BUMP_GRAINS,
};
use sov_tx_cannon::chain::Action;

#[test]
fn untipped_policy_never_produces_an_envelope() {
    let mut sel = TipSelector::new(TipPolicy::Untipped).unwrap();
    for draw in [0u128, 7, u128::MAX] {
        assert_eq!(sel.next_tip(draw), None);
    }
    assert!(sel.policy().rungs().is_empty());
}

#[test]
fn fixed_policy_bids_the_same_tip_every_time() {
    let mut sel = TipSelector::new(TipPolicy::Fixed(25_000)).unwrap();
    for draw in [0u128, 1, u128::MAX] {
        assert_eq!(sel.next_tip(draw), Some(25_000));
    }
    assert_eq!(sel.policy().rungs(), &[25_000]);
}

#[test]
fn ladder_round_robin_cycles_every_rung_in_ascending_order() {
    let mut sel = TipSelector::new(TipPolicy::Ladder {
        rungs: vec![1_000, 5_000, 25_000],
        mode: LadderMode::RoundRobin,
    })
    .unwrap();
    let bids: Vec<u128> = (0..7).map(|_| sel.next_tip(0).unwrap()).collect();
    assert_eq!(
        bids,
        vec![1_000, 5_000, 25_000, 1_000, 5_000, 25_000, 1_000]
    );
}

#[test]
fn ladder_random_stays_on_the_ladder_and_reaches_every_rung() {
    let rungs = vec![1_000u128, 5_000, 25_000, 100_000];
    let mut sel = TipSelector::new(TipPolicy::Ladder {
        rungs: rungs.clone(),
        mode: LadderMode::Random,
    })
    .unwrap();
    let mut seen = std::collections::HashSet::new();
    // A deterministic sweep of draws stands in for the caller's PRNG.
    for draw in 0..4_000u128 {
        let bid = sel.next_tip(draw.wrapping_mul(2_654_435_761)).unwrap();
        assert!(rungs.contains(&bid), "bid {bid} is not a ladder rung");
        seen.insert(bid);
    }
    assert_eq!(seen.len(), rungs.len(), "not every rung was reachable");
}

#[test]
fn ladder_random_handles_an_extreme_draw_without_overflow_or_panic() {
    let mut sel = TipSelector::new(TipPolicy::Ladder {
        rungs: vec![1_000, 2_000, 3_000],
        mode: LadderMode::Random,
    })
    .unwrap();
    for draw in [0, 1, u128::MAX - 1, u128::MAX] {
        let bid = sel.next_tip(draw).unwrap();
        assert!([1_000, 2_000, 3_000].contains(&bid));
    }
}

#[test]
fn tip_policy_validation_rejects_bad_shapes() {
    assert!(TipPolicy::Untipped.validate().is_ok());
    assert!(TipPolicy::Fixed(1).validate().is_ok());
    // A zero fixed tip is Untipped spelled confusingly.
    assert!(TipPolicy::Fixed(0).validate().is_err());
    let ladder = |rungs: Vec<u128>| TipPolicy::Ladder {
        rungs,
        mode: LadderMode::RoundRobin,
    };
    assert!(ladder(vec![]).validate().is_err());
    assert!(ladder(vec![0, 1_000]).validate().is_err());
    assert!(ladder(vec![5_000, 1_000]).validate().is_err()); // descending
    assert!(ladder(vec![1_000, 1_000]).validate().is_err()); // duplicate
    assert!(ladder(vec![1_000]).validate().is_ok());
    assert!(ladder(vec![1, 2, 3]).validate().is_ok());
    // The selector refuses exactly what validate refuses.
    assert!(TipSelector::new(ladder(vec![])).is_err());
    assert!(TipSelector::new(ladder(vec![1_000, 2_000])).is_ok());
}

#[test]
fn a_tip_is_bucketed_by_the_highest_rung_it_cleared() {
    let rungs = [1_000u128, 5_000, 25_000];
    assert_eq!(bucket_of(&rungs, 1_000), TipBucket::Rung(1_000));
    assert_eq!(bucket_of(&rungs, 4_999), TipBucket::Rung(1_000));
    assert_eq!(bucket_of(&rungs, 5_000), TipBucket::Rung(5_000));
    assert_eq!(bucket_of(&rungs, 24_999), TipBucket::Rung(5_000));
    assert_eq!(bucket_of(&rungs, 25_000), TipBucket::Rung(25_000));
    // Above the top rung stays in the top bucket — never an invented one.
    assert_eq!(bucket_of(&rungs, u128::MAX), TipBucket::Rung(25_000));
}

#[test]
fn zero_is_untipped_and_a_sub_ladder_bid_has_its_own_bucket() {
    let rungs = [1_000u128, 5_000];
    assert_eq!(bucket_of(&rungs, 0), TipBucket::Untipped);
    assert_eq!(bucket_of(&rungs, 1), TipBucket::BelowLadder);
    assert_eq!(bucket_of(&rungs, 999), TipBucket::BelowLadder);
    // An empty ladder still classifies every tip (total mapping, no panic).
    assert_eq!(bucket_of(&[], 0), TipBucket::Untipped);
    assert_eq!(bucket_of(&[], 12_345), TipBucket::BelowLadder);
}

#[test]
fn every_bid_a_policy_generates_lands_in_its_own_rung_bucket() {
    let policy = TipPolicy::Ladder {
        rungs: vec![1_000, 5_000, 25_000],
        mode: LadderMode::RoundRobin,
    };
    let mut sel = TipSelector::new(policy.clone()).unwrap();
    for _ in 0..12 {
        let bid = sel.next_tip(0).unwrap();
        assert_eq!(policy.bucket(bid), TipBucket::Rung(bid));
    }
    // A fixed policy too: its single bid is its own bucket.
    assert_eq!(TipPolicy::Fixed(7).bucket(7), TipBucket::Rung(7));
    // Untipped has no rungs, so its own (zero) bid is the untipped bucket.
    assert_eq!(TipPolicy::Untipped.bucket(0), TipBucket::Untipped);
    assert_eq!(TipPolicy::Untipped.bucket(1), TipBucket::BelowLadder);
}

#[test]
fn bucket_labels_are_distinct_per_bucket() {
    let labels: std::collections::HashSet<String> = [
        TipBucket::Untipped,
        TipBucket::BelowLadder,
        TipBucket::Rung(1_000),
        TipBucket::Rung(5_000),
    ]
    .iter()
    .map(|b| b.label())
    .collect();
    assert_eq!(labels.len(), 4);
    assert_eq!(TipBucket::Rung(1_000).label(), "≥1000");
    assert_eq!(TipBucket::Untipped.label(), "untipped");
}

#[test]
fn wrap_tipped_builds_the_envelope_the_node_expects() {
    let inner = Action::OracleUpdate { price: 1 };
    let wrapped = wrap_tipped(inner.clone(), 4_200).unwrap();
    match &wrapped {
        Action::Tipped { tip_grains, inner: got } => {
            assert_eq!(*tip_grains, 4_200);
            assert_eq!(got.as_ref(), &inner);
        }
        other => panic!("expected Tipped, got {other:?}"),
    }
    // A zero tip is legal on chain, so the builder allows it.
    assert!(wrap_tipped(Action::OracleUpdate { price: 1 }, 0).is_ok());
}

#[test]
fn wrap_tipped_refuses_exactly_what_consensus_refuses() {
    let tipped = wrap_tipped(Action::OracleUpdate { price: 1 }, 10).unwrap();
    // Nesting: ExecutionError::NestedTip.
    assert!(wrap_tipped(tipped, 20).is_err());
    // Inner MultisigExec / RotateKey: ExecutionError::TipInnerNotAllowed.
    let ms = Action::MultisigExec {
        action: Box::new(Action::OracleUpdate { price: 1 }),
    };
    assert!(wrap_tipped(ms, 10).is_err());
}

#[test]
fn a_fresh_probe_reports_an_unknown_floor_not_a_zero() {
    let probe = FloorProbe::new(10_000, 1_000).unwrap();
    let b = probe.bracket();
    assert_eq!(probe.observations(), 0);
    assert_eq!(b, FloorBracket::default());
    assert!(!b.is_bracketed());
    assert_eq!(b.width(), None);
    assert!(b.advice().contains("unknown"));
    assert_eq!(probe.next_probe(), Some(10_000));
}

#[test]
fn a_zero_step_ramp_is_rejected_so_the_probe_cannot_stall() {
    assert!(FloorProbe::new(10_000, 0).is_err());
    assert!(FloorProbe::new(10_000, 1).is_ok());
}

#[test]
fn the_ramp_steps_down_by_the_step_and_bottoms_out_at_zero() {
    let mut probe = FloorProbe::new(2_500, 1_000).unwrap();
    let mut probed = Vec::new();
    while let Some(tip) = probe.next_probe() {
        probed.push(tip);
        probe.record(tip, Admission::Accepted);
    }
    // 2500 → 1500 → 500 → 0 (saturating, never underflowing) → done.
    assert_eq!(probed, vec![2_500, 1_500, 500, 0]);
    assert_eq!(probe.observations(), 4);
    assert_eq!(probe.next_probe(), None);
}

#[test]
fn an_all_accepted_ramp_reports_only_an_upper_bound() {
    let mut probe = FloorProbe::new(5_000, 1_000).unwrap();
    for tip in [5_000u128, 4_000, 3_000] {
        probe.record(tip, Admission::Accepted);
    }
    let b = probe.bracket();
    assert_eq!(b.lowest_accepted, Some(3_000));
    assert_eq!(b.highest_refused, None);
    assert!(!b.is_bracketed());
    assert!(!b.inverted);
    assert_eq!(b.width(), None);
    assert!(b.advice().contains("accepted"));
}

#[test]
fn an_all_refused_ramp_reports_only_a_lower_bound() {
    let mut probe = FloorProbe::new(3_000, 1_000).unwrap();
    for tip in [3_000u128, 2_000, 1_000] {
        probe.record(tip, Admission::Refused);
    }
    let b = probe.bracket();
    assert_eq!(b.highest_refused, Some(3_000));
    assert_eq!(b.lowest_accepted, None);
    assert!(!b.is_bracketed());
    assert_eq!(b.width(), None);
    assert!(b.advice().contains("refused"));
}

#[test]
fn a_clean_ramp_brackets_the_true_floor_between_the_refusal_and_the_accept() {
    // A stable floor of 2_500: the node admits a strict outbid (tip > floor)
    // and refuses anything at or below it.
    let floor = 2_500u128;
    let mut probe = FloorProbe::new(6_000, 1_000).unwrap();
    while let Some(tip) = probe.next_probe() {
        let outcome = if tip > floor {
            Admission::Accepted
        } else {
            Admission::Refused
        };
        probe.record(tip, outcome);
        if outcome == Admission::Refused {
            break; // an operator stops at the first refusal
        }
    }
    let b = probe.bracket();
    // 6000, 5000, 4000, 3000 accepted; 2000 refused.
    assert_eq!(b.lowest_accepted, Some(3_000));
    assert_eq!(b.highest_refused, Some(2_000));
    assert!(b.is_bracketed());
    assert!(!b.inverted);
    assert_eq!(b.width(), Some(1_000));
    // The true floor really does lie in [highest_refused, lowest_accepted).
    assert!(b.highest_refused.unwrap() <= floor && floor < b.lowest_accepted.unwrap());
    assert!(b.advice().contains("between"));
}

#[test]
fn a_non_monotonic_ramp_is_flagged_inverted_and_never_panics() {
    // The floor DROPS mid-probe: 4_000 refused, then 1_000 accepted.
    let mut probe = FloorProbe::new(4_000, 1_000).unwrap();
    probe.record(4_000, Admission::Refused);
    probe.record(3_000, Admission::Refused);
    probe.record(1_000, Admission::Accepted);
    let b = probe.bracket();
    assert_eq!(b.highest_refused, Some(4_000));
    assert_eq!(b.lowest_accepted, Some(1_000));
    assert!(b.is_bracketed());
    assert!(b.inverted, "an accept below an earlier refusal is inverted");
    // An inverted bracket has no width — it does not describe one price.
    assert_eq!(b.width(), None);
    assert!(b.advice().contains("NON-MONOTONIC"));
}

#[test]
fn the_same_tip_refused_then_accepted_is_inverted_not_zero_width() {
    let mut probe = FloorProbe::new(1_000, 500).unwrap();
    probe.record(1_000, Admission::Refused);
    probe.record(1_000, Admission::Accepted);
    let b = probe.bracket();
    assert_eq!(b.highest_refused, Some(1_000));
    assert_eq!(b.lowest_accepted, Some(1_000));
    assert!(b.inverted);
    assert_eq!(b.width(), None);
}

#[test]
fn out_of_order_observations_keep_the_extremes_not_the_last_seen() {
    let mut probe = FloorProbe::new(9_000, 1_000).unwrap();
    probe.record(9_000, Admission::Accepted);
    probe.record(500, Admission::Refused);
    probe.record(7_000, Admission::Accepted); // a higher accept must not win
    probe.record(100, Admission::Refused); // a lower refusal must not win
    let b = probe.bracket();
    assert_eq!(b.lowest_accepted, Some(7_000));
    assert_eq!(b.highest_refused, Some(500));
    assert!(!b.inverted);
    assert_eq!(b.width(), Some(6_500));
    assert_eq!(probe.observations(), 4);
}

#[test]
fn recording_a_hand_picked_tip_re_anchors_the_ramp_below_it() {
    let mut probe = FloorProbe::new(50_000, 1_000).unwrap();
    probe.record(3_000, Admission::Accepted); // the operator jumped the ramp
    assert_eq!(probe.next_probe(), Some(2_000));
}

#[test]
fn a_step_larger_than_the_start_tip_lands_on_zero_without_underflow() {
    let mut probe = FloorProbe::new(100, 1_000_000).unwrap();
    probe.record(100, Admission::Refused);
    assert_eq!(probe.next_probe(), Some(0));
    probe.record(0, Admission::Refused);
    assert_eq!(probe.next_probe(), None);
    assert_eq!(probe.bracket().highest_refused, Some(100));
}

#[test]
fn required_tip_mirrors_the_nodes_minimum_bump() {
    assert_eq!(MIN_RBF_BUMP_GRAINS, 1_000);
    assert_eq!(RbfPlan::new(0).required_tip(), 1_000);
    assert_eq!(RbfPlan::new(5_000).required_tip(), 6_000);
    assert_eq!(RbfPlan::new(0).next_bid(), Some(1_000));
}

#[test]
fn a_bump_one_grain_short_of_the_minimum_is_underpriced() {
    let plan = RbfPlan::new(5_000);
    assert_eq!(
        plan.verdict(5_999),
        RbfVerdict::Underpriced { required: 6_000 }
    );
    assert!(!plan.would_replace(5_999));
    // The smallest possible raise is still underpriced, never a replacement.
    assert_eq!(
        plan.verdict(5_001),
        RbfVerdict::Underpriced { required: 6_000 }
    );
}

#[test]
fn a_bump_of_exactly_the_minimum_replaces() {
    // The node compares `new_tip < required` (mempool lib.rs:463), so the
    // boundary itself LANDS. This is the case a wrong `<=` would break.
    let plan = RbfPlan::new(5_000);
    assert_eq!(plan.verdict(6_000), RbfVerdict::Replaces);
    assert!(plan.would_replace(6_000));
    assert_eq!(plan.next_bid(), Some(6_000));
}

#[test]
fn a_bump_one_grain_past_the_minimum_replaces() {
    let plan = RbfPlan::new(5_000);
    assert_eq!(plan.verdict(6_001), RbfVerdict::Replaces);
    assert!(plan.would_replace(6_001));
}

#[test]
fn an_equal_or_lower_tip_is_not_a_bid_at_all() {
    // Checked BEFORE the bump (mempool lib.rs:456), so these are NonceTaken,
    // not RbfUnderpriced — the distinction the operator sees in the error.
    let plan = RbfPlan::new(5_000);
    assert_eq!(plan.verdict(5_000), RbfVerdict::NotABid);
    assert_eq!(plan.verdict(4_999), RbfVerdict::NotABid);
    assert_eq!(plan.verdict(0), RbfVerdict::NotABid);
    // Against an untipped incumbent, a zero bid is likewise not a bid, and a
    // raise still owes the full bump.
    assert_eq!(RbfPlan::new(0).verdict(0), RbfVerdict::NotABid);
    assert_eq!(
        RbfPlan::new(0).verdict(999),
        RbfVerdict::Underpriced { required: 1_000 }
    );
    assert_eq!(RbfPlan::new(0).verdict(1_000), RbfVerdict::Replaces);
}

#[test]
fn the_rule_saturates_near_u128_max_without_overflowing() {
    // Just below the maximum: `required` saturates to u128::MAX exactly as the
    // node's own saturating_add does, and that bid IS admissible.
    let plan = RbfPlan::new(u128::MAX - 500);
    assert_eq!(plan.required_tip(), u128::MAX);
    assert_eq!(plan.verdict(u128::MAX), RbfVerdict::Replaces);
    assert_eq!(
        plan.verdict(u128::MAX - 1),
        RbfVerdict::Underpriced {
            required: u128::MAX
        }
    );
    assert_eq!(plan.next_bid(), Some(u128::MAX));
    // At the maximum itself, no replacement is representable at all.
    let maxed = RbfPlan::new(u128::MAX);
    assert_eq!(maxed.required_tip(), u128::MAX);
    assert_eq!(maxed.next_bid(), None);
    assert_eq!(maxed.verdict(u128::MAX), RbfVerdict::NotABid);
}

#[test]
fn a_storm_escalates_by_exactly_the_minimum_each_round() {
    let plan = RbfPlan::new(2_000);
    let bids = plan.storm(4);
    assert_eq!(bids, vec![3_000, 4_000, 5_000, 6_000]);
    // Strictly increasing, and each bid replaces the previous incumbent.
    let mut incumbent = RbfPlan::new(2_000);
    for bid in &bids {
        assert!(incumbent.would_replace(*bid));
        incumbent.landed(*bid);
    }
    assert_eq!(incumbent.current_tip(), 6_000);
    assert!(plan.storm(0).is_empty());
}

#[test]
fn a_storm_stops_instead_of_overflowing_at_the_ceiling() {
    let plan = RbfPlan::new(u128::MAX - 500);
    let bids = plan.storm(10);
    // One representable bid (the saturated maximum), then the ladder ends.
    assert_eq!(bids, vec![u128::MAX]);
    assert!(RbfPlan::new(u128::MAX).storm(10).is_empty());
}

#[test]
fn landing_never_lowers_the_price_to_beat() {
    let mut plan = RbfPlan::new(5_000);
    plan.landed(4_000); // a stale/losing bid must not rewind the incumbent
    assert_eq!(plan.current_tip(), 5_000);
    plan.landed(6_000);
    assert_eq!(plan.current_tip(), 6_000);
}
