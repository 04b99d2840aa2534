//! What is sent, where, how much, and how it is metered.

use sov_tx_cannon::amounts::{
    heartbeat_tip_mode, AmountMode, TipChoice, TipMode, SUGGESTED_TIP_GRAINS,
};
use sov_tx_cannon::chain::{AccountId, Action};
use sov_tx_cannon::dest::{DestMode, DestSelector};
use sov_tx_cannon::json::{parse_fee_auction_active, Json};
use sov_tx_cannon::meter::{MeterKind, RateMeter};
use sov_tx_cannon::rng::Rng;
use sov_tx_cannon::transfer::{transfer_action, KeyScheme};
use sov_tx_cannon::xus::{fmt_count, fmt_xus, grains_to_xus, parse_xus};

/// Events per second over the meter's window.
fn rate(m: &RateMeter, now_ms: u64, kind: MeterKind) -> f64 {
    m.window_count(now_ms, kind) as f64 / m.window_secs() as f64
}

fn acct(name: &str) -> AccountId {
    AccountId::new(name.to_string())
}

fn text(s: &str) -> Json {
    Json::Text(s.to_string())
}

fn object(members: Vec<(&str, Json)>) -> Json {
    Json::Object(
        members
            .into_iter()
            .map(|(k, v)| (k.to_string(), v))
            .collect(),
    )
}

/// A deployment as a node lists it.
fn deployment(name: &str, state: &str) -> Json {
    object(vec![("name", text(name)), ("state", text(state))])
}

#[test]
fn meter_counts_rates_over_the_window_and_totals_forever() {
    let mut m = RateMeter::new(5);
    // 10 accepted events spread over seconds 0..=4 (2 per second).
    for sec in 0..5u64 {
        for i in 0..2u64 {
            m.record(sec * 1000 + i * 100, MeterKind::Accepted);
        }
    }
    let now = 4_900; // still inside second 4
    assert_eq!(rate(&m, now, MeterKind::Accepted), 2.0); // 10 events / 5 s
    assert_eq!(m.total(MeterKind::Accepted), 10);
    assert_eq!(rate(&m, now, MeterKind::RejCapacity), 0.0);

    // 10 seconds later the window is empty — rate decays to 0, totals stay.
    let later = 15_000;
    m.record(later, MeterKind::RejCapacity);
    assert_eq!(rate(&m, later, MeterKind::Accepted), 0.0);
    assert_eq!(rate(&m, later, MeterKind::RejCapacity), 1.0 / 5.0);
    assert_eq!(m.total(MeterKind::Accepted), 10);
    assert_eq!(m.total(MeterKind::RejCapacity), 1);
}

#[test]
fn meter_burst_in_one_second_averages_across_the_window() {
    let mut m = RateMeter::new(5);
    for _ in 0..50 {
        m.record(10_000, MeterKind::Attempted); // 50 events in second 10
    }
    assert_eq!(rate(&m, 10_500, MeterKind::Attempted), 10.0); // 50 / 5 s
    assert_eq!(m.total(MeterKind::Attempted), 50);
}

#[test]
fn round_robin_cycles_in_order() {
    let dests = vec![acct("alice.sov"), acct("bob.sov"), acct("carol.sov")];
    let mut sel = DestSelector::new(dests.clone(), DestMode::RoundRobin).unwrap();
    let mut rng = Rng::seeded(1);
    let picked: Vec<AccountId> = (0..7).map(|_| sel.next(&mut rng)).collect();
    assert_eq!(
        picked,
        vec![
            dests[0].clone(),
            dests[1].clone(),
            dests[2].clone(),
            dests[0].clone(),
            dests[1].clone(),
            dests[2].clone(),
            dests[0].clone(),
        ]
    );
}

#[test]
fn random_stays_within_the_list() {
    let dests = vec![acct("alice.sov"), acct("bob.sov"), acct("carol.sov")];
    let mut sel = DestSelector::new(dests.clone(), DestMode::Random).unwrap();
    let mut rng = Rng::seeded(42);
    for _ in 0..1000 {
        let d = sel.next(&mut rng);
        assert!(dests.contains(&d), "random picked an out-of-list address");
    }
}

#[test]
fn empty_destination_list_is_rejected() {
    assert!(DestSelector::new(vec![], DestMode::RoundRobin).is_err());
}

#[test]
fn fixed_amount_returns_the_fixed_value() {
    let mode = AmountMode::Fixed(12_345);
    let mut rng = Rng::seeded(7);
    for _ in 0..100 {
        assert_eq!(mode.pick(&mut rng), 12_345);
    }
}

#[test]
fn range_amount_stays_within_bounds_inclusive() {
    let mode = AmountMode::Range { min: 100, max: 200 };
    mode.validate().unwrap();
    let mut rng = Rng::seeded(99);
    let mut saw_min = false;
    let mut saw_max = false;
    for _ in 0..20_000 {
        let v = mode.pick(&mut rng);
        assert!((100..=200).contains(&v), "amount {v} out of [100,200]");
        saw_min |= v == 100;
        saw_max |= v == 200;
    }
    // Both inclusive endpoints must be reachable.
    assert!(saw_min, "min endpoint never produced");
    assert!(saw_max, "max endpoint never produced");
}

#[test]
fn degenerate_range_min_equals_max_is_constant() {
    let mode = AmountMode::Range { min: 50, max: 50 };
    mode.validate().unwrap();
    let mut rng = Rng::seeded(3);
    for _ in 0..100 {
        assert_eq!(mode.pick(&mut rng), 50);
    }
}

#[test]
fn amount_validation_rejects_bad_shapes() {
    assert!(AmountMode::Fixed(0).validate().is_err());
    assert!(AmountMode::Range { min: 10, max: 5 }.validate().is_err());
    assert!(AmountMode::Range { min: 0, max: 0 }.validate().is_err());
    assert!(AmountMode::Fixed(1).validate().is_ok());
    assert!(AmountMode::Range { min: 0, max: 1 }.validate().is_ok());
}

#[test]
fn tip_off_is_always_zero() {
    let mut rng = Rng::seeded(1);
    for _ in 0..100 {
        assert_eq!(TipMode::Off.pick(&mut rng), 0);
    }
}

#[test]
fn tip_fixed_returns_the_fixed_value() {
    let mode = TipMode::Fixed(5_000);
    let mut rng = Rng::seeded(7);
    for _ in 0..100 {
        assert_eq!(mode.pick(&mut rng), 5_000);
    }
}

#[test]
fn tip_range_stays_within_bounds_inclusive() {
    let mode = TipMode::Range {
        min: 1_000,
        max: 9_000,
    };
    mode.validate().unwrap();
    let mut rng = Rng::seeded(99);
    let (mut saw_min, mut saw_max) = (false, false);
    for _ in 0..20_000 {
        let v = mode.pick(&mut rng);
        assert!((1_000..=9_000).contains(&v), "tip {v} out of range");
        saw_min |= v == 1_000;
        saw_max |= v == 9_000;
    }
    assert!(saw_min && saw_max, "both inclusive endpoints reachable");
}

#[test]
fn tip_validation_rejects_inverted_range() {
    assert!(TipMode::Range { min: 10, max: 5 }.validate().is_err());
    assert!(TipMode::Range { min: 0, max: 0 }.validate().is_ok());
    assert!(TipMode::Fixed(0).validate().is_ok());
    assert!(TipMode::Off.validate().is_ok());
}

#[test]
fn transfer_action_wraps_only_when_auction_live_and_tip_nonzero() {
    let to = acct("sink.sov");
    // Dormant fork: NEVER a Tipped envelope, even with a nonzero bid — the
    // action is byte-identical to a pre-auction transfer.
    match transfer_action(to.clone(), 100, 5_000, false) {
        Action::Transfer { to: t, amount_grains } => {
            assert_eq!(t, to);
            assert_eq!(amount_grains, 100);
        }
        other => panic!("dormant fork must emit a bare Transfer, got {other:?}"),
    }
    // Live fork, zero tip: still bare (a zero bid is a legacy transaction).
    assert!(matches!(
        transfer_action(to.clone(), 100, 0, true),
        Action::Transfer { .. }
    ));
    // Live fork, nonzero tip: a Tipped envelope carrying the inner Transfer.
    match transfer_action(to.clone(), 100, 5_000, true) {
        Action::Tipped { tip_grains, inner } => {
            assert_eq!(tip_grains, 5_000);
            match *inner {
                Action::Transfer { to: t, amount_grains } => {
                    assert_eq!(t, to);
                    assert_eq!(amount_grains, 100);
                }
                other => panic!("inner must be the Transfer, got {other:?}"),
            }
        }
        other => panic!("live auction + tip must emit Tipped, got {other:?}"),
    }
}

#[test]
fn fee_auction_gate_reads_only_an_active_deployment() {
    // Active ⇒ true (the one shape that lets a tip be attached).
    let active = object(vec![
        ("height", Json::Number("11600".to_string())),
        (
            "deployments",
            Json::List(vec![
                deployment("tx-domain", "Active"),
                deployment("fee-auction", "Active"),
            ]),
        ),
    ]);
    assert!(parse_fee_auction_active(&active));

    // Every non-Active state reads as dormant — fail-closed.
    for state in ["Defined", "Started", "LockedIn", "Failed"] {
        let v = object(vec![(
            "deployments",
            Json::List(vec![deployment("fee-auction", state)]),
        )]);
        assert!(
            !parse_fee_auction_active(&v),
            "state {state} must not activate tips"
        );
    }
    // fee-auction absent ⇒ dormant (an older node signalling only tx-domain).
    let only_txd = object(vec![(
        "deployments",
        Json::List(vec![deployment("tx-domain", "Active")]),
    )]);
    assert!(!parse_fee_auction_active(&only_txd));
    // A node too old to report deployments at all ⇒ dormant.
    assert!(!parse_fee_auction_active(&object(vec![])));
    assert!(!parse_fee_auction_active(&object(vec![(
        "deployments",
        Json::List(vec![])
    )])));
    assert!(!parse_fee_auction_active(&text("garbage")));
}

#[test]
fn key_scheme_parsing_matches_keystore_conventions() {
    assert_eq!(KeyScheme::from_keystore(None), Ok(KeyScheme::Ed25519));
    assert_eq!(
        KeyScheme::from_keystore(Some("ed25519")),
        Ok(KeyScheme::Ed25519)
    );
    assert_eq!(
        KeyScheme::from_keystore(Some("hybrid65")),
        Ok(KeyScheme::Hybrid65)
    );
    assert!(KeyScheme::from_keystore(Some("dilithium")).is_err());
}

#[test]
fn parse_xus_round_trips_common_values() {
    assert_eq!(parse_xus("1"), Some(100_000_000));
    assert_eq!(parse_xus("1.5"), Some(150_000_000));
    assert_eq!(parse_xus("0.00000001"), Some(1));
    assert_eq!(parse_xus("0"), Some(0));
    assert_eq!(parse_xus(""), None);
    assert_eq!(parse_xus("1.234567890"), None); // too many decimals
    assert_eq!(parse_xus("abc"), None);
    assert_eq!(grains_to_xus(150_000_000), "1.5");
    assert_eq!(grains_to_xus(100_000_000), "1");
    assert_eq!(grains_to_xus(1), "0.00000001");
}

#[test]
fn fmt_count_groups_thousands() {
    assert_eq!(fmt_count(0), "0");
    assert_eq!(fmt_count(7), "7");
    assert_eq!(fmt_count(999), "999");
    assert_eq!(fmt_count(1_000), "1,000");
    assert_eq!(fmt_count(16_384), "16,384");
    assert_eq!(fmt_count(1_234_567), "1,234,567");
    assert_eq!(fmt_count(u64::MAX), "18,446,744,073,709,551,615");
}

#[test]
fn fmt_xus_is_grouped_trimmed_and_never_empty() {
    assert_eq!(fmt_xus(0), "0");
    assert_eq!(fmt_xus(100_000_000), "1");
    assert_eq!(fmt_xus(21_000), "0.00021");
    assert_eq!(fmt_xus(50_000), "0.0005");
    assert_eq!(fmt_xus(1_234_500_000_000), "12,345");
    assert_eq!(fmt_xus(1_234_500_000_001), "12,345.00000001");
    // Same value, two renderings: machine-readable vs grouped for display.
    assert_eq!(grains_to_xus(1_234_500_000_000), "12345");
}

#[test]
fn heartbeat_tip_choice_resolves_the_bid() {
    let manual = TipMode::Range {
        min: 1_000,
        max: 2_000,
    };
    assert_eq!(
        heartbeat_tip_mode(TipChoice::Auto, manual),
        TipMode::Fixed(SUGGESTED_TIP_GRAINS)
    );
    assert_eq!(heartbeat_tip_mode(TipChoice::Manual, manual), manual);
    assert_eq!(heartbeat_tip_mode(TipChoice::NoTip, manual), TipMode::Off);
}

#[test]
fn no_tip_emits_the_bare_action_and_auto_tip_emits_the_envelope() {
    let mut rng = Rng::seeded(9);
    let to = acct("alice.sov");

    // Auto: a real bid, wrapped for the live auction.
    let tip = heartbeat_tip_mode(TipChoice::Auto, TipMode::Off).pick(&mut rng);
    assert_eq!(tip, SUGGESTED_TIP_GRAINS);
    match transfer_action(to.clone(), 1_000, tip, /* auction_active = */ true) {
        Action::Tipped { tip_grains, inner } => {
            assert_eq!(tip_grains, SUGGESTED_TIP_GRAINS);
            assert!(matches!(*inner, Action::Transfer { .. }));
        }
        other => panic!("auto tip must bid in the auction, got {other:?}"),
    }

    // No tip: the bare action even though the auction IS active — this is the
    // choice that deliberately does not exercise it.
    let tip = heartbeat_tip_mode(TipChoice::NoTip, TipMode::Fixed(9_999)).pick(&mut rng);
    assert_eq!(tip, 0);
    assert!(matches!(
        transfer_action(to.clone(), 1_000, tip, true),
        Action::Transfer { .. }
    ));

    // Dormant fork: byte-identical bare action whatever the operator chose —
    // the toggle can never emit an envelope a dormant chain would reject.
    for choice in [TipChoice::Auto, TipChoice::Manual, TipChoice::NoTip] {
        let tip = heartbeat_tip_mode(choice, TipMode::Fixed(9_999)).pick(&mut rng);
        assert!(
            matches!(
                transfer_action(to.clone(), 1_000, tip, /* auction_active = */ false),
                Action::Transfer { .. }
            ),
            "{choice:?} emitted a tipped action on a dormant chain"
        );
    }
}
