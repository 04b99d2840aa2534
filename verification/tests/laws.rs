//! What holds of the library as a whole, on concrete values.

use sov_tx_cannon::adversary::{
    expect_bad_signature, plan, verdict, verdict_showing, verification_mode, ActivationPhase,
    Expect, Observation, Observed, Scenario, SignedUnder, Step, Verdict,
};
use sov_tx_cannon::amounts::{AmountMode, TipChoice, TipMode};
use sov_tx_cannon::auction::{LadderMode, TipPolicy, TipSelector};
use sov_tx_cannon::actionmix::{ActionKind, ActionMix};
use sov_tx_cannon::confirm::{
    BlockId, ConfirmTracker, DropReason, Dropped, TrackerEvent, TxId, MAX_IN_FLIGHT,
};
use sov_tx_cannon::chain::{
    AccountId, Action, PublicKey, Signature, SigningDomain, TxDomainMode,
};
use sov_tx_cannon::dest::{DestMode, DestSelector};
use sov_tx_cannon::duel::{DuelLedger, DuelStats, Mean, DUEL_MAX_SAMPLES};
use sov_tx_cannon::heartbeat::{
    heartbeat_halt, interval_in_band, Heartbeat, HeartbeatHalt, HeartbeatLimits,
};
use sov_tx_cannon::meter::{MeterKind, RateMeter};
use sov_tx_cannon::race::{block_outcomes, duel_verdict, tally_blocks, DuelTally, WaitFigures};
use sov_tx_cannon::redteam::{
    close_probe, ed_half, judge, open_probe, tamper_signature, Attack, Half, Payload, Reply,
};
use sov_tx_cannon::reject::RejectClass;
use sov_tx_cannon::rng::Rng;
use sov_tx_cannon::transfer::{transfer_body, KeyScheme};
use sov_tx_cannon::worker::short_hash;
use sov_tx_cannon::xus::{fmt_xus, grains_to_xus, parse_xus};

#[test]
fn a_seeded_generator_is_reproducible() {
    let mut r = Rng::seeded(1);
    assert_eq!(r.below(1_000), 157);
    let mut r = Rng::seeded(1);
    assert_eq!(r.below(u128::MAX), 95_563_215_545_496_563_013_779_150_932_775_888_157);
    // A bound of nothing draws nothing.
    let mut a = Rng::seeded(9);
    let mut b = Rng::seeded(9);
    assert_eq!(a.below(0), 0);
    assert_eq!(a.below(1 << 100), b.below(1 << 100));
    // The lowest bit of a seed is forced, and bytes are read least significant first.
    let mut a = Rng::seeded(2);
    let mut b = Rng::seeded(3);
    let mut c = Rng::from_bytes([2, 0, 0, 0, 0, 0, 0, 0]);
    let x = a.below(1 << 100);
    assert_eq!(x, b.below(1 << 100));
    assert_eq!(x, c.below(1 << 100));
    let mut d = Rng::from_bytes([1, 2, 3, 4, 5, 6, 7, 8]);
    assert_eq!(
        d.below(1 << 100),
        Rng::seeded(0x0807_0605_0403_0201).below(1 << 100)
    );
}

#[test]
fn entropy_seeds_generators_apart() {
    let draws: std::collections::HashSet<u128> = (0..8)
        .map(|_| Rng::from_entropy().unwrap().below(u128::MAX))
        .collect();
    assert!(draws.len() > 1);
}

#[test]
fn plain_amounts_parse_back() {
    for g in [0u128, 1, 99_999_999, 100_000_000, 123_456_789_012, u128::MAX] {
        assert_eq!(parse_xus(&grains_to_xus(g)), Some(g));
    }
    // The display only adds separators, wherever the whole part fits in 64 bits.
    let widest = (u64::MAX as u128) * 100_000_000 + 99_999_999;
    for g in [0u128, 1, 99_999_999_999, 100_000_000_000, 123_456_789_012_345_678, widest] {
        assert_eq!(fmt_xus(g).replace(',', ""), grains_to_xus(g));
    }
    // The display groups, and saturates beyond what a count can hold.
    assert_eq!(fmt_xus(u128::MAX), "18,446,744,073,709,551,615.68211455");
    // One more than the largest amount does not fit.
    assert_eq!(parse_xus("3402823669209384634633746074317.68211456"), None);
    assert_eq!(parse_xus("1."), Some(100_000_000));
    assert_eq!(parse_xus(".5"), None);
    assert_eq!(parse_xus("1.2.3"), None);
    assert_eq!(parse_xus(" 2 "), Some(200_000_000));
    assert_eq!(parse_xus("+1"), None);
}

#[test]
fn round_robin_pays_everyone_in_turn() {
    let dests: Vec<AccountId> = (0..5).map(|i| AccountId::new(format!("d{i}.sov"))).collect();
    let mut sel = DestSelector::new(dests, DestMode::RoundRobin).unwrap();
    let mut rng = Rng::seeded(1);
    for k in 0..23 {
        assert_eq!(sel.next(&mut rng).as_str(), format!("d{}.sov", k % 5));
    }
}

#[test]
fn the_largest_draw_bounds_every_draw() {
    assert_eq!(AmountMode::Fixed(7).largest(), 7);
    assert_eq!(AmountMode::Range { min: 2, max: 9 }.largest(), 9);
    assert_eq!(TipMode::Off.largest(), 0);
    assert_eq!(TipMode::Fixed(7).largest(), 7);
    assert_eq!(TipMode::Range { min: 2, max: 9 }.largest(), 9);
    let labels = [TipChoice::Auto, TipChoice::Manual, TipChoice::NoTip].map(|c| c.label());
    assert_eq!(labels, ["Auto tip", "Manual tip", "No tip"]);
    assert!(TipChoice::NoTip.consequence().contains("NOT exercised"));
}

#[test]
fn a_window_counts_what_happened_in_it() {
    let mut m = RateMeter::new(3);
    for (at, kind) in [
        (0, MeterKind::Accepted),
        (999, MeterKind::Accepted),
        (1_000, MeterKind::RejOther),
        (2_500, MeterKind::Accepted),
        (4_000, MeterKind::Accepted),
    ] {
        m.record(at, kind);
    }
    // Seconds 2, 3 and 4.
    assert_eq!(m.window_count(4_999, MeterKind::Accepted), 2);
    assert_eq!(m.window_count(4_999, MeterKind::RejOther), 0);
    assert_eq!(m.window_count(5_000, MeterKind::Accepted), 1);
    assert_eq!(m.window_count(7_000, MeterKind::Accepted), 0);
    assert_eq!(m.total(MeterKind::Accepted), 4);
    assert_eq!(RateMeter::new(0).window_secs(), 1);
}

#[test]
fn one_catch_up_clears_the_deficit() {
    let mut h = Heartbeat::new(10_000, 0);
    let mut rng = Rng::seeded(1);
    h.on_submitted(0, &mut rng);
    // Exactly two intervals late is not yet a stall.
    h.on_submitted(30_000, &mut rng);
    assert!(h.due(30_000));
    h.on_submitted(30_000, &mut rng);
    assert_eq!(h.wait_ms(30_000), 0);
    h.on_submitted(30_000, &mut rng);
    assert_eq!(h.wait_ms(30_000), 10_000);
    // A millisecond later it would have been one.
    let mut h = Heartbeat::new(10_000, 0);
    h.on_submitted(0, &mut rng);
    h.on_submitted(30_001, &mut rng);
    assert_eq!(h.wait_ms(30_001), 10_000);
}

#[test]
fn jitter_stays_around_the_schedule() {
    let mut rng = Rng::seeded(5);
    let mut h = Heartbeat::new(10_000, 90);
    for beat in 1..200u64 {
        let now = (beat - 1) * 10_000;
        h.on_submitted(now, &mut rng);
        let next = now + h.wait_ms(now);
        assert!(next + 9_000 >= beat * 10_000 && next <= beat * 10_000 + 9_000);
    }
    // The bands are enforced, and an extreme clock does not wrap.
    assert_eq!(Heartbeat::new(1, 500).interval_ms(), 5_000);
    assert_eq!(Heartbeat::new(u64::MAX, 0).interval_ms(), 3_600_000);
    let mut h = Heartbeat::new(10_000, 0);
    h.on_submitted(u64::MAX, &mut rng);
    assert!(h.due(u64::MAX));
}

#[test]
fn an_interval_is_accepted_only_in_its_band() {
    assert_eq!(interval_in_band(5_000), Ok(5_000));
    assert_eq!(interval_in_band(3_600_000), Ok(3_600_000));
    assert_eq!(
        interval_in_band(4_999).unwrap_err(),
        "too fast for a heartbeat — keep it at or below one tx every 5 s (30.0 tx/block); \
         use Target TX/s to push harder"
    );
    assert_eq!(
        interval_in_band(3_600_001).unwrap_err(),
        "too slow — keep it at or under one tx every 60 min"
    );
}

#[test]
fn halts_are_explained() {
    assert_eq!(
        HeartbeatHalt::BalanceFloor {
            balance: 100_050_000,
            reserve: 100_000_000
        }
        .message(),
        "paused at the balance floor — 1.0005 XUS left, reserve is 1 XUS"
    );
    assert_eq!(
        HeartbeatHalt::TxCap(12_345).message(),
        "session cap reached — 12,345 transactions submitted"
    );
    assert_eq!(
        HeartbeatHalt::SpendCap(50_000).message(),
        "session spend cap reached — 0.0005 XUS spent"
    );
    // A cost beyond the balance leaves nothing, which a reserve of nothing allows.
    let open = HeartbeatLimits::reserve_only(0);
    assert_eq!(heartbeat_halt(&open, Some(1), 0, 0, 2), None);
    let held = HeartbeatLimits::reserve_only(1);
    assert!(heartbeat_halt(&held, Some(1), 0, 0, 2).is_some());
}

#[test]
fn a_rescan_counts_nothing_and_the_newest_landings_stay() {
    let mut l = DuelLedger::new();
    let n = DUEL_MAX_SAMPLES as u64 + 88;
    for nonce in 0..n {
        l.on_submit(nonce, nonce * 10, 100);
    }
    for nonce in 0..n {
        assert!(l.on_block_hit(101, nonce, 0, 1, nonce * 10 + 5));
        assert!(!l.on_block_hit(101, nonce, 0, 1, nonce * 10 + 9));
    }
    assert_eq!(l.landings().len(), DUEL_MAX_SAMPLES);
    assert_eq!(l.landings()[0].nonce, 88);
    // The means still cover every landing.
    let s = l.stats();
    assert_eq!(s.landed, n);
    assert_eq!(
        s.mean_ms,
        Some(Mean {
            sum: u128::from(n) * 5,
            count: n
        })
    );
}

#[test]
fn the_nodes_nonce_settles_what_lies_below() {
    let mut l = DuelLedger::default();
    for nonce in [3u64, 4, 7, 9] {
        l.on_submit(nonce, 0, 10);
    }
    assert_eq!(l.on_node_nonce(8, 1_000, 12), 3);
    assert_eq!(l.stats().pooled, 1);
    assert!(l.on_block_hit(13, 9, 2, 5, 2_000));
    assert_eq!(
        l.positions(),
        vec![(12, None), (12, None), (12, None), (13, Some(2))]
    );
    // Nonces that went out of order are settled all the same.
    let mut odd = DuelLedger::new();
    for nonce in [9u64, 2, 8, 1] {
        odd.on_submit(nonce, 0, 10);
    }
    assert_eq!(odd.on_node_nonce(8, 1_000, 12), 2);
    let nonces: Vec<u64> = odd.landings().iter().map(|l| l.nonce).collect();
    assert_eq!(nonces, vec![2, 1]);
    assert_eq!(odd.stats().pooled, 2);
    // A clock or a height that went back reads as no wait.
    l.on_submit(20, 5_000, 50);
    assert!(l.on_block_hit(40, 20, 0, 1, 4_000));
    assert_eq!((l.landings()[4].blocks, l.landings()[4].ms), (0, 0));
}

fn side(landed: u64, mean: Option<(u128, u64)>) -> DuelStats {
    DuelStats {
        submitted: landed,
        landed,
        pooled: 0,
        mean_blocks: mean.map(|(sum, count)| Mean { sum, count }),
        mean_ms: mean.map(|(sum, count)| Mean {
            sum: sum * 150_000,
            count,
        }),
    }
}

fn headline(a: &DuelStats, b: &DuelStats) -> &'static str {
    let figures = WaitFigures {
        a_blocks: "1.0".to_string(),
        a_secs: "150".to_string(),
        b_blocks: "2.0".to_string(),
        b_secs: "300".to_string(),
        gap: "1.0".to_string(),
    };
    duel_verdict(a, b, &DuelTally::default(), &figures).word()
}

#[test]
fn half_a_block_decides_and_the_sides_are_treated_alike() {
    // Exactly half a block apart, and a hair less.
    let (a, b) = (side(4, Some((4, 4))), side(4, Some((6, 4))));
    assert_eq!(headline(&a, &b), "HIGHER BID WINS");
    assert_eq!(headline(&b, &a), "CONTRARY");
    let c = side(1_000, Some((1_499, 1_000)));
    assert_eq!(headline(&a, &c), "NO DIFFERENCE");
    assert_eq!(headline(&c, &a), "NO DIFFERENCE");
    // Three landings say nothing, however far apart.
    let (a, b) = (side(3, Some((0, 3))), side(0, None));
    assert_eq!(headline(&a, &b), "INCONCLUSIVE");
    let a = side(4, Some((0, 4)));
    assert_eq!(headline(&a, &b), "HIGHER BID WINS");
    assert_eq!(headline(&b, &a), "CONTRARY");
    // Sums and counts at their largest do not overflow.
    let big = side(u64::MAX, Some((u128::MAX, u64::MAX)));
    let small = side(u64::MAX, Some((0, u64::MAX)));
    assert_eq!(headline(&small, &big), "HIGHER BID WINS");
    assert_eq!(headline(&big, &big), "NO DIFFERENCE");
}

#[test]
fn every_block_is_won_or_shared() {
    let a = [(5u64, Some(1usize)), (3, None), (5, Some(0)), (9, Some(4))];
    let b = [(9u64, Some(4usize)), (4, Some(0)), (3, Some(0))];
    let o = block_outcomes(&a, &b);
    let heights: Vec<u64> = o.iter().map(|x| x.height).collect();
    assert_eq!(heights, vec![3, 4, 5, 9]);
    let t = tally_blocks(&o);
    assert_eq!(t.a_wins + t.b_wins + t.shared, t.blocks as u64);
    assert_eq!((t.a_wins, t.b_wins, t.shared), (1, 1, 2));
    // One index unknown, and one tied: no side was first.
    assert_eq!((t.a_first, t.b_first), (0, 0));
}

#[test]
fn a_dormant_auction_sees_no_tip() {
    let key = || PublicKey {
        bytes: vec![1, 2, 3],
    };
    let from = AccountId::new("cannon.sov".to_string());
    let to = AccountId::new("target.sov".to_string());
    let dormant = transfer_body(key(), &from, &to, 42_000, 7_000, false, 3);
    let untipped = transfer_body(key(), &from, &to, 42_000, 0, true, 3);
    assert_eq!(dormant, untipped);
    assert_eq!(dormant.signer, from);
    assert_eq!(dormant.public_key.bytes, vec![1, 2, 3]);
    assert_eq!(dormant.nonce, 3);
    let live = transfer_body(key(), &from, &to, 42_000, 7_000, true, 3);
    assert_ne!(live, dormant);
    assert!(matches!(live.action, Action::Tipped { tip_grains: 7_000, .. }));
    assert_eq!(
        KeyScheme::from_keystore(Some("dilithium")).unwrap_err(),
        "unknown key scheme `dilithium`"
    );
}

#[test]
fn a_ladder_that_does_not_ascend_is_refused_with_a_reason() {
    let ladder = |rungs: Vec<u128>| TipPolicy::Ladder {
        rungs,
        mode: LadderMode::Random,
    };
    for p in [
        TipPolicy::Fixed(0),
        ladder(vec![]),
        ladder(vec![0]),
        ladder(vec![2, 1]),
    ] {
        assert!(!p.validate().unwrap_err().is_empty());
    }
    let s = TipSelector::new(ladder(vec![10, 20])).unwrap();
    let keys: Vec<u8> = [0u128, 5, 10, 15, 20, 99]
        .iter()
        .map(|t| s.bucket_key(*t))
        .collect();
    assert_eq!(keys, vec![0, 1, 2, 2, 3, 3]);
}

#[test]
fn the_expected_wording_is_shown_in_quotation_marks() {
    let step = plan(Scenario::Gap, 7)[0];
    let obs = Observation {
        outcome: Observed::Accepted,
        next_nonce_before: 7,
        next_nonce_after: 7,
    };
    let v = verdict(&step, &obs);
    assert!(v.reason().contains("NonceGap/\"nonce gap\" rejection"));
    assert_eq!(v.label(), "MISMATCH");
    let shown = verdict_showing(&step, &obs, "<wording>");
    assert_eq!(
        shown.reason(),
        "the node ACCEPTED nonce 9 while its own next mineable nonce was 7, and the hole below \
         survived the submit. Gap-free admission requires a NonceGap/<wording> rejection \
         (mempool: nonce > current + pooled ⇒ NonceGap)"
    );
    // A wording with a quotation mark of its own is escaped.
    let odd = Step {
        expect: Expect::Rejected {
            class: RejectClass::Other,
            marker: "a\"b",
        },
        ..step
    };
    let obs = Observation {
        outcome: Observed::Rejected("transport: gone".to_string()),
        next_nonce_before: 7,
        next_nonce_after: 7,
    };
    let v = verdict(&odd, &obs);
    assert!(matches!(v, Verdict::Inconclusive(_)));
    assert!(v.reason().contains("(\"a\\\"b\")"), "{}", v.reason());
    let Expect::Rejected { class, marker } = expect_bad_signature() else {
        panic!("a refusal is expected")
    };
    assert_eq!((class, marker), (RejectClass::Other, "invalid transaction signature"));
}

#[test]
fn each_phase_verifies_under_its_own_mode() {
    let d = SigningDomain::new("sov-mainnet".to_string(), [4; 32]);
    assert_eq!(
        verification_mode(ActivationPhase::Legacy, &d),
        TxDomainMode::Legacy
    );
    assert_eq!(
        verification_mode(ActivationPhase::Grace, &d),
        TxDomainMode::Grace(d.clone())
    );
    assert_eq!(
        verification_mode(ActivationPhase::Bound, &d),
        TxDomainMode::Bound(d.clone())
    );
    assert_eq!(SignedUnder::all().len(), 3);
}

#[test]
fn tampering_changes_exactly_one_half() {
    let sig = || Signature::V2HybridMlDsa65 {
        ed25519: [7; 64],
        ml_dsa: vec![9; 3_309],
    };
    let ed = tamper_signature(sig(), Half::Ed25519);
    let pq = tamper_signature(sig(), Half::MlDsa);
    let parts = |s: &Signature| match s {
        Signature::V2HybridMlDsa65 { ed25519, ml_dsa } => (*ed25519, ml_dsa.clone()),
        Signature::V1Ed25519(b) => (*b, vec![]),
    };
    let (a, b) = parts(&ed);
    assert_eq!((a[0], a[1]), (7 ^ 0xff, 7));
    assert_eq!(b, vec![9; 3_309]);
    let (a, b) = parts(&pq);
    assert_eq!(a, [7; 64]);
    assert_eq!((b[0], b[1]), (9 ^ 0xff, 9));
    assert_eq!(ed_half(&sig()), [7; 64]);
    assert_eq!(ed_half(&Signature::V1Ed25519([5; 64])), [5; 64]);
    // A classical signature has no second half, and is left alone.
    let classical = tamper_signature(Signature::V1Ed25519([5; 64]), Half::Ed25519);
    assert_eq!(classical, Signature::V1Ed25519([5; 64]));
}

#[test]
fn a_probe_fires_only_where_it_may_and_judges_every_reply() {
    let open = |reachable, chain: Option<&str>, confirmed| {
        open_probe(
            "127.0.0.1:8645".to_string(),
            reachable,
            chain.map(|c| c.to_string()),
            confirmed,
        )
    };
    assert!(!open(false, None, true).cleared());
    let blocked = open(true, Some("sov-mainnet"), false);
    assert!(blocked.blocked && blocked.is_mainnet && !blocked.cleared());
    assert!(open(true, Some("sov-mainnet"), true).cleared());
    let report = open(true, Some("sov-dev"), false);
    assert!(report.cleared());

    let attack = |name| Attack {
        category: "rpc",
        name,
        payload: Payload::Call {
            method: "sov_nothing",
            params: sov_tx_cannon::json::Json::Null,
        },
    };
    let attacks = vec![attack("one"), attack("two")];
    let replies = vec![
        Reply::Rejected("unknown method".to_string()),
        Reply::Rejected("bad body".to_string()),
    ];
    let r = close_probe(report, &attacks, &replies, Some(5), Some(5));
    assert!(r.passed());
    assert_eq!(r.counts(), (2, 0, 0));
    assert_eq!(r.outcomes[1].name, "two");

    // Each kind of reply has its own verdict.
    let verdicts: Vec<sov_tx_cannon::redteam::Verdict> = [
        Reply::Admitted,
        Reply::Rejected("no".to_string()),
        Reply::Unreachable("refused".to_string()),
    ]
    .iter()
    .map(|r| judge("rpc", "x", r).verdict)
    .collect();
    assert_eq!(
        verdicts,
        vec![
            sov_tx_cannon::redteam::Verdict::Vulnerable,
            sov_tx_cannon::redteam::Verdict::Defended,
            sov_tx_cannon::redteam::Verdict::Info
        ]
    );
}

#[test]
fn a_clean_cadence_follows_a_stall() {
    let mut hb = Heartbeat::new(10_000, 0);
    let mut rng = Rng::seeded(3);
    hb.on_submitted(0, &mut rng);
    hb.on_submitted(200_000, &mut rng);
    assert_eq!(hb.wait_ms(200_000), 10_000);
    // The submission that re-anchored the schedule is its first.
    hb.on_submitted(210_000, &mut rng);
    assert_eq!(hb.wait_ms(210_000), 10_000);
    hb.on_submitted(223_000, &mut rng);
    assert_eq!(hb.wait_ms(223_000), 7_000);
}

fn tx(n: u64) -> TxId {
    let mut b = [0u8; 32];
    b[..8].copy_from_slice(&n.to_le_bytes());
    TxId::new(b)
}

fn dropped(events: &[TrackerEvent]) -> Vec<Dropped> {
    events
        .iter()
        .map(|e| match e {
            TrackerEvent::Dropped(d) => *d,
            other => panic!("unexpected {other:?}"),
        })
        .collect()
}

#[test]
fn a_new_registration_of_a_dropped_id_is_the_newest() {
    let (a, b) = (TxId::new([1; 32]), TxId::new([2; 32]));
    let mut t = ConfirmTracker::new();
    t.register(a, 0, 1, 0, 0);
    t.register(b, 900, 1, 0, 0);
    assert_eq!(t.expire(1_000, 500).len(), 1);
    t.register(a, 2_000, 1, 0, 0);
    let gone = dropped(&t.expire(10_000, 1));
    let seen: Vec<(TxId, u64, DropReason)> =
        gone.iter().map(|d| (d.txid, d.age_ms, d.reason)).collect();
    assert_eq!(
        seen,
        vec![
            (b, 9_100, DropReason::Expired),
            (a, 8_000, DropReason::Expired)
        ]
    );
}

#[test]
fn a_rollback_keeps_the_cap_and_sheds_the_oldest() {
    let mut t = ConfirmTracker::new();
    let cap = MAX_IN_FLIGHT as u64;
    t.register(tx(0), 0, 1, 0, 0);
    t.register(tx(1), 1, 1, 0, 0);
    t.register(tx(2), 2, 1, 0, 0);
    assert_eq!(t.observe_block(5, BlockId::new([5; 32]), &[tx(0), tx(1)], 10).len(), 2);
    for n in 3..cap + 2 {
        assert!(t.register(tx(n), n, 1, 0, 0).is_none());
    }
    assert_eq!(t.in_flight_len(), MAX_IN_FLIGHT);
    // The replacing block confirms one of the two again; the other returns to flight. It is
    // still the oldest registration, so it is the one that is shed.
    let events = t.observe_block(5, BlockId::new([6; 32]), &[tx(1)], 100);
    assert_eq!(events.len(), 4);
    assert!(matches!(events[0], TrackerEvent::Unmined(_)));
    assert!(matches!(events[1], TrackerEvent::Unmined(_)));
    assert!(matches!(events[2], TrackerEvent::Confirmed(c) if c.txid == tx(1)));
    let shed = dropped(&events[3..])[0];
    assert_eq!(
        (shed.txid, shed.age_ms, shed.reason),
        (tx(0), 100, DropReason::CapacityEvicted)
    );
    assert_eq!(t.in_flight_len(), MAX_IN_FLIGHT);
    assert!(t.in_flight(&tx(0)).is_none());
    assert!(t.in_flight(&tx(2)).is_some());
    assert_eq!(t.confirmed_height(&tx(1)), Some(5));
    // Every registration is accounted for.
    let s = t.stats();
    assert_eq!(s.in_flight + s.confirmed + s.dropped_expired + s.dropped_evicted, cap + 2);
    assert_eq!(s.in_flight, cap);
}

#[test]
fn a_reorg_keeps_the_registration_order() {
    let mut t = ConfirmTracker::new();
    let (a, b, c) = (tx(1), tx(2), tx(3));
    t.register(a, 0, 1, 0, 0);
    t.register(b, 10, 1, 0, 0);
    t.register(c, 20, 1, 0, 0);
    assert_eq!(t.observe_block(5, BlockId::new([5; 32]), &[a, b], 30).len(), 2);
    // Both come back from the replaced block, before what was registered after them.
    assert_eq!(t.observe_block(5, BlockId::new([6; 32]), &[], 40).len(), 2);
    let swept = t.expire(100, 0);
    let ids: Vec<_> = dropped(&swept).iter().map(|d| d.txid).collect();
    assert_eq!(ids, vec![a, b, c]);
}

#[test]
fn a_late_inclusion_that_is_reorged_keeps_its_place() {
    let mut t = ConfirmTracker::new();
    let (a, b) = (tx(1), tx(2));
    t.register(a, 0, 1, 0, 0);
    assert_eq!(t.expire(50, 50).len(), 1);
    t.register(b, 60, 1, 0, 0);
    assert_eq!(t.observe_block(5, BlockId::new([5; 32]), &[a], 70).len(), 1);
    assert_eq!(t.observe_block(5, BlockId::new([6; 32]), &[], 80).len(), 1);
    let swept = t.expire(200, 0);
    let ids: Vec<_> = dropped(&swept).iter().map(|d| d.txid).collect();
    assert_eq!(ids, vec![a, b]);
}

#[test]
fn the_oldest_in_flight_is_shed_past_those_that_were_mined() {
    let mut t = ConfirmTracker::new();
    let cap = MAX_IN_FLIGHT as u64;
    for n in 0..cap {
        assert!(t.register(tx(n), n, 1, 0, 0).is_none());
    }
    assert_eq!(t.observe_block(5, BlockId::new([5; 32]), &[tx(0), tx(2)], 10).len(), 2);
    assert!(t.register(tx(cap), cap, 1, 0, 0).is_none());
    assert!(t.register(tx(cap + 1), cap, 1, 0, 0).is_none());
    for (n, victim) in [(cap + 2, 1), (cap + 3, 3), (cap + 4, 4)] {
        let shed = t.register(tx(n), cap, 1, 0, 0).into_iter().collect::<Vec<_>>();
        assert_eq!(dropped(&shed)[0].txid, tx(victim));
    }
    // Taken back, the two are the oldest once more.
    let events = t.observe_block(5, BlockId::new([6; 32]), &[], 20);
    assert_eq!(events.len(), 4);
    let ids: Vec<_> = dropped(&events[2..]).iter().map(|d| d.txid).collect();
    assert_eq!(ids, vec![tx(0), tx(2)]);
    assert_eq!(t.in_flight_len(), MAX_IN_FLIGHT);
}

#[test]
fn the_whole_width_can_be_drawn_from() {
    let whole = AmountMode::Range {
        min: 0,
        max: u128::MAX,
    };
    assert!(whole.validate().is_ok());
    let (mut a, mut b) = (Rng::seeded(1), Rng::seeded(1));
    assert_eq!(
        whole.pick(&mut a),
        95_563_215_545_496_563_013_779_150_932_775_888_157
    );
    // A narrower range draws the same word, reduced.
    let narrow = AmountMode::Range { min: 5, max: 1_004 };
    assert_eq!(narrow.pick(&mut b), 162);
    assert_eq!(
        TipMode::Range {
            min: 0,
            max: u128::MAX
        }
        .pick(&mut a),
        TipMode::Range {
            min: 0,
            max: u128::MAX
        }
        .pick(&mut b)
    );
}

#[test]
fn texts_are_shortened_by_bytes() {
    assert_eq!(short_hash("0123456789ab"), "0123456789ab");
    assert_eq!(short_hash("0123456789abc"), "012345…9abc");
    assert_eq!(short_hash("žžžžž"), "žžžžž");
    assert_eq!(short_hash("žžžžžž"), "žžžžžž");
    assert_eq!(short_hash("žžžžžžž"), "žžž…žž");
    assert_eq!(short_hash("čččččččččččččč"), "ččč…čč");
    assert_eq!(short_hash("€€a€€€abcd"), "€€…abcd");
}

#[test]
fn weights_up_to_the_largest_sum_keep_their_proportion() {
    let mix = ActionMix::new(&[
        (ActionKind::NftMint, 0),
        (ActionKind::Transfer, u64::MAX - 1),
        (ActionKind::TokenIssue, 1),
    ])
    .unwrap();
    assert_eq!(mix.total_weight(), u64::MAX);
    assert_eq!(mix.pick(u128::from(u64::MAX) - 2), ActionKind::Transfer);
    assert_eq!(mix.pick(u128::from(u64::MAX) - 1), ActionKind::TokenIssue);
    assert_eq!(mix.pick(u128::from(u64::MAX)), ActionKind::Transfer);
}

#[test]
fn tampering_twice_restores_a_half() {
    let sig = || Signature::V2HybridMlDsa65 {
        ed25519: [7; 64],
        ml_dsa: vec![9; 3_309],
    };
    assert_eq!(tamper_signature(tamper_signature(sig(), Half::MlDsa), Half::MlDsa), sig());
    assert_eq!(
        tamper_signature(tamper_signature(sig(), Half::Ed25519), Half::Ed25519),
        sig()
    );
}
