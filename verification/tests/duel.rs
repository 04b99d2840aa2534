//! The auction duel: measurement, per-block outcomes and the verdict.

use sov_tx_cannon::amounts::{
    duel_bid_label, duel_bid_note, duel_bids, TipChoice, TipMode, SUGGESTED_TIP_GRAINS,
};
use sov_tx_cannon::duel::{
    duel_wallet_check, DuelBlock, DuelLedger, DuelSide, DuelStats, Landing, Mean,
    DUEL_HIGH_BID_GRAINS, DUEL_MIN_LANDED,
};
use sov_tx_cannon::heartbeat::Heartbeat;
use sov_tx_cannon::race::{
    block_outcomes, duel_verdict, tally_blocks, BlockOutcome, DuelTally, Verdict, WaitFigures,
};
use sov_tx_cannon::rng::Rng;

/// A mean of `sum` over `count`.
fn mean(sum: u128, count: u64) -> Option<Mean> {
    Some(Mean { sum, count })
}

/// A mean as a float, scaled down.
fn float(m: Option<Mean>, scale: f64) -> f64 {
    match m {
        Some(m) => m.sum as f64 / m.count as f64 / scale,
        None => f64::NAN,
    }
}

/// The figures a display would round.
fn figures(a: &DuelStats, b: &DuelStats) -> WaitFigures {
    let (am, bm) = (float(a.mean_blocks, 1.0), float(b.mean_blocks, 1.0));
    WaitFigures {
        a_blocks: format!("{am:.1}"),
        a_secs: format!("{:.0}", float(a.mean_ms, 1_000.0)),
        b_blocks: format!("{bm:.1}"),
        b_secs: format!("{:.0}", float(b.mean_ms, 1_000.0)),
        gap: format!("{:.1}", (bm - am).abs()),
    }
}

/// The verdict on two sides' figures.
fn judged(a: &DuelStats, b: &DuelStats, t: &DuelTally) -> Verdict {
    duel_verdict(a, b, t, &figures(a, b))
}

#[test]
fn duel_arms_only_with_exactly_two_wallets() {
    // One wallet is not a contest; three means the bid is no longer the only
    // variable. Both refuse, each with its own stated reason.
    assert_eq!(duel_wallet_check(0), Some(DuelBlock::TooFew(0)));
    assert_eq!(duel_wallet_check(1), Some(DuelBlock::TooFew(1)));
    assert_eq!(duel_wallet_check(3), Some(DuelBlock::TooMany(3)));
    assert_eq!(duel_wallet_check(7), Some(DuelBlock::TooMany(7)));
    // Exactly two arms.
    assert_eq!(duel_wallet_check(2), None);
    // The reasons say the number the operator actually selected.
    assert!(DuelBlock::TooFew(1).message().contains('1'));
    assert!(DuelBlock::TooMany(3).message().contains('3'));
    assert!(DuelBlock::TooFew(1).message().contains("EXACTLY two"));
}

#[test]
fn duel_resolves_each_sides_bid_independently() {
    // The demonstrating default: A bids high, B bids nothing at all.
    let (a, b) = duel_bids(
        (TipChoice::Manual, TipMode::Fixed(DUEL_HIGH_BID_GRAINS)),
        (TipChoice::NoTip, TipMode::Fixed(DUEL_HIGH_BID_GRAINS)),
    );
    assert_eq!(a, TipMode::Fixed(DUEL_HIGH_BID_GRAINS));
    assert_eq!(b, TipMode::Off); // bare action: B's manual field is ignored
    assert!(duel_bid_note(a, b).is_none()); // a real contest
    assert_eq!(duel_bid_label(b), "no tip — bare action");

    // Auto resolves to the suggested tip on whichever side chose it, and a
    // range on one side does not disturb the other.
    let (a, b) = duel_bids(
        (TipChoice::Auto, TipMode::Off),
        (TipChoice::Manual, TipMode::Range { min: 1, max: 1_000 }),
    );
    assert_eq!(a, TipMode::Fixed(SUGGESTED_TIP_GRAINS));
    assert_eq!(b, TipMode::Range { min: 1, max: 1_000 });

    // Two identical bids is a null run, and says so rather than pretending to
    // measure the bid.
    let (a, b) = duel_bids(
        (TipChoice::Auto, TipMode::Off),
        (TipChoice::Auto, TipMode::Off),
    );
    assert_eq!(a, b);
    assert!(duel_bid_note(a, b).is_some());
}

#[test]
fn duel_ledger_measures_landings_latency_and_pooling() {
    // A side RUNNING: three transactions submitted one block apart, two of
    // them found in mined blocks (so their index in the block is known) and
    // one only visible through the account nonce.
    let mut l = DuelLedger::new();
    l.on_submit(10, 0, 100);
    l.on_submit(11, 60_000, 100);
    l.on_submit(12, 120_000, 101);
    assert_eq!(l.stats().submitted, 3);
    assert_eq!(l.stats().pooled, 3);
    assert_eq!(l.stats().landed, 0);
    assert_eq!(l.stats().mean_blocks, None); // nothing landed ⇒ no wait to report

    // Block 101 held nonce 10 first of three transactions.
    assert!(l.on_block_hit(101, 10, 0, 3, 90_000));
    // Block 102 held nonce 11 second of four.
    assert!(l.on_block_hit(102, 11, 1, 4, 240_000));
    // A block we did not scan mined nonce 12: the node now reports nonce 13.
    assert_eq!(l.on_node_nonce(13, 400_000, 103), 1);
    // Nothing left to land, and a repeat sweep adds nothing.
    assert_eq!(l.on_node_nonce(13, 500_000, 104), 0);

    let s = l.stats();
    assert_eq!((s.submitted, s.landed, s.pooled), (3, 3, 0));
    // Waits: 101-100 = 1, 102-100 = 2, 103-101 = 2 blocks ⇒ mean 5/3.
    assert_eq!(s.mean_blocks, mean(5, 3));
    assert!((float(s.mean_blocks, 1.0) - 5.0 / 3.0).abs() < 1e-9);
    // Seconds: 90, 180, 280 ⇒ mean 550/3.
    assert_eq!(s.mean_ms, mean(550_000, 3));
    assert!((float(s.mean_ms, 1_000.0) - 550.0 / 3.0).abs() < 1e-9);
    // The ordering is recorded where the block body gave it, and honestly
    // absent where it did not.
    let ls: Vec<Landing> = l.landings().iter().copied().collect();
    assert_eq!(ls[0].index, Some(0));
    assert_eq!(ls[0].txs, Some(3));
    assert_eq!(ls[1].index, Some(1));
    assert_eq!(ls[2].index, None);
    assert_eq!(
        l.positions(),
        vec![(101, Some(0)), (102, Some(1)), (103, None)]
    );

    // A retry of a nonce still in flight is the SAME transaction, not a second.
    let mut r = DuelLedger::new();
    r.on_submit(5, 0, 10);
    r.on_submit(5, 1_000, 11);
    assert_eq!(r.stats().submitted, 1);
    assert_eq!(r.stats().pooled, 1);
    // …and it is timed from the submit that actually stuck.
    assert!(r.on_block_hit(12, 5, 0, 1, 3_000));
    assert_eq!(r.landings()[0].blocks, 1);
    assert_eq!(r.landings()[0].ms, 2_000);
    // A block hit for something never submitted matches nothing.
    assert!(!r.on_block_hit(13, 99, 0, 1, 4_000));
}

#[test]
fn duel_block_outcomes_count_wins_and_intra_block_ordering() {
    // Block 10: A only. 11: both, A ordered first. 12: B only. 13: both,
    // B first. 14: both, ordering unobserved.
    let a = [
        (10u64, Some(0usize)),
        (11, Some(1)),
        (13, Some(4)),
        (14, None),
    ];
    let b = [
        (11u64, Some(3usize)),
        (12, Some(0)),
        (13, Some(2)),
        (14, None),
    ];
    let o = block_outcomes(&a, &b);
    assert_eq!(o.len(), 5);
    assert_eq!(
        o[0],
        BlockOutcome {
            height: 10,
            a: 1,
            b: 0,
            first: None
        }
    );
    assert_eq!(
        o[1],
        BlockOutcome {
            height: 11,
            a: 1,
            b: 1,
            first: Some(DuelSide::A)
        }
    );
    assert_eq!(
        o[2],
        BlockOutcome {
            height: 12,
            a: 0,
            b: 1,
            first: None
        }
    );
    assert_eq!(o[3].first, Some(DuelSide::B));
    assert_eq!(o[4].first, None); // both landed, ordering not observed

    let t = tally_blocks(&o);
    assert_eq!(t.blocks, 5);
    assert_eq!((t.a_wins, t.b_wins, t.shared), (1, 1, 3));
    assert_eq!((t.a_first, t.b_first), (1, 1));

    // Two of a side's transactions in one block count as two, one block.
    let o = block_outcomes(&[(20, Some(0)), (20, Some(1))], &[]);
    assert_eq!(
        o,
        vec![BlockOutcome {
            height: 20,
            a: 2,
            b: 0,
            first: None
        }]
    );
    assert_eq!(tally_blocks(&o).a_wins, 1);
    // No landings at all is an empty sample, not a zero-zero block.
    assert!(block_outcomes(&[], &[]).is_empty());
    assert_eq!(tally_blocks(&[]), DuelTally::default());
}

#[test]
fn duel_verdict_is_inconclusive_on_a_thin_sample() {
    // One landing each is not evidence of anything.
    let a = DuelStats {
        submitted: 2,
        landed: 1,
        pooled: 1,
        mean_blocks: mean(1, 1),
        mean_ms: mean(150_000, 1),
    };
    let b = DuelStats {
        submitted: 2,
        landed: 1,
        pooled: 1,
        mean_blocks: mean(4, 1),
        mean_ms: mean(600_000, 1),
    };
    let v = judged(&a, &b, &DuelTally::default());
    assert!(matches!(v, Verdict::Inconclusive(_)), "{v:?}");
    assert!(v.text().contains("inconclusive"));
    // It says how far off a verdict it is, and what each side has done.
    assert!(v.text().contains(&DUEL_MIN_LANDED.to_string()));
    // Nothing landed at all is also inconclusive, not "no difference".
    let none = DuelStats {
        submitted: 3,
        landed: 0,
        pooled: 3,
        ..DuelStats::default()
    };
    assert!(matches!(
        judged(&none, &none, &DuelTally::default()),
        Verdict::Inconclusive(_)
    ));
}

#[test]
fn duel_verdict_states_only_what_was_measured() {
    let tally = DuelTally {
        blocks: 6,
        a_wins: 3,
        b_wins: 1,
        shared: 2,
        a_first: 2,
        b_first: 0,
    };
    let fast = DuelStats {
        submitted: 6,
        landed: 5,
        pooled: 1,
        mean_blocks: mean(6, 5),
        mean_ms: mean(900_000, 5),
    };
    let slow = DuelStats {
        submitted: 6,
        landed: 4,
        pooled: 2,
        mean_blocks: mean(17, 5),
        mean_ms: mean(2_550_000, 5),
    };

    // The higher bid waited 2.2 blocks less over 9 landings.
    let v = judged(&fast, &slow, &tally);
    assert!(matches!(v, Verdict::HigherBid(_)), "{v:?}");
    assert_eq!(v.word(), "HIGHER BID WINS");
    assert!(v.text().contains("2.2 blocks"));
    assert!(v.text().contains("blocks won A 3 · B 1 · shared 2"));
    assert!(v.text().contains("ordered A first in 2"));

    // Reversed, it is reported as CONTRARY rather than smoothed over.
    let v = judged(&slow, &fast, &tally);
    assert!(matches!(v, Verdict::Contrary(_)), "{v:?}");
    assert!(v.text().contains("LOWER bid landed sooner"));

    // Inside the noise floor it is honestly no difference — the common case
    // on a chain that is nowhere near capacity.
    let near = DuelStats {
        mean_blocks: mean(7, 5),
        ..fast
    };
    let v = judged(&fast, &near, &tally);
    assert!(matches!(v, Verdict::NoDifference(_)), "{v:?}");
    assert!(v.text().contains("no measurable difference"));

    // One side landing and the other not at all: won outright, and the panel
    // still reports B's pooled backlog rather than implying it vanished.
    let stuck = DuelStats {
        submitted: 6,
        landed: 0,
        pooled: 6,
        mean_blocks: None,
        mean_ms: None,
    };
    let v = judged(&fast, &stuck, &tally);
    assert!(matches!(v, Verdict::HigherBid(_)), "{v:?}");
    assert!(v.text().contains("only the higher bid is landing"));
    assert!(v.text().contains('6'));
    let v = judged(&stuck, &fast, &tally);
    assert!(matches!(v, Verdict::Contrary(_)), "{v:?}");
}

#[test]
fn a_running_duel_measures_the_race_and_reaches_a_verdict() {
    // The whole pure pipeline in its RUNNING state: the shared pacer issues a
    // PAIR of submissions per beat, blocks arrive, both sides' landings are
    // observed off the block bodies, and the verdict is computed from them.
    //
    // The scripted chain: a 150 s block time, one pair every 60 s. Side A (the
    // high bid) is included in the very next block; side B (no bid) waits two
    // further blocks and is then included after A in the shared blocks.
    let mut a = DuelLedger::new();
    let mut b = DuelLedger::new();
    let mut beat = Heartbeat::new(60_000, 0); // jitter OFF — both sides in phase
    let mut rng = Rng::seeded(7);
    let mut nonce = 0u64;
    let mut submitted: Vec<(u64, u64, u64)> = Vec::new(); // (nonce, ms, height)

    // Ten minutes of duel: the pacer decides WHEN, and both sides submit the
    // same nonce sequence at the same instant — the controlled part.
    for now in (0..600_000u64).step_by(1_000) {
        if beat.due(now) {
            let height = 100 + now / 150_000; // a block every 150 s
            a.on_submit(nonce, now, height);
            b.on_submit(nonce, now, height);
            submitted.push((nonce, now, height));
            nonce += 1;
            beat.on_submitted(now, &mut rng);
        }
    }
    assert_eq!(submitted.len(), 10); // one pair a minute for ten minutes
    assert_eq!(a.stats().submitted, b.stats().submitted); // held equal

    // Now the chain includes them. A lands in the next block after its submit;
    // B lands two blocks later than A, and after A when they share a block.
    for (n, ms, h) in &submitted {
        let a_h = h + 1;
        a.on_block_hit(a_h, *n, 0, 4, ms + 150_000);
        let b_h = h + 3;
        b.on_block_hit(b_h, *n, 2, 4, ms + 450_000);
    }

    let (sa, sb) = (a.stats(), b.stats());
    assert_eq!((sa.landed, sa.pooled), (10, 0));
    assert_eq!((sb.landed, sb.pooled), (10, 0));
    assert_eq!(float(sa.mean_blocks, 1.0), 1.0);
    assert_eq!(float(sb.mean_blocks, 1.0), 3.0);
    assert_eq!(float(sa.mean_ms, 1_000.0), 150.0);
    assert_eq!(float(sb.mean_ms, 1_000.0), 450.0);

    let outcomes = block_outcomes(&a.positions(), &b.positions());
    let tally = tally_blocks(&outcomes);
    // Every block in the sample was landed in by someone, and where both
    // sides share one, A was ordered first — which is the ordering claim the
    // block bodies actually support.
    assert_eq!(tally.blocks, outcomes.len());
    assert_eq!(tally.b_first, 0);
    assert!(tally.a_wins > 0, "{tally:?}");
    assert_eq!(tally.a_first, tally.shared);

    // What is found is that the higher bid landed two blocks sooner, stated from the
    // measured numbers.
    let v = judged(&sa, &sb, &tally);
    assert!(matches!(v, Verdict::HigherBid(_)), "{v:?}");
    assert!(v.text().contains("2.0 blocks"));
    assert!(v.text().contains("over 20 landings"));

    // And the same pipeline early in the run, after ONE pair, honestly refuses
    // to conclude anything.
    let (mut ea, mut eb) = (DuelLedger::new(), DuelLedger::new());
    ea.on_submit(0, 0, 100);
    eb.on_submit(0, 0, 100);
    ea.on_block_hit(101, 0, 0, 2, 150_000);
    let early_outcomes = block_outcomes(&ea.positions(), &eb.positions());
    let v = judged(&ea.stats(), &eb.stats(), &tally_blocks(&early_outcomes));
    assert!(matches!(v, Verdict::Inconclusive(_)), "{v:?}");
    assert!(v.text().contains("inconclusive so far"));
}
