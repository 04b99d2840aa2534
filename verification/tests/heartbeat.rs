//! The heartbeat's schedule and its safety rails.

use sov_tx_cannon::heartbeat::{
    heartbeat_halt, Heartbeat, HeartbeatHalt, HeartbeatLimits, HEARTBEAT_JITTER_PCT,
};
use sov_tx_cannon::rng::Rng;

/// Run a heartbeat against a scripted clock and return the instants at which
/// it actually submitted. `step_ms` is the polling granularity of the worker
/// loop; `stalls` inserts a jump of the given length at the given time.
fn beat_times(hb: &mut Heartbeat, rng: &mut Rng, until_ms: u64, step_ms: u64) -> Vec<u64> {
    let mut fired = Vec::new();
    let mut now = 0u64;
    while now <= until_ms {
        // Exactly the worker's inner loop: fire every due beat, then wait.
        while hb.due(now) {
            fired.push(now);
            hb.on_submitted(now, rng);
        }
        now += step_ms;
    }
    fired
}

#[test]
fn heartbeat_holds_the_target_cadence_and_never_bunches() {
    // One hour at one tx every 10 s, 20% jitter, polled 4× a second.
    let mut hb = Heartbeat::new(10_000, HEARTBEAT_JITTER_PCT);
    let mut rng = Rng::seeded(0xC0FFEE);
    let fired = beat_times(&mut hb, &mut rng, 3_600_000, 250);
    // 3,600 s / 10 s = 360 beats, ±1 for where the window ends.
    assert!(
        (359..=361).contains(&fired.len()),
        "expected ~360 beats, got {}",
        fired.len()
    );

    let gaps: Vec<u64> = fired.windows(2).map(|w| w[1] - w[0]).collect();
    // No bunching: jitter is ±20%, so consecutive beats can differ by at most
    // 40% of the interval — nothing may ever land back-to-back.
    let min = *gaps.iter().min().unwrap();
    let max = *gaps.iter().max().unwrap();
    assert!(min >= 5_500, "beats bunched: min gap {min} ms");
    assert!(max <= 14_500, "beat starved: max gap {max} ms");
    // And the MEAN is the target: jitter changes texture, not rate.
    let mean = gaps.iter().sum::<u64>() as f64 / gaps.len() as f64;
    assert!((mean - 10_000.0).abs() < 250.0, "mean gap {mean} ms");
    // Jitter is real (a metronome would show one single gap value).
    assert!(gaps.iter().collect::<std::collections::HashSet<_>>().len() > 10);
}

#[test]
fn heartbeat_without_jitter_is_exact() {
    let mut hb = Heartbeat::new(10_000, 0);
    let mut rng = Rng::seeded(7);
    let fired = beat_times(&mut hb, &mut rng, 100_000, 250);
    assert_eq!(
        fired,
        vec![
            0, 10_000, 20_000, 30_000, 40_000, 50_000, 60_000, 70_000, 80_000, 90_000, 100_000
        ]
    );
    assert_eq!(hb.interval_ms(), 10_000);
}

#[test]
fn heartbeat_makes_up_a_small_deficit_without_drifting() {
    // The submission was late (slow RPC): the NEXT beat stays on the ideal
    // schedule instead of drifting the whole stream later.
    let mut hb = Heartbeat::new(10_000, 0);
    let mut rng = Rng::seeded(1);
    assert!(hb.due(0));
    hb.on_submitted(0, &mut rng);
    assert_eq!(hb.wait_ms(0), 10_000);
    // Beat #2 goes out 3 s late…
    assert!(hb.due(13_000));
    hb.on_submitted(13_000, &mut rng);
    // …and beat #3 is still due at the ideal 20 s, not at 23 s. Exactly ONE
    // beat is due at a time — the deficit never becomes a burst.
    assert!(!hb.due(13_000));
    assert_eq!(hb.wait_ms(13_000), 7_000);
    assert!(hb.due(20_000));
}

#[test]
fn heartbeat_drops_a_long_stall_instead_of_replaying_it() {
    // The node was unreachable for three minutes. Those beats are GONE: the
    // heartbeat re-anchors on now, it does not fire 18 transactions at once.
    let mut hb = Heartbeat::new(10_000, 0);
    let mut rng = Rng::seeded(2);
    hb.on_submitted(0, &mut rng);
    let mut fired = 0;
    let now = 200_000;
    while hb.due(now) {
        fired += 1;
        hb.on_submitted(now, &mut rng);
        assert!(fired < 5, "the heartbeat replayed a stalled backlog");
    }
    assert_eq!(fired, 1);
    assert_eq!(hb.wait_ms(now), 10_000);
    // And it is back on a clean cadence from here.
    let fired_after = beat_times(&mut Heartbeat::new(10_000, 0), &mut rng, 30_000, 250);
    assert_eq!(fired_after.len(), 4);
}

#[test]
fn heartbeat_pauses_at_the_balance_floor_and_resumes_when_funded() {
    let limits = HeartbeatLimits::reserve_only(100_000_000); // reserve 1 XUS
    let cost = 121_000; // 0.001 XUS + fee + tip
                        // Comfortably above the floor: send.
    assert_eq!(heartbeat_halt(&limits, Some(500_000_000), 0, 0, cost), None);
    // The send WOULD dip under the reserve: pause, do not drain.
    let halt = heartbeat_halt(&limits, Some(100_050_000), 42, 5_000_000, cost)
        .expect("must refuse to cross the floor");
    assert_eq!(
        halt,
        HeartbeatHalt::BalanceFloor {
            balance: 100_050_000,
            reserve: 100_000_000
        }
    );
    assert!(
        !halt.is_terminal(),
        "the floor pauses, it does not end the run"
    );
    assert!(halt.message().contains("balance floor"));
    // Exactly at the boundary (balance - cost == reserve) is still allowed.
    assert_eq!(
        heartbeat_halt(&limits, Some(100_000_000 + cost), 1, 0, cost),
        None
    );
    // One grain short is not.
    assert!(heartbeat_halt(&limits, Some(100_000_000 + cost - 1), 1, 0, cost).is_some());
    // Balance the worker has not read yet is UNKNOWN, not empty: the node's
    // mempool remains the authority and the heartbeat keeps going.
    assert_eq!(heartbeat_halt(&limits, None, 1, 0, cost), None);
    // Refunded (closed-loop recycle returns the principal): resumes by itself.
    assert_eq!(
        heartbeat_halt(&limits, Some(900_000_000), 42, 5_000_000, cost),
        None
    );
}

#[test]
fn heartbeat_caps_are_off_by_default_and_terminal_when_set() {
    // Default rails: only the floor. A million transactions later, still fine.
    let open = HeartbeatLimits::reserve_only(0);
    assert_eq!(
        heartbeat_halt(&open, Some(u128::MAX), 1_000_000, u128::MAX / 2, 121_000),
        None
    );

    let capped = HeartbeatLimits {
        reserve_grains: 0,
        max_tx: Some(10),
        max_spend_grains: Some(1_000_000),
    };
    // Under the count cap: allowed.
    assert_eq!(heartbeat_halt(&capped, Some(u128::MAX), 9, 0, 1), None);
    // At the cap: stop, terminally.
    let halt = heartbeat_halt(&capped, Some(u128::MAX), 10, 0, 1).unwrap();
    assert_eq!(halt, HeartbeatHalt::TxCap(10));
    assert!(halt.is_terminal());
    // Spend cap bites BEFORE the spend happens, not after.
    assert_eq!(
        heartbeat_halt(&capped, Some(u128::MAX), 0, 900_000, 100_000),
        None
    );
    let halt = heartbeat_halt(&capped, Some(u128::MAX), 0, 900_001, 100_000).unwrap();
    assert_eq!(halt, HeartbeatHalt::SpendCap(900_001));
    assert!(halt.is_terminal());
    // Caps are checked ahead of the floor, so the reported reason is the one
    // that actually ended the session.
    let both = HeartbeatLimits {
        reserve_grains: u128::MAX,
        max_tx: Some(1),
        max_spend_grains: None,
    };
    assert_eq!(
        heartbeat_halt(&both, Some(0), 1, 0, 1),
        Some(HeartbeatHalt::TxCap(1))
    );
}
