//! The steady-rate scheduler.

use std::time::Duration;

use sov_tx_cannon::pacer::Pacer;

/// A pacer of a fractional rate, read against a clock.
struct Clocked {
    tps: f64,
    pacer: Pacer,
}

impl Clocked {
    fn new(tps: f64) -> Self {
        Self {
            tps,
            pacer: Pacer::new(tps.ceil() as u64),
        }
    }

    fn take_due(&mut self, elapsed: Duration) -> u64 {
        self.pacer.take_due((elapsed.as_secs_f64() * self.tps) as u64)
    }
}

#[test]
fn pacer_tracks_the_cumulative_target_over_regular_ticks() {
    // 7 TX/s sampled every 100 ms for 3 s: cumulative issued must equal
    // floor(elapsed × 7) at every tick — no runaway, no starvation.
    let mut pacer = Clocked::new(7.0);
    let mut issued = 0u64;
    for tick in 1..=30u64 {
        let elapsed = Duration::from_millis(tick * 100);
        issued += pacer.take_due(elapsed);
        let ideal = (elapsed.as_secs_f64() * 7.0) as u64;
        assert_eq!(issued, ideal, "tick {tick}");
    }
    assert_eq!(issued, 21); // exactly 3 s × 7 TX/s
}

#[test]
fn pacer_sub_one_tps_is_not_starved() {
    // 0.5 TX/s: exactly one send every 2 s, none before.
    let mut pacer = Clocked::new(0.5);
    assert_eq!(pacer.take_due(Duration::from_millis(500)), 0);
    assert_eq!(pacer.take_due(Duration::from_millis(1999)), 0);
    assert_eq!(pacer.take_due(Duration::from_millis(2000)), 1);
    assert_eq!(pacer.take_due(Duration::from_millis(3900)), 0);
    assert_eq!(pacer.take_due(Duration::from_millis(4000)), 1);
}

#[test]
fn pacer_caps_catchup_after_a_stall_and_drops_the_backlog() {
    // 10 TX/s but the first tick comes after a 5 s stall: at most one
    // second's worth (10) is due, and the missed 40 are dropped — the next
    // regular tick issues only its incremental share.
    let mut pacer = Clocked::new(10.0);
    assert_eq!(pacer.take_due(Duration::from_secs(5)), 10);
    assert_eq!(pacer.take_due(Duration::from_millis(5100)), 1);
    assert_eq!(pacer.take_due(Duration::from_millis(5200)), 1);
}

#[test]
fn pacer_never_goes_backwards_or_double_issues() {
    let mut pacer = Clocked::new(3.0);
    assert_eq!(pacer.take_due(Duration::from_secs(1)), 3);
    // The same instant again: nothing further is due.
    assert_eq!(pacer.take_due(Duration::from_secs(1)), 0);
    // A (nonsensical) earlier instant must not underflow or issue.
    assert_eq!(pacer.take_due(Duration::from_millis(500)), 0);
    assert_eq!(pacer.take_due(Duration::from_secs(2)), 3);
}

#[test]
fn a_pacer_of_nothing_still_hands_out_one_at_a_time() {
    let mut pacer = Pacer::new(0);
    assert_eq!(pacer.take_due(0), 0);
    assert_eq!(pacer.take_due(5), 1);
    assert_eq!(pacer.take_due(6), 1);
    assert_eq!(pacer.take_due(u64::MAX), 1);
    assert_eq!(pacer.take_due(u64::MAX), 0);
}
