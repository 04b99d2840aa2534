//! Axis ceilings, pool pressure, readiness and the words and figures of the panel.

use sov_tx_cannon::present::{
    first_blocker, fmt_elapsed, fmt_pct, nice_ceiling, Blocker, Pressure,
};

#[test]
fn nice_ceiling_climbs_the_1_2_5_ladder_and_never_hugs_the_data() {
    // The floor keeps a nearly-empty pool from drawing as a full-height trace.
    assert_eq!(nice_ceiling(0), 100);
    assert_eq!(nice_ceiling(3), 100);
    assert_eq!(nice_ceiling(100), 100);
    assert_eq!(nice_ceiling(101), 200);
    assert_eq!(nice_ceiling(200), 200);
    assert_eq!(nice_ceiling(201), 500);
    assert_eq!(nice_ceiling(500), 500);
    assert_eq!(nice_ceiling(501), 1_000);
    assert_eq!(nice_ceiling(16_384), 20_000);
    assert_eq!(nice_ceiling(20_001), 50_000);
    // Always >= the peak, always non-zero, for a wide sweep of inputs.
    for peak in (0..200_000u64).step_by(97) {
        let c = nice_ceiling(peak);
        assert!(c >= peak, "ceiling {c} below peak {peak}");
        assert!(c > 0);
    }
    // Extreme input saturates instead of overflowing.
    assert!(nice_ceiling(u64::MAX) >= u64::MAX / 2);
}

#[test]
fn pressure_buckets_match_the_saturation_line() {
    let cap = 16_384u64;
    assert_eq!(Pressure::of(0, cap), Pressure::Empty);
    assert_eq!(Pressure::of(1, cap), Pressure::Light);
    assert_eq!(Pressure::of(cap / 4 - 1, cap), Pressure::Light);
    assert_eq!(Pressure::of(cap / 4 + 1, cap), Pressure::Building);
    assert_eq!(Pressure::of(cap * 7 / 10, cap), Pressure::Heavy);
    assert_eq!(Pressure::of(cap * 96 / 100, cap), Pressure::Saturated);
    assert_eq!(Pressure::of(cap, cap), Pressure::Saturated);
    // Over capacity is still saturated, not something stranger.
    assert_eq!(Pressure::of(cap * 3, cap), Pressure::Saturated);
    // Unknown capacity is never rendered as a percentage.
    assert_eq!(Pressure::of(0, 0), Pressure::Empty);
    assert_eq!(Pressure::of(5, 0), Pressure::Building);
}

#[test]
fn every_pressure_level_has_a_distinct_word_and_shape() {
    let levels = [
        Pressure::Empty,
        Pressure::Light,
        Pressure::Building,
        Pressure::Heavy,
        Pressure::Saturated,
    ];
    let labels: std::collections::HashSet<_> = levels.iter().map(|p| p.label()).collect();
    let glyphs: std::collections::HashSet<_> = levels.iter().map(|p| p.glyph()).collect();
    // Accessibility: state is never encoded by color alone.
    assert_eq!(labels.len(), levels.len());
    assert_eq!(glyphs.len(), levels.len());
}

#[test]
fn first_blocker_reports_one_actionable_thing_at_a_time() {
    assert_eq!(first_blocker(0, 0, 0), Some(Blocker::UnlockWallet));
    assert_eq!(first_blocker(3, 0, 2), Some(Blocker::SelectWallet));
    assert_eq!(first_blocker(3, 1, 0), Some(Blocker::AddDestination));
    assert_eq!(first_blocker(3, 1, 1), None);
    // Each blocker states what to DO.
    for b in [
        Blocker::UnlockWallet,
        Blocker::SelectWallet,
        Blocker::AddDestination,
    ] {
        assert!(!b.message().is_empty());
    }
}

#[test]
fn fmt_pct_is_clamped_and_unknown_stays_unknown() {
    assert_eq!(fmt_pct(0, 100), "0%");
    assert_eq!(fmt_pct(50, 100), "50%");
    assert_eq!(fmt_pct(100, 100), "100%");
    assert_eq!(fmt_pct(300, 100), "100%"); // over cap clamps, never 300%
    assert_eq!(fmt_pct(5, 0), "—"); // unknown capacity, not "0%"
}

#[test]
fn fmt_elapsed_reads_naturally_at_every_scale() {
    assert_eq!(fmt_elapsed(0), "0s");
    assert_eq!(fmt_elapsed(59), "59s");
    assert_eq!(fmt_elapsed(60), "1m 00s");
    assert_eq!(fmt_elapsed(127), "2m 07s");
    assert_eq!(fmt_elapsed(3_599), "59m 59s");
    assert_eq!(fmt_elapsed(3_600), "1h 00m");
    assert_eq!(fmt_elapsed(7_980), "2h 13m");
}

#[test]
fn percentages_round_as_doubles_do() {
    // A tie that double arithmetic pulls below the half, and one it leaves on it.
    assert_eq!(fmt_pct(29, 200), "14%");
    assert_eq!(fmt_pct(1, 200), "1%");
    assert_eq!(fmt_pct(1, 201), "0%");
    let check = |part: u64, whole: u64| {
        let pct = (part as f64 / whole as f64 * 100.0).clamp(0.0, 100.0);
        assert_eq!(
            fmt_pct(part, whole),
            format!("{}%", pct.round() as u64),
            "{part} of {whole}"
        );
    };
    for whole in 1..260u64 {
        for part in 0..=whole + 1 {
            check(part, whole);
        }
    }
    let mut x = 0x9E37_79B9_7F4A_7C15u64;
    for i in 0..20_000u64 {
        x ^= x << 13;
        x ^= x >> 7;
        x ^= x << 17;
        let part = x >> (i % 64);
        let whole = (x.rotate_left(31) >> (i / 7 % 64)) | 1;
        check(part, whole);
        check(part % whole, whole);
    }
    for n in [1u64, 2, 3, 1 << 53, (1 << 53) + 1, u64::MAX - 1, u64::MAX] {
        for d in [1u64, 2, 3, 1 << 53, (1 << 53) + 1, u64::MAX - 1, u64::MAX] {
            check(n, d);
        }
    }
}

#[test]
fn ceilings_saturate_where_no_ladder_value_fits() {
    assert_eq!(nice_ceiling(10_000_000_000_000_000_000), 10_000_000_000_000_000_000);
    assert_eq!(nice_ceiling(10_000_000_000_000_000_001), u64::MAX);
    assert_eq!(nice_ceiling(u64::MAX), u64::MAX);
}

#[test]
fn pressure_lines_are_met_exactly() {
    assert_eq!(Pressure::of(95, 100), Pressure::Saturated);
    assert_eq!(Pressure::of(94, 100), Pressure::Heavy);
    assert_eq!(Pressure::of(60, 100), Pressure::Heavy);
    assert_eq!(Pressure::of(59, 100), Pressure::Building);
    assert_eq!(Pressure::of(25, 100), Pressure::Building);
    assert_eq!(Pressure::of(24, 100), Pressure::Light);
    assert_eq!(Pressure::of(u64::MAX, u64::MAX), Pressure::Saturated);
}
