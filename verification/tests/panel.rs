//! The status board and what the panel says.

use sov_tx_cannon::meter::MeterKind;
use sov_tx_cannon::panel::{
    capacity_words, cell_size, lit_cells, mode_consequence, scope_caption, scope_ceiling,
    state_detail, traces, truncate, visible, wallet_phase, Conn, Health, MempoolHistory,
    MempoolSample, OpState, RunSummary, StateFacts, WalletPhase, MEMPOOL_CAP_HINT,
    MEMPOOL_HISTORY_SAMPLES, SATURATION_DEPTH,
};
use sov_tx_cannon::present::Blocker;
use sov_tx_cannon::setup::ModeChoice;
use sov_tx_cannon::status::{LogLine, Status, LOG_LINES};

fn sample(at_ms: u64, depth: u64) -> MempoolSample {
    MempoolSample {
        at_ms,
        depth,
        height: 1,
        new_block: false,
    }
}

fn line(nonce: u64) -> LogLine {
    LogLine {
        wallet: "w".to_string(),
        height: 1,
        to: "x.sov".to_string(),
        amount_grains: 5,
        nonce,
        ok: true,
        detail: String::new(),
    }
}

#[test]
fn the_last_worker_out_ends_the_run() {
    let mut s = Status::new(&vec!["a".to_string(), "b".to_string()]);
    assert!(s.running());
    assert_eq!(s.live_workers(), 2);
    s.worker_finished(0, None);
    assert!(s.running());
    assert!(s.wallets()[0].ended);
    s.worker_finished(1, Some("no destinations".to_string()));
    assert!(!s.running());
    assert_eq!(s.wallets()[1].fault.as_deref(), Some("no destinations"));
    // A worker that is not there changes no wallet and never underflows.
    s.worker_finished(9, None);
    assert_eq!(s.live_workers(), 0);
    assert!(!Status::new(&vec![]).running());
}

#[test]
fn progress_is_measured_from_the_first_publish() {
    let mut s = Status::new(&vec!["a".to_string()]);
    assert_eq!(s.wallets()[0].committed(), None);
    s.publish(0, 40, Some(9), Some("why".to_string()));
    assert_eq!(s.wallets()[0].committed(), Some(0));
    assert_eq!(s.wallets()[0].waiting.as_deref(), Some("why"));
    s.publish(0, 45, None, None);
    assert_eq!(s.wallets()[0].committed(), Some(5));
    assert_eq!(s.wallets()[0].waiting, None);
    assert_eq!(s.wallets()[0].balance_grains, None);
    s.publish(7, 99, None, None);
    assert_eq!(s.wallets()[0].next_nonce, 45);
}

#[test]
fn the_log_keeps_the_newest_lines() {
    let mut s = Status::new(&vec![]);
    for n in 0..LOG_LINES as u64 + 20 {
        s.push_log(line(n));
    }
    assert_eq!(s.log().len(), LOG_LINES);
    assert_eq!(s.log()[0].nonce, 20);
    assert_eq!(s.log()[LOG_LINES - 1].nonce, LOG_LINES as u64 + 19);
}

#[test]
fn totals_count_every_kind_of_rejection() {
    let mut s = Status::new(&vec![]);
    assert!(s.has_room());
    s.record(0, MeterKind::Attempted);
    s.record(0, MeterKind::Accepted);
    for k in [
        MeterKind::RejCapacity,
        MeterKind::RejNonce,
        MeterKind::RejAfford,
        MeterKind::RejOther,
    ] {
        s.record(1, k);
    }
    assert_eq!(s.totals(), (1, 4));
    s.set_error("boom");
    assert_eq!(s.last_error(), "boom");
    s.stop();
    assert!(!s.running());
}

#[test]
fn the_mempool_history_is_bounded_and_marks_new_blocks() {
    let mut h = MempoolHistory::new();
    h.sample(0, 10, 3);
    h.sample(1_000, 10, 4);
    h.sample(2_000, 11, 1);
    h.sample(3_000, 10, 1);
    let marks: Vec<bool> = h.samples().iter().map(|s| s.new_block).collect();
    assert_eq!(marks, vec![false, false, true, false]);
    for i in 0..400 {
        h.sample(4_000 + i, 12, i);
    }
    assert_eq!(h.samples().len(), MEMPOOL_HISTORY_SAMPLES);
    assert_eq!(h.samples().last().unwrap().depth, 399);
}

#[test]
fn a_gap_breaks_the_trace() {
    let s: Vec<MempoolSample> = [0u64, 1_000, 5_000, 9_001, 10_000]
        .iter()
        .map(|t| sample(*t, *t))
        .collect();
    let t = traces(&s);
    let at: Vec<Vec<u64>> = t
        .iter()
        .map(|run| run.iter().map(|x| x.at_ms).collect())
        .collect();
    assert_eq!(at, vec![vec![0, 1_000, 5_000], vec![9_001, 10_000]]);
    assert!(traces(&vec![]).is_empty());
    assert_eq!(traces(&vec![sample(5, 5)]).len(), 1);
}

#[test]
fn the_scope_shows_its_window() {
    let s = vec![sample(0, 1), sample(50_000, 2), sample(350_000, 3)];
    let shown: Vec<u64> = visible(&s, 350_000).iter().map(|x| x.depth).collect();
    assert_eq!(shown, vec![2, 3]);
    // A sample from the future is shown too.
    assert_eq!(visible(&s, 10).len(), 3);
    // The saturation line is always on screen.
    assert_eq!(SATURATION_DEPTH, 15_561);
    assert_eq!(scope_ceiling(&s), 20_000);
    assert_eq!(scope_ceiling(&vec![sample(0, 20_001)]), 50_000);
}

#[test]
fn the_bar_lights_cells_honestly() {
    assert_eq!(cell_size(), 256);
    assert_eq!(lit_cells(0), 0);
    assert_eq!(lit_cells(1), 1);
    assert_eq!(lit_cells(256), 1);
    assert_eq!(lit_cells(257), 2);
    assert_eq!(lit_cells(MEMPOOL_CAP_HINT - 256), 63);
    assert_eq!(lit_cells(MEMPOOL_CAP_HINT - 255), 64);
    assert_eq!(lit_cells(MEMPOOL_CAP_HINT), 64);
    assert_eq!(lit_cells(u64::MAX), 64);
    assert_eq!(
        scope_caption(Some(8_192)),
        "◑ BUILDING  ·  8,192 pooled  ·  50% of 16,384 cap  ·  1 cell = 256 tx"
    );
    assert_eq!(
        scope_caption(None),
        "— depth unavailable (the node did not answer sov_getMempoolSize)"
    );
}

#[test]
fn a_wedged_node_never_looks_live() {
    let mut c = Conn::new();
    let v = c.read(0);
    assert_eq!(v.health(), Health::Probing);
    assert_eq!(v.detail("127.0.0.1:8645"), "127.0.0.1:8645");
    c.reached(1_000, 11_842, Some(7), 38);
    let v = c.read(2_000);
    assert_eq!(v.health(), Health::Live);
    assert_eq!(v.detail(""), "tip 11,842  ·  38 ms");
    assert_eq!(v.mempool, Some(7));
    // Seven seconds without a beat.
    assert_eq!(c.read(7_999).health(), Health::Live);
    let v = c.read(8_000);
    assert_eq!(v.health(), Health::Stalled);
    assert_eq!(v.detail(""), "last beat 7s ago  ·  tip 11,842");
    // A failed probe keeps what was known.
    c.missed("connection refused".to_string());
    let v = c.read(9_000);
    assert_eq!(v.health(), Health::Offline);
    assert_eq!(v.detail(""), "connection refused");
    assert_eq!((v.tip, v.beat_age_secs), (11_842, Some(8)));
    let badges: Vec<(&str, &str)> = [Health::Probing, Health::Live, Health::Stalled, Health::Offline]
        .iter()
        .map(|h| h.badge())
        .collect();
    assert_eq!(
        badges,
        vec![("○", "PROBING"), ("●", "LIVE"), ("◐", "STALLED"), ("✖", "OFFLINE")]
    );
}

fn facts() -> StateFacts {
    StateFacts {
        blocker: Some(Blocker::SelectWallet),
        mode: "firehose".to_string(),
        selected: 3,
        live: 2,
        accepted_rate: "12.4".to_string(),
        dry_run: false,
        last_run: None,
    }
}

#[test]
fn what_happens_now_comes_before_what_is_missing() {
    assert_eq!(OpState::of(true, true, true, true), OpState::Firing);
    assert_eq!(OpState::of(false, true, true, true), OpState::Draining);
    assert_eq!(OpState::of(false, false, true, true), OpState::Stopped);
    assert_eq!(OpState::of(false, false, false, true), OpState::Setup);
    assert_eq!(OpState::of(false, false, false, false), OpState::Ready);
    let words: Vec<String> = [
        OpState::Setup,
        OpState::Ready,
        OpState::Firing,
        OpState::Draining,
        OpState::Stopped,
    ]
    .iter()
    .map(|s| format!("{} {}", s.glyph(), s.word()))
    .collect();
    assert_eq!(
        words,
        vec!["◇ SETUP", "◆ READY", "▶ FIRING", "◐ STOPPING", "■ STOPPED"]
    );
}

#[test]
fn the_state_is_explained_in_words() {
    let f = facts();
    assert_eq!(
        state_detail(OpState::Setup, &f),
        "Check at least one wallet to fire from"
    );
    assert_eq!(
        state_detail(OpState::Ready, &f),
        "firehose — 3 wallet(s) armed"
    );
    assert_eq!(
        state_detail(OpState::Firing, &f),
        "firehose · 2 wallet(s) · 12.4 accepted/s"
    );
    assert_eq!(
        state_detail(OpState::Draining, &f),
        "workers are finishing their in-flight submits"
    );
    assert_eq!(state_detail(OpState::Stopped, &f), "run finished");
    let f = StateFacts {
        blocker: None,
        dry_run: true,
        last_run: Some(RunSummary {
            accepted: 1_234,
            rejected: 5,
            duration_secs: 127,
            wallets: 2,
            mode: "paced 2 TX/s".to_string(),
            dry_run: true,
        }),
        ..facts()
    };
    assert_eq!(state_detail(OpState::Setup, &f), "finish configuring the run");
    assert_eq!(
        state_detail(OpState::Ready, &f),
        "firehose — 3 wallet(s) armed, dry-run (nothing is submitted)"
    );
    assert_eq!(
        state_detail(OpState::Firing, &f),
        "firehose · 2 wallet(s) · 12.4 accepted/s (dry-run)"
    );
    assert_eq!(
        state_detail(OpState::Stopped, &f),
        "paced 2 TX/s (dry-run) · 2 wallet(s) · 1,234 accepted, 5 rejected in 2m 07s"
    );
}

#[test]
fn a_fault_is_shown_before_all_else() {
    let mut s = Status::new(&vec!["a".to_string(), "b".to_string()]);
    assert_eq!(
        wallet_phase(&s.wallets()[0], true),
        (WalletPhase::Firing, "▶ firing".to_string())
    );
    assert_eq!(
        wallet_phase(&s.wallets()[0], false),
        (WalletPhase::Idle, "· idle".to_string())
    );
    s.publish(0, 1, None, Some("low balance".to_string()));
    assert_eq!(
        wallet_phase(&s.wallets()[0], true),
        (WalletPhase::Waiting, "⏳ waiting — low balance".to_string())
    );
    s.worker_finished(0, None);
    assert_eq!(
        wallet_phase(&s.wallets()[0], true),
        (WalletPhase::Finished, "■ finished".to_string())
    );
    s.worker_finished(1, Some("bad list".to_string()));
    assert_eq!(
        wallet_phase(&s.wallets()[1], true),
        (WalletPhase::Failed, "✖ failed — bad list".to_string())
    );
}

#[test]
fn each_mode_says_what_it_will_do() {
    assert!(mode_consequence(ModeChoice::PerBlock).starts_with("Waits for each new tip"));
    assert!(mode_consequence(ModeChoice::TargetTps).starts_with("Holds a steady aggregate rate"));
    assert!(mode_consequence(ModeChoice::Firehose).starts_with("No pacing"));
    assert_eq!(capacity_words(ModeChoice::Firehose).0, "pool full (pacing)");
    assert_eq!(capacity_words(ModeChoice::PerBlock).0, "pool full");
}

#[test]
fn labels_are_clipped_to_their_column() {
    assert_eq!(truncate("wallet", 6), "wallet");
    assert_eq!(truncate("wallets", 6), "walle…");
    assert_eq!(truncate("öäüß", 3), "öä…");
    assert_eq!(truncate("ab", 1), "…");
    assert_eq!(truncate("ab", 0), "…");
    assert_eq!(truncate("", 0), "");
}
