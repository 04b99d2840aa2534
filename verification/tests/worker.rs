//! One wallet's worker: shots, answers, and what they do to the nonce.

use sov_tx_cannon::amounts::{AmountMode, TipMode};
use sov_tx_cannon::chain::{AccountId, SigningDomain};
use sov_tx_cannon::dest::{DestMode, DestSelector};
use sov_tx_cannon::heartbeat::{heartbeat_halt, HeartbeatLimits};
use sov_tx_cannon::json::Json;
use sov_tx_cannon::meter::MeterKind;
use sov_tx_cannon::rng::Rng;
use sov_tx_cannon::status::Status;
use sov_tx_cannon::worker::{
    aim, on_accepted, on_balance, on_build_failed, on_built, on_committed_balance, on_nonce,
    on_rejected, short_hash, shot_cost, sync_due, worst_case_cost, Account, FireResult, Network,
    Next, Orders, Shot, TipWatch, AFFORD_BACKOFF_MS, CAPACITY_BACKOFF_MS, FEE_ESTIMATE_GRAINS,
    OTHER_BACKOFF_MS,
};

fn orders(commit_on_accept: bool, dry_run: bool) -> Orders {
    Orders {
        wallet_index: 0,
        label: "main".to_string(),
        amount_mode: AmountMode::Fixed(1_000),
        tip_mode: TipMode::Fixed(50),
        dry_run,
        commit_on_accept,
    }
}

fn account(nonce: u64, balance: Option<u128>) -> Account {
    let mut a = Account::new();
    a.reconcile(nonce, balance, Some(7));
    a
}

fn selector() -> DestSelector {
    let dests = vec![
        AccountId::new("x.sov".to_string()),
        AccountId::new("y.sov".to_string()),
    ];
    DestSelector::new(dests, DestMode::RoundRobin).unwrap()
}

fn status() -> Status {
    Status::new(&vec!["main".to_string()])
}

fn shot(o: &Orders, a: &Account, auction: bool) -> (Shot, Next) {
    aim(o, &mut selector(), &mut Rng::seeded(1), a, auction)
}

#[test]
fn a_shot_is_drawn_at_the_pending_nonce() {
    let o = orders(true, false);
    let a = account(5, Some(1_000_000));
    let mut sel = selector();
    let mut rng = Rng::seeded(1);
    let (s, next) = aim(&o, &mut sel, &mut rng, &a, true);
    assert_eq!(s.to.as_str(), "x.sov");
    assert_eq!((s.amount_grains, s.tip_grains, s.nonce), (1_000, 50, 5));
    assert_eq!(next, Next::Build);
    // The next one goes to the next destination; a dormant auction sees no bid.
    let (s, _) = aim(&o, &mut sel, &mut rng, &a, false);
    assert_eq!(s.to.as_str(), "y.sov");
    assert_eq!(s.tip_grains, 0);
}

#[test]
fn a_short_balance_is_asked_about_before_anything_is_built() {
    let o = orders(true, false);
    let cost = 1_000 + FEE_ESTIMATE_GRAINS + 50;
    assert_eq!(shot_cost(1_000, 50), cost);
    assert_eq!(shot_cost(u128::MAX, 1), u128::MAX);
    // Exactly covered, one grain short, and unknown.
    assert_eq!(shot(&o, &account(5, Some(cost)), true).1, Next::Build);
    assert_eq!(shot(&o, &account(5, None), true).1, Next::Build);
    let mut a = account(5, Some(cost - 1));
    let (s, next) = shot(&o, &a, true);
    assert_eq!(next, Next::AskBalance);

    // The node could not be asked: still short, so the shot waits.
    let mut st = status();
    assert_eq!(
        on_balance(&o, &mut a, &mut st, 10, &s, None),
        Next::Done(FireResult::Backoff(AFFORD_BACKOFF_MS))
    );
    assert_eq!(st.meter().total(MeterKind::RejAfford), 1);
    assert_eq!(
        st.wallets()[0].waiting.as_deref(),
        Some("balance 0.00022049 XUS can't cover 0.00001 XUS + fee — waiting for pending txs to mine")
    );
    assert_eq!(a.pending(), 5);
    // It has been refunded meanwhile: the shot is built, and nothing is counted.
    assert_eq!(
        on_balance(&o, &mut a, &mut st, 11, &s, Some(cost)),
        Next::Build
    );
    assert_eq!(a.balance(), Some(cost));
    assert_eq!(st.meter().total(MeterKind::RejAfford), 1);
}

#[test]
fn a_shot_that_cannot_be_built_is_counted_and_holds_the_nonce() {
    let o = orders(true, false);
    let a = account(5, None);
    let (s, _) = shot(&o, &a, false);
    let mut st = status();
    assert_eq!(
        on_build_failed(&o, &a, &mut st, 10, &s, "signing failed: no key"),
        Next::Done(FireResult::Continue)
    );
    assert_eq!(st.meter().total(MeterKind::Attempted), 1);
    assert_eq!(st.meter().total(MeterKind::RejOther), 1);
    let line = &st.log()[0];
    assert!(!line.ok);
    assert_eq!(line.detail, "signing failed: no key");
    assert_eq!((line.nonce, line.height), (5, 7));
    assert_eq!(a.pending(), 5);
}

#[test]
fn a_dry_run_commits_and_debits_without_submitting() {
    for commit in [true, false] {
        let o = orders(commit, true);
        let mut a = account(5, Some(100_000));
        let (s, _) = shot(&o, &a, true);
        let mut st = status();
        assert_eq!(
            on_built(&o, &mut a, &mut st, 10, &s),
            Next::Done(FireResult::Continue)
        );
        assert_eq!(a.pending(), 6);
        assert_eq!(a.balance(), Some(100_000 - 1_000 - 21_000 - 50));
        assert_eq!(st.totals(), (1, 0));
        assert_eq!(st.log()[0].detail, "dry-run (not submitted)");
        assert_eq!(st.wallets()[0].next_nonce, 6);
    }
}

#[test]
fn continuous_modes_commit_on_accept_and_per_block_on_send() {
    // Continuous: the nonce moves when the node accepts.
    let o = orders(true, false);
    let mut a = account(5, Some(100_000));
    let (s, _) = shot(&o, &a, true);
    let mut st = status();
    assert_eq!(on_built(&o, &mut a, &mut st, 10, &s), Next::Submit);
    assert_eq!(a.pending(), 5);
    assert_eq!(
        on_accepted(&o, &mut a, &mut st, 11, &s, "0123456789abcdef"),
        Next::Done(FireResult::Continue)
    );
    assert_eq!(a.pending(), 6);
    assert_eq!(st.log()[0].detail, "submitted 012345…cdef");
    assert_eq!(st.totals(), (1, 0));

    // Per block: it moves when the shot is sent, whatever the node says.
    let o = orders(false, false);
    let mut a = account(5, None);
    let (s, _) = shot(&o, &a, true);
    assert_eq!(on_built(&o, &mut a, &mut st, 12, &s), Next::Submit);
    assert_eq!(a.pending(), 6);
    on_accepted(&o, &mut a, &mut st, 13, &s, "ab");
    assert_eq!(a.pending(), 6);
    on_rejected(&o, &mut a, &mut st, 14, &s, "transaction already in the pool");
    assert_eq!(a.pending(), 6);
}

#[test]
fn each_rejection_is_metered_and_followed_up_by_its_class() {
    let cases = [
        (
            "mempool is full (16384 transactions)",
            MeterKind::RejCapacity,
            Next::Done(FireResult::Backoff(CAPACITY_BACKOFF_MS)),
            5,
        ),
        (
            "stale transaction: account is at nonce 9, transaction used 5",
            MeterKind::RejNonce,
            Next::AskNonce,
            5,
        ),
        (
            "transaction already in the pool",
            MeterKind::RejNonce,
            Next::Done(FireResult::Continue),
            6,
        ),
        (
            "insufficient balance: pooled transfers would move 5 grains but only 1 are held",
            MeterKind::RejAfford,
            Next::AskBalanceAndNonce,
            5,
        ),
        (
            "nonce gap: next mineable nonce is 3, transaction used 5",
            MeterKind::RejOther,
            Next::Done(FireResult::Backoff(OTHER_BACKOFF_MS)),
            5,
        ),
        (
            "transport: Connection refused (os error 61)",
            MeterKind::RejOther,
            Next::Done(FireResult::Backoff(OTHER_BACKOFF_MS)),
            5,
        ),
    ];
    for (msg, kind, next, pending) in cases {
        let o = orders(true, false);
        let mut a = account(5, None);
        let (s, _) = shot(&o, &a, false);
        let mut st = status();
        assert_eq!(on_rejected(&o, &mut a, &mut st, 10, &s, msg), next, "{msg}");
        assert_eq!(a.pending(), pending, "{msg}");
        assert_eq!(st.meter().total(kind), 1, "{msg}");
        assert_eq!(st.totals(), (0, 1), "{msg}");
        assert_eq!(st.log()[0].detail, msg);
        // Only an unclassified failure is shown as an error.
        let shown = if kind == MeterKind::RejOther {
            format!("main: {msg}")
        } else {
            String::new()
        };
        assert_eq!(st.last_error(), shown);
    }
}

#[test]
fn a_stale_nonce_moves_forward_and_never_back() {
    let o = orders(true, false);
    let mut a = account(5, None);
    let mut st = status();
    assert_eq!(
        on_nonce(&o, &mut a, &mut st, Some(9)),
        Next::Done(FireResult::Continue)
    );
    assert_eq!(a.pending(), 9);
    on_nonce(&o, &mut a, &mut st, Some(3));
    on_nonce(&o, &mut a, &mut st, None);
    assert_eq!(a.pending(), 9);
    assert_eq!(st.wallets()[0].first_nonce, Some(9));
}

#[test]
fn a_committed_balance_is_waited_for() {
    let o = orders(true, false);
    let mut a = account(5, Some(10));
    let mut st = status();
    assert_eq!(
        on_committed_balance(&o, &mut a, &mut st, Some(3), Some(6)),
        Next::Done(FireResult::Backoff(AFFORD_BACKOFF_MS))
    );
    assert_eq!((a.pending(), a.balance()), (6, Some(3)));
    assert_eq!(
        st.wallets()[0].waiting.as_deref(),
        Some("balance committed by pending txs — resumes as they mine")
    );
    // What could not be read stays as it was.
    on_committed_balance(&o, &mut a, &mut st, None, None);
    assert_eq!((a.pending(), a.balance()), (6, Some(3)));
}

#[test]
fn a_reconcile_takes_the_nodes_word() {
    let mut a = account(5, Some(10));
    assert_eq!((a.pending(), a.balance(), a.height()), (5, Some(10), 7));
    // The nonce never moves back, the balance follows even into the unknown, and the
    // height stays where it could not be read.
    a.reconcile(2, None, None);
    assert_eq!((a.pending(), a.balance(), a.height()), (5, None, 7));
    a.observe_height(8);
    assert_eq!(a.height(), 8);
}

#[test]
fn hashes_are_shortened_in_the_middle() {
    assert_eq!(short_hash("0123456789ab"), "0123456789ab");
    assert_eq!(short_hash("0123456789abc"), "012345…9abc");
    assert_eq!(short_hash(""), "");
}

#[test]
fn the_rails_are_held_against_the_worst_case() {
    let amount = AmountMode::Range { min: 1, max: 900 };
    let tip = TipMode::Range { min: 0, max: 77 };
    let worst = worst_case_cost(&amount, &tip);
    assert_eq!(worst, 900 + 21_000 + 77);
    let limits = HeartbeatLimits::reserve_only(1_000);
    let balance = 1_000 + worst;
    assert_eq!(heartbeat_halt(&limits, Some(balance), 0, 0, worst), None);
    assert!(heartbeat_halt(&limits, Some(balance - 1), 0, 0, worst).is_some());
    // Whatever is drawn, the reserve stays.
    let mut rng = Rng::seeded(11);
    for _ in 0..1_000 {
        let spent = shot_cost(amount.pick(&mut rng), tip.pick(&mut rng));
        assert!(balance - spent >= 1_000);
    }
    assert_eq!(worst_case_cost(&AmountMode::Fixed(3), &TipMode::Off), 21_003);
}

#[test]
fn a_tip_is_new_once() {
    let mut w = TipWatch::new();
    assert!(w.observe(10));
    assert!(!w.observe(10));
    assert!(!w.observe(9));
    assert!(w.observe(12));
    assert!(!w.observe(11));
}

#[test]
fn a_worker_reconciles_once_a_second() {
    assert!(sync_due(None, 0));
    assert!(!sync_due(Some(5_000), 5_999));
    assert!(sync_due(Some(5_000), 6_000));
    assert!(!sync_due(Some(5_000), 1));
}

#[test]
fn a_transient_failure_never_unbinds_a_worker() {
    let text = |s: &str| Json::Text(s.to_string());
    let deployments = |state: &str| {
        Json::Object(vec![(
            "deployments".to_string(),
            Json::List(vec![Json::Object(vec![
                ("name".to_string(), text("fee-auction")),
                ("state".to_string(), text(state)),
            ])]),
        )])
    };
    let mut n = Network::new();
    assert!(n.domain().is_none());
    assert!(!n.auction_active());
    let d = SigningDomain::new("sov-mainnet".to_string(), [3; 32]);
    n.refresh(Some(Some(d.clone())), Some(&deployments("Active")));
    assert_eq!(n.domain(), Some(&d));
    assert!(n.auction_active());
    // No answer changes nothing.
    n.refresh(None, None);
    assert_eq!(n.domain(), Some(&d));
    assert!(n.auction_active());
    // A definitive answer does.
    n.refresh(Some(None), Some(&deployments("Started")));
    assert!(n.domain().is_none());
    assert!(!n.auction_active());
}
