//! The hostile battery, the mainnet guard and the no-residue verdict.

use sov_tx_cannon::chain::{
    AccountId, Action, PublicKey, Signature, SignedTransaction, Transaction,
};
use sov_tx_cannon::json::Json;
use sov_tx_cannon::redteam::{
    battery, confirmation_ok, is_mainnet, may_fire, specimens, AccountSource, AttackOutcome,
    ProbeReport, Specimen, Verdict, MAINNET_CONFIRM_PHRASE,
};

/// A transaction of the specimen's shape, with placeholder key and signature bytes.
fn shaped(s: &Specimen) -> SignedTransaction {
    let signer = match s.account {
        AccountSource::Implicit(seed) => AccountId::new(format!("{seed:02x}").repeat(32)),
        AccountSource::Named(name) => AccountId::new(name.to_string()),
    };
    SignedTransaction {
        transaction: Transaction {
            signer,
            public_key: PublicKey {
                bytes: vec![s.key_seed; 32],
            },
            nonce: s.nonce,
            action: Action::Transfer {
                to: AccountId::new("sink.sov".to_string()),
                amount_grains: u128::from(s.amount_sov) * 100_000_000,
            },
        },
        signature: Signature::V2HybridMlDsa65 {
            ed25519: [s.key_seed; 64],
            ml_dsa: vec![s.key_seed; 3_309],
        },
    }
}

fn fixtures() -> Vec<SignedTransaction> {
    specimens().iter().map(shaped).collect()
}

fn text(s: &str) -> Json {
    Json::Text(s.to_string())
}

fn valid_json() -> Json {
    Json::Object(vec![
        (
            "transaction".to_string(),
            Json::Object(vec![
                ("signer".to_string(), text("sender.sov")),
                ("nonce".to_string(), Json::Number("0".to_string())),
                (
                    "action".to_string(),
                    Json::Object(vec![(
                        "Transfer".to_string(),
                        Json::Object(vec![
                            ("to".to_string(), text("sink.sov")),
                            ("amount".to_string(), text("1")),
                        ]),
                    )]),
                ),
            ]),
        ),
        ("signature".to_string(), text("00")),
    ])
}

#[test]
fn mainnet_is_detected_from_the_chain_id() {
    assert!(is_mainnet("sov-mainnet"));
    assert!(is_mainnet("mainnet"));
    assert!(!is_mainnet("sov-testnet"));
    assert!(!is_mainnet("sov-dev"));
    assert!(!is_mainnet("sov-testnet-1"));
}

#[test]
fn guard_blocks_unconfirmed_mainnet_only() {
    // Non-mainnet: always allowed, confirmation irrelevant.
    assert!(may_fire(false, false));
    assert!(may_fire(false, true));
    // Mainnet: only with confirmation.
    assert!(!may_fire(true, false));
    assert!(may_fire(true, true));
}

#[test]
fn confirmation_phrase_must_match_exactly() {
    assert!(confirmation_ok(MAINNET_CONFIRM_PHRASE));
    assert!(confirmation_ok("  FIRE ON MAINNET  ")); // trimmed
    assert!(!confirmation_ok("fire on mainnet")); // case matters
    assert!(!confirmation_ok("FIRE"));
    assert!(!confirmation_ok(""));
}

#[test]
fn battery_covers_every_attack_class() {
    let b = battery(&fixtures(), &valid_json());
    assert!(
        b.len() >= 12,
        "expected a substantial battery, got {}",
        b.len()
    );
    let cats: std::collections::HashSet<_> = b.iter().map(|a| a.category).collect();
    for expected in ["crypto", "authz", "replay", "value", "encoding", "rpc"] {
        assert!(cats.contains(expected), "battery missing class {expected}");
    }
}

fn defended(n: usize) -> Vec<AttackOutcome> {
    (0..n)
        .map(|_| AttackOutcome {
            category: "crypto",
            name: "x",
            verdict: Verdict::Defended,
            detail: String::new(),
        })
        .collect()
}

#[test]
fn passes_only_when_it_ran_defended_everything_and_left_no_residue() {
    let ok = ProbeReport {
        reachable: true,
        mempool_before: Some(42),
        mempool_after: Some(42),
        outcomes: defended(16),
        ..ProbeReport::default()
    };
    assert!(ok.no_residue());
    assert!(ok.passed());
    assert!(!ok.residue_detected());
}

#[test]
fn residue_is_a_loud_failure_never_a_pass() {
    let grew = ProbeReport {
        reachable: true,
        mempool_before: Some(10),
        mempool_after: Some(11), // something landed
        outcomes: defended(16),
        ..ProbeReport::default()
    };
    assert!(!grew.no_residue());
    assert!(!grew.passed());
    assert!(grew.residue_detected());
}

#[test]
fn a_single_vulnerable_or_unreached_attack_fails_the_run() {
    let mut outcomes = defended(15);
    outcomes.push(AttackOutcome {
        category: "crypto",
        name: "x",
        verdict: Verdict::Vulnerable,
        detail: String::new(),
    });
    let vuln = ProbeReport {
        reachable: true,
        mempool_before: Some(1),
        mempool_after: Some(1),
        outcomes,
        ..ProbeReport::default()
    };
    assert!(vuln.no_residue()); // pool didn't grow…
    assert!(!vuln.passed()); // …but an attack was admitted ⇒ fail
    let (_, vulnerable, _) = vuln.counts();
    assert_eq!(vulnerable, 1);

    // An unreached attack (Info) also blocks a pass — the battery is incomplete.
    let mut outcomes = defended(15);
    outcomes.push(AttackOutcome {
        category: "rpc",
        name: "x",
        verdict: Verdict::Info,
        detail: String::new(),
    });
    let partial = ProbeReport {
        reachable: true,
        mempool_before: Some(1),
        mempool_after: Some(1),
        outcomes,
        ..ProbeReport::default()
    };
    assert!(!partial.passed());
}

#[test]
fn a_blocked_or_unreachable_report_never_passes() {
    let blocked = ProbeReport {
        reachable: true,
        is_mainnet: true,
        blocked: true,
        ..ProbeReport::default()
    };
    assert!(!blocked.passed());

    let unreachable = ProbeReport {
        reachable: false,
        ..ProbeReport::default()
    };
    assert!(!unreachable.passed());

    // Unknown mempool sizes must not fabricate a "no residue" pass.
    let unknown = ProbeReport {
        reachable: true,
        mempool_before: None,
        mempool_after: None,
        outcomes: defended(16),
        ..ProbeReport::default()
    };
    assert!(!unknown.no_residue());
    assert!(!unknown.passed());
}
