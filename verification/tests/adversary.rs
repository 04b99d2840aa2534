//! Deliberately misbehaving submissions, and what an honest node makes of them.

use sov_tx_cannon::adversary::{
    domain_probes, domain_verdict, expect_duplicate, expect_nonce_gap, expected_domain_outcome,
    phase_at, plan, verdict, wrong_domain, ActivationPhase, DomainOutcome, Expect, Observation,
    Observed, Scenario, SignedUnder, Step, Verdict, WrongDomainKind,
};
use sov_tx_cannon::chain::SigningDomain;
use sov_tx_cannon::reject::{classify_reject, RejectClass};

fn domain(chain: &str) -> SigningDomain {
    SigningDomain::new(chain.to_string(), [0x5c; 32])
}

/// The node's real wrapping around a `MempoolError`, as the client sees it.
fn wrap(inner: &str) -> String {
    format!("rpc error -32000: rejected: mempool rejected transaction: {inner}")
}

fn rejected(inner: &str) -> Observed {
    Observed::Rejected(wrap(inner))
}

fn gap_msg(expected: u64, got: u64) -> String {
    format!("nonce gap: next mineable nonce is {expected}, transaction used {got}")
}

#[test]
fn every_scenario_ends_with_a_contiguous_gap_free_run() {
    // A scenario must not wedge the account: the set of nonces it expects to
    // be ACCEPTED has to be exactly the contiguous run from the base.
    for scenario in Scenario::all() {
        let steps = plan(scenario, 40);
        let mut accepted: Vec<u64> = steps
            .iter()
            .filter(|s| s.expect == Expect::Accepted)
            .map(|s| s.nonce)
            .collect();
        accepted.sort_unstable();
        accepted.dedup();
        let expected: Vec<u64> = (40..40 + accepted.len() as u64).collect();
        assert_eq!(accepted, expected, "{} left a hole", scenario.label());
    }
}

#[test]
fn gap_plan_probes_above_the_run_then_heals_it_from_the_bottom() {
    let steps = plan(Scenario::Gap, 7);
    let shape: Vec<(u64, Expect)> = steps.iter().map(|s| (s.nonce, s.expect)).collect();
    assert_eq!(
        shape,
        vec![
            (9, expect_nonce_gap()), // two above the run
            (7, Expect::Accepted), // fill the bottom
            (9, expect_nonce_gap()), // still one hole below it
            (8, Expect::Accepted), // fill the hole
            (9, Expect::Accepted), // now contiguous
        ]
    );
    // The assumed next-nonce column tracks exactly what the node will report.
    let assumed: Vec<u64> = steps.iter().map(|s| s.assumed_next_nonce).collect();
    assert_eq!(assumed, vec![7, 7, 8, 8, 9]);
}

#[test]
fn reorder_plan_submits_n_plus_one_before_n_and_expects_refusal_not_queueing() {
    let steps = plan(Scenario::Reorder, 100);
    assert_eq!(steps.len(), 3);
    assert_eq!(steps[0].nonce, 101);
    assert_eq!(steps[0].expect, expect_nonce_gap());
    assert_eq!((steps[1].nonce, steps[1].expect), (100, Expect::Accepted));
    assert_eq!((steps[2].nonce, steps[2].expect), (101, Expect::Accepted));
    // Step 3 is a fresh submission, NOT a replay of the refused bytes: the
    // refused tx was never pooled, so there is nothing to duplicate.
    assert!(steps.iter().all(|s| !s.resubmit));
}

#[test]
fn duplicate_plan_replays_identical_bytes_to_avoid_the_rbf_path() {
    let steps = plan(Scenario::Duplicate, 3);
    assert_eq!(steps.len(), 2);
    assert_eq!(
        steps[0],
        Step {
            nonce: 3,
            assumed_next_nonce: 3,
            probe: steps[0].probe,
            expect: Expect::Accepted,
            resubmit: false,
        }
    );
    assert_eq!(steps[1].nonce, 3);
    assert_eq!(steps[1].assumed_next_nonce, 4); // the slot is taken now
    assert_eq!(steps[1].expect, expect_duplicate());
    // Without byte-identical bytes the probe would enter replace-by-fee and a
    // higher tip would be legitimately ACCEPTED — the flag is load-bearing.
    assert!(steps[1].resubmit);
}

#[test]
fn plans_saturate_at_the_nonce_ceiling_without_panicking() {
    for scenario in Scenario::all() {
        let steps = plan(scenario, u64::MAX);
        assert!(!steps.is_empty());
        assert!(steps.iter().all(|s| s.nonce == u64::MAX));
    }
}

#[test]
fn expected_gap_rejection_uses_the_existing_reject_vocabulary() {
    // The node's real NonceGap text has its own bucket, so a deliberate gap
    // probe is never confused with a transport failure; the marker pins the
    // exact wording on top of the class.
    let Expect::Rejected { class, marker } = expect_nonce_gap() else {
        panic!("gap expectation must be a rejection")
    };
    assert_eq!(classify_reject(&wrap(&gap_msg(7, 9))), class);
    assert_eq!(class, RejectClass::NonceGap);
    assert!(wrap(&gap_msg(7, 9)).contains(marker));
}

#[test]
fn expected_duplicate_rejection_matches_the_nodes_real_string() {
    let Expect::Rejected { class, marker } = expect_duplicate() else {
        panic!("duplicate expectation must be a rejection")
    };
    assert_eq!(
        classify_reject(&wrap("transaction already in the pool")),
        class
    );
    assert_eq!(class, RejectClass::NonceOccupied);
    assert!(wrap("transaction already in the pool").contains(marker));
    // The `NonceTaken` wording a non-identical resubmission would produce
    // lands in the SAME class, so a caller that cannot replay exact bytes
    // still never gets a false failure — only a weaker verdict.
    assert_eq!(
        classify_reject(&wrap(
            "a transaction with signer cannon.sov and nonce 3 is already pooled"
        )),
        RejectClass::NonceOccupied
    );
}

#[test]
fn a_correct_gap_rejection_is_a_match() {
    let step = plan(Scenario::Gap, 7)[0];
    let v = verdict(
        &step,
        &Observation {
            outcome: rejected(&gap_msg(7, 9)),
            next_nonce_before: 7,
            next_nonce_after: 7,
        },
    );
    assert_eq!(v, Verdict::Match);
    assert!(!v.is_failure());
}

#[test]
fn an_accepted_contiguous_nonce_is_a_match() {
    let step = plan(Scenario::Reorder, 100)[1];
    assert_eq!(
        verdict(
            &step,
            &Observation {
                outcome: Observed::Accepted,
                next_nonce_before: 100,
                next_nonce_after: 101,
            },
        ),
        Verdict::Match
    );
}

#[test]
fn admitting_a_tx_above_a_surviving_hole_is_the_one_hard_nonce_failure() {
    // The node accepted nonce 9 while reporting 7 as next mineable, and the
    // hole at 7 was still there afterwards. Nothing benign explains that.
    let step = plan(Scenario::Gap, 7)[0];
    let v = verdict(
        &step,
        &Observation {
            outcome: Observed::Accepted,
            next_nonce_before: 7,
            next_nonce_after: 7,
        },
    );
    assert!(v.is_failure(), "expected a MISMATCH, got {v:?}");
    assert!(v.reason().contains("Gap-free admission"));
}

#[test]
fn a_hole_filled_by_someone_else_mid_probe_is_never_scored_as_a_failure() {
    // Same acceptance, but the after-reading jumped to 10: a third party
    // filled 7 and 8 while we were submitting 9, which makes the acceptance
    // legitimate. This MUST NOT be a failure.
    let step = plan(Scenario::Gap, 7)[0];
    let v = verdict(
        &step,
        &Observation {
            outcome: Observed::Accepted,
            next_nonce_before: 7,
            next_nonce_after: 10,
        },
    );
    assert!(!v.is_failure());
    assert!(matches!(v, Verdict::Inconclusive(_)));
}

#[test]
fn a_stale_account_before_the_probe_is_never_scored() {
    // The plan assumed 7; the node reports 12 (someone else spent). No score,
    // whatever the outcome — including the outcome that would otherwise fail.
    let step = plan(Scenario::Gap, 7)[0];
    for outcome in [Observed::Accepted, rejected(&gap_msg(12, 9))] {
        let v = verdict(
            &step,
            &Observation {
                outcome,
                next_nonce_before: 12,
                next_nonce_after: 12,
            },
        );
        assert!(!v.is_failure());
        assert!(v.reason().contains("moved before the probe"));
    }
}

#[test]
fn contention_rejections_where_we_expected_acceptance_are_inconclusive_not_failures() {
    // Every rejection an ordinary busy mainnet produces must be survivable:
    // the cannon is a load tool, and failing here would fail on every run.
    let step = plan(Scenario::Reorder, 100)[1];
    for msg in [
        "mempool is full (16384 transactions)",
        "sender cannon.sov has reached its mempool limit of 256 pending transactions",
        "mempool at capacity: tip does not beat the current floor of 1000 — raise the tip and resubmit",
        "insufficient balance: pooled transfers would move 500 grains but only 100 are held",
        "stale transaction: account is at nonce 101, transaction used 100",
    ] {
        let v = verdict(
            &step,
            &Observation {
                outcome: rejected(msg),
                next_nonce_before: 100,
                next_nonce_after: 100,
            },
        );
        assert!(!v.is_failure(), "{msg} produced a false failure: {v:?}");
    }
    // A dead socket is likewise never a consensus accusation.
    let v = verdict(
        &step,
        &Observation {
            outcome: Observed::Rejected("transport: Connection refused (os error 61)".into()),
            next_nonce_before: 100,
            next_nonce_after: 100,
        },
    );
    assert!(!v.is_failure());
}

#[test]
fn a_transport_error_never_masquerades_as_the_expected_gap_rejection() {
    // A transport failure buckets as `Other`, the gap refusal as `NonceGap`,
    // so the class alone already separates them — and it must NEVER be
    // scored as a passing gap probe. It is inconclusive, not a failure: the
    // node never answered, so it neither honoured nor broke the rule.
    let step = plan(Scenario::Gap, 7)[0];
    let v = verdict(
        &step,
        &Observation {
            outcome: Observed::Rejected("transport: Connection refused (os error 61)".into()),
            next_nonce_before: 7,
            next_nonce_after: 7,
        },
    );
    assert_ne!(v, Verdict::Match);
    assert!(!v.is_failure(), "an unanswered probe must not accuse");
    assert!(
        v.reason().contains("NonceGap") && v.reason().contains("Other"),
        "the reason must name both classes: {}",
        v.reason()
    );
}

#[test]
fn a_rejection_in_the_wrong_class_is_inconclusive() {
    let step = plan(Scenario::Gap, 7)[0];
    let v = verdict(
        &step,
        &Observation {
            outcome: rejected("mempool is full (16384 transactions)"),
            next_nonce_before: 7,
            next_nonce_after: 7,
        },
    );
    assert!(matches!(v, Verdict::Inconclusive(_)));
    assert!(v.reason().contains("Capacity"));
}

#[test]
fn an_accepted_duplicate_replay_is_inconclusive_not_a_failure() {
    // Accepting a replay at a slot BELOW the first free nonce is consistent
    // with a legitimate in-place replacement (RBF), so it must not fail.
    let step = plan(Scenario::Duplicate, 3)[1];
    let v = verdict(
        &step,
        &Observation {
            outcome: Observed::Accepted,
            next_nonce_before: 4,
            next_nonce_after: 4,
        },
    );
    assert!(!v.is_failure());
    assert!(matches!(v, Verdict::Inconclusive(_)));
}

#[test]
fn a_correct_duplicate_rejection_is_a_match() {
    let step = plan(Scenario::Duplicate, 3)[1];
    assert_eq!(
        verdict(
            &step,
            &Observation {
                outcome: rejected("transaction already in the pool"),
                next_nonce_before: 4,
                next_nonce_after: 4,
            },
        ),
        Verdict::Match
    );
}

#[test]
fn a_rejection_that_moved_the_free_nonce_is_never_scored() {
    // A rejection cannot itself change the first free slot; if it moved,
    // something else did, and the probe is void.
    let step = plan(Scenario::Gap, 7)[0];
    let v = verdict(
        &step,
        &Observation {
            outcome: rejected(&gap_msg(7, 9)),
            next_nonce_before: 7,
            next_nonce_after: 8,
        },
    );
    assert!(matches!(v, Verdict::Inconclusive(_)));
    assert!(v.reason().contains("moved during the probe"));
}

#[test]
fn a_full_clean_gap_run_scores_every_step_as_a_match() {
    // Walk the whole scenario against a node that behaves exactly as the
    // pinned source says, and require an unbroken MATCH.
    let steps = plan(Scenario::Gap, 20);
    let mut free = 20u64; // the node's first free slot
    for step in &steps {
        let (outcome, after) = if step.nonce == free {
            (Observed::Accepted, free + 1)
        } else {
            (rejected(&gap_msg(free, step.nonce)), free)
        };
        let v = verdict(
            step,
            &Observation {
                outcome,
                next_nonce_before: free,
                next_nonce_after: after,
            },
        );
        assert_eq!(v, Verdict::Match, "step {step:?}");
        free = after;
    }
    assert_eq!(free, 23); // 20, 21, 22 all landed
}

#[test]
fn a_dormant_fork_is_legacy_at_every_height() {
    for height in [0u64, 1, 11_520, u64::MAX] {
        assert_eq!(phase_at(None, 576, height), ActivationPhase::Legacy);
    }
}

#[test]
fn phase_boundaries_are_activation_inclusive_and_grace_exclusive() {
    let (h_a, g) = (11_520u64, 576u64);
    assert_eq!(phase_at(Some(h_a), g, h_a - 1), ActivationPhase::Legacy);
    assert_eq!(phase_at(Some(h_a), g, h_a), ActivationPhase::Grace);
    assert_eq!(phase_at(Some(h_a), g, h_a + g - 1), ActivationPhase::Grace);
    assert_eq!(phase_at(Some(h_a), g, h_a + g), ActivationPhase::Bound);
    assert_eq!(phase_at(Some(h_a), g, u64::MAX), ActivationPhase::Bound);
}

#[test]
fn zero_grace_degenerates_to_the_original_cliff() {
    assert_eq!(phase_at(Some(100), 0, 99), ActivationPhase::Legacy);
    assert_eq!(phase_at(Some(100), 0, 100), ActivationPhase::Bound);
}

#[test]
fn an_absurd_grace_length_saturates_instead_of_wrapping_into_an_early_cliff() {
    // Wrapping would put `activation + grace` at MAX-2, below the height, and
    // read as Bound — the exact failure the node's saturating_add prevents.
    assert_eq!(
        phase_at(Some(u64::MAX - 1), u64::MAX, u64::MAX - 1),
        ActivationPhase::Grace
    );
    // The one height saturation cannot rescue is the ceiling itself: with the
    // window clamped to `[H_a, u64::MAX)`, height u64::MAX is Bound. The node
    // resolves it identically, so the expectation is honest, not idealized.
    assert_eq!(
        phase_at(Some(u64::MAX - 1), u64::MAX, u64::MAX),
        ActivationPhase::Bound
    );
}

#[test]
fn a_wrong_domain_signature_is_refused_in_every_phase() {
    for phase in ActivationPhase::all() {
        assert_eq!(
            expected_domain_outcome(phase, SignedUnder::WrongDomain),
            DomainOutcome::Refused,
            "phase {} must refuse a wrong-domain signature",
            phase.label()
        );
    }
}

#[test]
fn the_legacy_phase_accepts_only_legacy_signatures() {
    assert_eq!(
        expected_domain_outcome(ActivationPhase::Legacy, SignedUnder::Legacy),
        DomainOutcome::Accepted
    );
    assert_eq!(
        expected_domain_outcome(ActivationPhase::Legacy, SignedUnder::CorrectDomain),
        DomainOutcome::Refused
    );
}

#[test]
fn the_grace_phase_accepts_both_legacy_and_correctly_bound_signatures() {
    assert_eq!(
        expected_domain_outcome(ActivationPhase::Grace, SignedUnder::Legacy),
        DomainOutcome::Accepted
    );
    assert_eq!(
        expected_domain_outcome(ActivationPhase::Grace, SignedUnder::CorrectDomain),
        DomainOutcome::Accepted
    );
}

#[test]
fn the_bound_phase_accepts_only_correctly_bound_signatures() {
    assert_eq!(
        expected_domain_outcome(ActivationPhase::Bound, SignedUnder::Legacy),
        DomainOutcome::Refused
    );
    assert_eq!(
        expected_domain_outcome(ActivationPhase::Bound, SignedUnder::CorrectDomain),
        DomainOutcome::Accepted
    );
}

#[test]
fn domain_probes_enumerate_the_whole_row_for_a_phase() {
    for phase in ActivationPhase::all() {
        let probes = domain_probes(phase);
        assert_eq!(probes.len(), 3);
        for (signed, outcome) in probes {
            assert_eq!(outcome, expected_domain_outcome(phase, signed));
        }
    }
}

#[test]
fn an_accepted_wrong_domain_signature_is_a_hard_failure_in_every_phase() {
    for phase in ActivationPhase::all() {
        let v = domain_verdict(phase, SignedUnder::WrongDomain, &Observed::Accepted);
        assert!(
            v.is_failure(),
            "phase {} did not fail: {v:?}",
            phase.label()
        );
        assert!(v.reason().contains("DIFFERENT network's domain"));
    }
}

#[test]
fn a_refused_wrong_domain_signature_matches_only_at_the_signature_gate() {
    for phase in ActivationPhase::all() {
        assert_eq!(
            domain_verdict(
                phase,
                SignedUnder::WrongDomain,
                &rejected("invalid transaction signature")
            ),
            Verdict::Match
        );
        // Refused for an unrelated reason: the probe never reached the signature check.
        let v = domain_verdict(
            phase,
            SignedUnder::WrongDomain,
            &rejected("mempool is full (16384 transactions)"),
        );
        assert!(matches!(v, Verdict::Inconclusive(_)));
        assert!(!v.is_failure());
    }
}

#[test]
fn a_phase_boundary_misread_never_becomes_a_consensus_accusation() {
    // We believe the node is Bound and it accepted a legacy signature (it is
    // really still in grace), or we believe Legacy and it accepted a bound
    // one (it has activated). Both are OUR arithmetic, not its bug.
    for (phase, signed) in [
        (ActivationPhase::Bound, SignedUnder::Legacy),
        (ActivationPhase::Legacy, SignedUnder::CorrectDomain),
    ] {
        let v = domain_verdict(phase, signed, &Observed::Accepted);
        assert!(!v.is_failure(), "{phase:?}/{signed:?} falsely failed");
        assert!(v.reason().contains("boundary misread"));
    }
}

#[test]
fn an_expected_acceptance_that_was_refused_is_inconclusive() {
    let v = domain_verdict(
        ActivationPhase::Grace,
        SignedUnder::Legacy,
        &rejected("invalid transaction signature"),
    );
    assert!(!v.is_failure());
    assert!(matches!(v, Verdict::Inconclusive(_)));
}

#[test]
fn an_accepted_correctly_signed_transaction_is_a_match() {
    assert_eq!(
        domain_verdict(
            ActivationPhase::Bound,
            SignedUnder::CorrectDomain,
            &Observed::Accepted
        ),
        Verdict::Match
    );
}

#[test]
fn a_wrong_domain_can_never_come_back_equal_to_the_correct_one() {
    // Adversarial inputs: empty chain id, already-prefixed chain id, the zero
    // hash, the all-ones hash, and a spread of real digests.
    let mut cases = vec![
        SigningDomain::new(String::new(), [0x00; 32]),
        SigningDomain::new("not-".to_string(), [0x00; 32]),
        SigningDomain::new("not-not-sov".to_string(), [0xFF; 32]),
        SigningDomain::new("sov-mainnet".to_string(), [0x00; 32]),
    ];
    for i in 0..64u8 {
        cases.push(SigningDomain::new(format!("chain-{i}"), [i; 32]));
    }
    for correct in &cases {
        for kind in WrongDomainKind::all() {
            let w = wrong_domain(correct, kind);
            assert_ne!(&w, correct, "{kind:?} returned the CORRECT domain");
        }
    }
}

#[test]
fn each_wrong_domain_kind_changes_exactly_the_half_it_names() {
    let correct = domain("sov-mainnet");
    let wrong_id = wrong_domain(&correct, WrongDomainKind::ChainId);
    assert_ne!(wrong_id.chain_id(), correct.chain_id());
    assert_eq!(wrong_id.genesis(), correct.genesis());

    let wrong_genesis = wrong_domain(&correct, WrongDomainKind::Genesis);
    assert_eq!(wrong_genesis.chain_id(), correct.chain_id());
    assert_ne!(wrong_genesis.genesis(), correct.genesis());
}
