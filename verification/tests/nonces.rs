//! Nonces, rejection classes and what each does to the nonce.

use sov_tx_cannon::nonce::NonceSequencer;
use sov_tx_cannon::reject::{classify_reject, disposition, Disposition, RejectClass};

#[test]
fn nonces_are_monotonic_and_gap_free_across_blocks() {
    // Start from account nonce 5; fire rate=3 for four blocks while nothing is
    // mined (the node keeps reporting 5). Expect 5,6,7,8,...,16 with no reuse.
    let mut seq = NonceSequencer::new();
    let mut handed = Vec::new();
    for _block in 0..4 {
        seq.reconcile(5); // node's next nonce, unchanged
        for _ in 0..3 {
            handed.push(seq.next());
        }
    }
    assert_eq!(handed, (5..17).collect::<Vec<u64>>());
    // Strictly increasing, no duplicates.
    for w in handed.windows(2) {
        assert!(w[1] == w[0] + 1);
    }
}

#[test]
fn reconcile_jumps_forward_when_someone_else_spent() {
    let mut seq = NonceSequencer::new();
    seq.reconcile(5);
    assert_eq!(seq.next(), 5);
    assert_eq!(seq.next(), 6); // pending now 7
                               // Node reports 9 (an external spend landed): jump forward, never reuse 7/8.
    seq.reconcile(9);
    assert_eq!(seq.next(), 9);
    assert_eq!(seq.peek(), 10);
}

#[test]
fn reconcile_is_a_noop_when_node_is_behind_or_equal() {
    let mut seq = NonceSequencer::new();
    seq.reconcile(10);
    assert_eq!(seq.next(), 10);
    assert_eq!(seq.next(), 11); // pending 12 (our txs still in mempool)
                                // Node still reports 10 (nothing mined yet) — must NOT rewind to 10.
    seq.reconcile(10);
    assert_eq!(seq.peek(), 12);
    seq.reconcile(5); // even further behind — still no rewind
    assert_eq!(seq.peek(), 12);
    assert_eq!(seq.next(), 12);
}

#[test]
fn reconcile_after_our_txs_mine_continues_without_gap() {
    let mut seq = NonceSequencer::new();
    seq.reconcile(0);
    let first: Vec<u64> = (0..3).map(|_| seq.next()).collect();
    assert_eq!(first, vec![0, 1, 2]);
    // Our 3 txs mined ⇒ node now reports next nonce 3. Continue 3,4,5.
    seq.reconcile(3);
    let second: Vec<u64> = (0..3).map(|_| seq.next()).collect();
    assert_eq!(second, vec![3, 4, 5]);
}

/// The scripted outcome of one simulated submit at the peeked nonce.
enum Sim {
    Accept,
    Reject(RejectClass),
    /// Reject with the node's next nonce to reconcile against.
    StaleWithNodeNonce(u64),
}

/// Drive the peek → submit → commit flow the continuous worker uses and
/// return every nonce actually SUBMITTED, in order.
fn drive(seq: &mut NonceSequencer, script: &[Sim]) -> Vec<u64> {
    let mut submitted = Vec::new();
    for step in script {
        let nonce = seq.peek();
        submitted.push(nonce); // build+sign+submit happens at the peeked nonce
        match step {
            Sim::Accept => seq.advance(),
            Sim::StaleWithNodeNonce(node_next) => {
                assert_eq!(
                    disposition(RejectClass::NonceStale),
                    Disposition::ReconcileForward
                );
                seq.reconcile(*node_next);
            }
            Sim::Reject(class) => match disposition(*class) {
                Disposition::HoldAndRetry
                | Disposition::HoldAndRetryOther
                | Disposition::WaitAffordable => {}
                Disposition::Advance => seq.advance(),
                Disposition::ReconcileForward => unreachable!("use StaleWithNodeNonce"),
            },
        }
    }
    submitted
}

#[test]
fn advance_only_on_accept_keeps_the_stream_gap_free() {
    let mut seq = NonceSequencer::new();
    seq.reconcile(10);
    let submitted = drive(
        &mut seq,
        &[
            Sim::Accept,                             // 10 accepted
            Sim::Reject(RejectClass::Capacity),      // 11 mempool-full → hold
            Sim::Reject(RejectClass::Capacity),      // 11 again → hold
            Sim::Accept,                             // 11 finally accepted
            Sim::Reject(RejectClass::Other),         // 12 unknown → hold
            Sim::Accept,                             // 12 accepted
            Sim::Reject(RejectClass::NonceOccupied), // 13 already pooled → advance
            Sim::Accept,                             // 14 accepted
        ],
    );
    assert_eq!(submitted, vec![10, 11, 11, 11, 12, 12, 13, 14]);
    // The COMMITTED sequence (unique nonces, in order) has no gap and no burn.
    let mut committed = submitted.clone();
    committed.dedup();
    assert_eq!(committed, vec![10, 11, 12, 13, 14]);
    assert_eq!(seq.peek(), 15);
}

#[test]
fn capacity_reject_never_burns_a_nonce() {
    let mut seq = NonceSequencer::new();
    seq.reconcile(0);
    // 100 consecutive mempool-full rejections: the nonce must not move.
    let submitted = drive(
        &mut seq,
        &(0..100)
            .map(|_| Sim::Reject(RejectClass::Capacity))
            .collect::<Vec<_>>(),
    );
    assert!(submitted.iter().all(|&n| n == 0));
    assert_eq!(seq.peek(), 0);
    // The moment capacity frees up, the SAME nonce goes through.
    let after = drive(&mut seq, &[Sim::Accept]);
    assert_eq!(after, vec![0]);
    assert_eq!(seq.peek(), 1);
}

#[test]
fn stale_reject_reconciles_forward_to_the_node() {
    let mut seq = NonceSequencer::new();
    seq.reconcile(5);
    // Our txs 5..8 mined while we were building 5 (stale view): the node now
    // reports next nonce 8 — jump forward, continue gap-free from 8.
    let submitted = drive(
        &mut seq,
        &[Sim::StaleWithNodeNonce(8), Sim::Accept, Sim::Accept],
    );
    assert_eq!(submitted, vec![5, 8, 9]);
    assert_eq!(seq.peek(), 10);
}

#[test]
fn insufficient_waits_and_recovers_holding_the_nonce() {
    // The refire-after-Stop scenario: the previous run's pending txs still
    // commit the balance, the node rejects with "insufficient", and the
    // worker must HOLD the nonce and continue once balance frees — never die.
    let mut seq = NonceSequencer::new();
    seq.reconcile(3);
    let submitted = drive(
        &mut seq,
        &[
            Sim::Accept,
            Sim::Reject(RejectClass::Insufficient),
            Sim::Accept,
        ],
    );
    // The affordability rejection holds nonce 4; the next accept fires it.
    assert_eq!(submitted, vec![3, 4, 4]);
    assert_eq!(seq.peek(), 5);
}

#[test]
fn classifies_the_nodes_real_rejection_strings() {
    // Full client-visible wrapping: RpcClientError::Rpc → "rpc error CODE: "
    // + RPC server → "rejected: " + NodeError::Mempool → "mempool rejected
    // transaction: " + the MempoolError display strings.
    let wrap = |inner: &str| {
        format!("rpc error -32000: rejected: mempool rejected transaction: {inner}")
    };

    assert_eq!(
        classify_reject(&wrap("mempool is full (16384 transactions)")),
        RejectClass::Capacity
    );
    assert_eq!(
        classify_reject(&wrap(
            "sender 81f4ccaa has reached its mempool limit of 256 pending transactions"
        )),
        RejectClass::Capacity
    );
    assert_eq!(
        classify_reject(&wrap(
            "stale transaction: account is at nonce 12, transaction used 7"
        )),
        RejectClass::NonceStale
    );
    assert_eq!(
        classify_reject(&wrap("transaction already in the pool")),
        RejectClass::NonceOccupied
    );
    assert_eq!(
        classify_reject(&wrap(
            "a transaction with signer cannon.sov and nonce 9 is already pooled"
        )),
        RejectClass::NonceOccupied
    );
    assert_eq!(
        classify_reject(&wrap(
            "insufficient balance: pooled transfers would move 500 grains but only 100 are held"
        )),
        RejectClass::Insufficient
    );
    assert_eq!(
        classify_reject(&wrap("invalid transaction signature")),
        RejectClass::Other
    );
    // Non-mempool rejections and transport failures → the default bucket.
    assert_eq!(
        classify_reject(
            "rpc error -32000: rejected: unauthorized: x.sov cannot be acted on by this key"
        ),
        RejectClass::Other
    );
    assert_eq!(
        classify_reject("transport: Connection refused (os error 61)"),
        RejectClass::Other
    );
}

#[test]
fn dispositions_cover_every_class_correctly() {
    assert_eq!(
        disposition(RejectClass::Capacity),
        Disposition::HoldAndRetry
    );
    assert_eq!(
        disposition(RejectClass::NonceStale),
        Disposition::ReconcileForward
    );
    assert_eq!(
        disposition(RejectClass::NonceOccupied),
        Disposition::Advance
    );
    assert_eq!(
        disposition(RejectClass::Insufficient),
        Disposition::WaitAffordable
    );
    assert_eq!(
        disposition(RejectClass::Other),
        Disposition::HoldAndRetryOther
    );
}

#[test]
fn heartbeat_resyncs_its_nonce_after_an_error_gap_without_wedging() {
    // The long-haul failure mode: the node goes away mid-stream (transport
    // errors, which are NOT proof the slot was consumed), then comes back with
    // the account moved on because our earlier txs mined. The heartbeat must
    // hold its nonce through the gap, resync forward, and keep going — never
    // reuse a committed nonce and never wedge on a burnt one.
    let mut seq = NonceSequencer::new();
    seq.reconcile(40);
    let submitted = drive(
        &mut seq,
        &[
            Sim::Accept,                             // 40 pooled
            Sim::Accept,                             // 41 pooled
            Sim::Reject(RejectClass::Other),         // 42: node unreachable → hold
            Sim::Reject(RejectClass::Other),         // 42 again → still held
            Sim::StaleWithNodeNonce(42),             // back up: 40+41 mined, next is 42
            Sim::Accept,                             // 42 pooled
            Sim::Reject(RejectClass::NonceOccupied), // 43 was our own retry
            Sim::Accept,                             // 44 pooled
        ],
    );
    assert_eq!(submitted, vec![40, 41, 42, 42, 42, 42, 43, 44]);
    let mut committed = submitted.clone();
    committed.dedup();
    assert_eq!(committed, vec![40, 41, 42, 43, 44]); // gap-free, nothing reused
    assert_eq!(seq.peek(), 45);
}
