//! Per-account nonces: strictly monotonic, gap-free, never reused.

use vstd::prelude::*;

verus! {

/// Hands out per-account nonces for the traffic we generate.
///
/// The pending nonce is the next one we will assign. It is reconciled against the
/// node's reported next nonce: if the node has moved ahead we jump forward so we
/// never reuse a nonce, and we never move backward, so transactions already
/// submitted keep their reserved nonces.
#[derive(Clone, Debug)]
pub struct NonceSequencer {
    pending: u64,
}

impl Default for NonceSequencer {
    fn default() -> (s: Self)
        ensures
            s@ == 0,
    {
        Self { pending: 0 }
    }
}

/// The pending nonce after a reading of the node's next nonce.
pub open spec fn reconciled(pending: u64, reported: u64) -> u64 {
    if reported > pending {
        reported
    } else {
        pending
    }
}

impl NonceSequencer {
    /// The pending nonce.
    pub closed spec fn view(&self) -> u64 {
        self.pending
    }

    /// A fresh sequencer; the first [`reconcile`](Self::reconcile) sets the floor.
    pub fn new() -> (s: Self)
        ensures
            s@ == 0,
    {
        Self { pending: 0 }
    }

    /// Raise the next-nonce floor to the node's reported next nonce, never lowering
    /// it.
    pub fn reconcile(&mut self, rpc_next_nonce: u64)
        ensures
            final(self)@ == reconciled(old(self)@, rpc_next_nonce),
    {
        if rpc_next_nonce > self.pending {
            self.pending = rpc_next_nonce;
        }
    }

    /// Allocate the next nonce and advance.
    pub fn next(&mut self) -> (n: u64)
        requires
            old(self)@ < u64::MAX,
        ensures
            n == old(self)@,
            final(self)@ == old(self)@ + 1,
    {
        let n: u64 = self.pending;
        self.pending = n + 1;
        n
    }

    /// The nonce that would be handed out next, and the nonce a continuous-mode
    /// worker builds at without yet consuming it.
    pub fn peek(&self) -> (n: u64)
        ensures
            n == self@,
    {
        self.pending
    }

    /// Commit the peeked nonce: advance past it because the node has consumed that
    /// slot. A capacity rejection must not call this, so the same nonce is retried
    /// and the account never develops a gap.
    pub fn advance(&mut self)
        requires
            old(self)@ < u64::MAX,
        ensures
            final(self)@ == old(self)@ + 1,
    {
        self.pending = self.pending + 1;
    }
}

/// What can happen to a sequencer.
pub enum NonceStep {
    /// A reading of the node's next nonce.
    Reconcile(u64),
    /// A nonce is handed out, or a peeked one is committed.
    Take,
    /// A submit failed without consuming its slot.
    Hold,
}

/// The pending nonce after some steps.
pub open spec fn pending_after(start: nat, steps: Seq<NonceStep>) -> nat
    decreases steps.len(),
{
    if steps.len() == 0 {
        start
    } else {
        let p = pending_after(start, steps.drop_last());
        match steps.last() {
            NonceStep::Reconcile(n) => if n > p {
                n as nat
            } else {
                p
            },
            NonceStep::Take => p + 1,
            NonceStep::Hold => p,
        }
    }
}

/// The nonces taken over some steps, in order.
pub open spec fn taken(start: nat, steps: Seq<NonceStep>) -> Seq<nat>
    decreases steps.len(),
{
    if steps.len() == 0 {
        Seq::empty()
    } else {
        let t = taken(start, steps.drop_last());
        if steps.last() is Take {
            t.push(pending_after(start, steps.drop_last()))
        } else {
            t
        }
    }
}

/// Whatever the node reports and however many submits are retried, the nonces taken
/// strictly increase: none is ever reused, and the pending nonce is above them all.
pub proof fn law_nonces_are_never_reused(start: nat, steps: Seq<NonceStep>)
    ensures
        pending_after(start, steps) >= start,
        forall|i: int| 0 <= i < taken(start, steps).len() ==> start <= #[trigger] taken(
            start,
            steps,
        )[i] < pending_after(start, steps),
        forall|i: int, j: int|
            0 <= i < j < taken(start, steps).len() ==> #[trigger] taken(start, steps)[i]
                < #[trigger] taken(start, steps)[j],
    decreases steps.len(),
{
    if steps.len() > 0 {
        let d = steps.drop_last();
        law_nonces_are_never_reused(start, d);
        let t = taken(start, d);
        let n = taken(start, steps);
        assert forall|i: int| 0 <= i < n.len() implies start <= #[trigger] n[i] < pending_after(
            start,
            steps,
        ) by {
            if i < t.len() {
                assert(n[i] == t[i]);
            }
        }
        assert forall|i: int, j: int| 0 <= i < j < n.len() implies #[trigger] n[i]
            < #[trigger] n[j] by {
            assert(n[i] == t[i]);
            if j < t.len() {
                assert(n[j] == t[j]);
            }
        }
    }
}

/// While the node is never ahead of us, the nonces taken are gap-free: consecutive
/// from the start.
pub proof fn law_nonces_are_gap_free(start: nat, steps: Seq<NonceStep>)
    requires
        forall|i: int|
            0 <= i < steps.len() ==> ((#[trigger] steps[i]) matches NonceStep::Reconcile(n) ==> n
                <= start),
    ensures
        pending_after(start, steps) == start + taken(start, steps).len(),
        forall|i: int|
            0 <= i < taken(start, steps).len() ==> #[trigger] taken(start, steps)[i] == start + i,
    decreases steps.len(),
{
    if steps.len() > 0 {
        let d = steps.drop_last();
        assert forall|i: int| 0 <= i < d.len() implies ((
        #[trigger] d[i]) matches NonceStep::Reconcile(n) ==> n <= start) by {
            assert(steps[i] == d[i]);
        }
        assert(steps[steps.len() - 1] == steps.last());
        law_nonces_are_gap_free(start, d);
    }
}

/// A held nonce is the next one taken.
pub proof fn law_holding_keeps_the_nonce(start: nat, steps: Seq<NonceStep>)
    ensures
        pending_after(start, steps.push(NonceStep::Hold)) == pending_after(start, steps),
{
    assert(steps.push(NonceStep::Hold).drop_last() =~= steps);
}

/// Reconciling takes the later of the two nonces: ours is never given up for an earlier one,
/// and one that the node is already past is never used again.
pub proof fn law_reconciling_takes_the_later_nonce(pending: u64, reported: u64)
    ensures
        reconciled(pending, reported) >= pending,
        reconciled(pending, reported) >= reported,
        reconciled(pending, reported) == pending || reconciled(pending, reported) == reported,
{
}

} // verus!
