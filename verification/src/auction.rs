//! The blockspace auction: what to bid, which bid a transaction made, where the
//! price floor lies, and what replaces a pooled transaction.
//!
//! A transaction may carry a priority bid by wrapping its action in the
//! [`Action::Tipped`] envelope. The bid is mempool policy, not validity: an
//! untipped transaction is never rejected for bidding zero, it waits behind funded
//! bids. Nothing here talks to a node; the caller submits and feeds back answers
//! and randomness.

use crate::chain::Action;
use crate::chain::ActionView;
use crate::text;
use crate::text::owned;
use crate::text::push_decimal;
use vstd::prelude::*;

verus! {

/// Minimum tip increase, in grains, that a replace-by-fee must add over the pooled
/// transaction it displaces.
pub const MIN_RBF_BUMP_GRAINS: u128 = 1_000;

/// How the ladder hands out its rungs.
#[derive(Clone, Copy, Debug, PartialEq, Eq, Structural)]
pub enum LadderMode {
    /// Cycle the rungs in ascending order, each the same number of times.
    RoundRobin,
    /// Pick a rung uniformly at random per transaction.
    Random,
}

/// What tip, if any, each generated transaction bids.
#[derive(Clone, Debug, PartialEq, Eq)]
pub enum TipPolicy {
    /// No envelope at all: the bare action, bidding zero.
    Untipped,
    /// Every transaction bids exactly this many grains.
    Fixed(u128),
    /// Bids are drawn from these rungs, in grains.
    Ladder {
        /// The rungs: ascending, distinct, all non-zero in a valid policy, so every
        /// bid maps to exactly one bucket.
        rungs: Vec<u128>,
        /// How a rung is chosen per transaction.
        mode: LadderMode,
    },
}

/// `std::slice::from_ref` gives the one-element slice that holds the value.
pub assume_specification<T>[ std::slice::from_ref::<T> ](s: &T) -> (r: &[T])
    ensures
        r@ == seq![*s],
;

/// Strictly ascending.
pub open spec fn ascends(rungs: Seq<u128>) -> bool {
    forall|i: int, j: int| 0 <= i < j < rungs.len() ==> rungs[i] < rungs[j]
}

impl TipPolicy {
    /// The rungs this policy bids on.
    pub open spec fn spec_rungs(&self) -> Seq<u128> {
        match self {
            TipPolicy::Untipped => Seq::empty(),
            TipPolicy::Fixed(v) => seq![*v],
            TipPolicy::Ladder { rungs, .. } => rungs@,
        }
    }

    /// The policy is well formed: every bid it makes is non-zero, and a ladder has
    /// rungs that ascend.
    pub open spec fn valid(&self) -> bool {
        match self {
            TipPolicy::Untipped => true,
            TipPolicy::Fixed(v) => *v != 0,
            TipPolicy::Ladder { rungs, .. } => rungs@.len() > 0 && rungs@[0] != 0 && ascends(
                rungs@,
            ),
        }
    }

    /// Why a malformed policy is refused.
    pub open spec fn complaint(&self) -> Seq<char> {
        match self {
            TipPolicy::Untipped => ""@,
            TipPolicy::Fixed(_) => "tip must be greater than zero (use Untipped for no tip)"@,
            TipPolicy::Ladder { rungs, .. } => if rungs@.len() == 0 {
                "the tip ladder needs at least one rung"@
            } else if rungs@[0] == 0 {
                "ladder rungs must be greater than zero"@
            } else {
                "ladder rungs must ascend and be distinct"@
            },
        }
    }

    /// Validate the policy's shape, so a malformed ladder can never reach a worker.
    /// A zero fixed tip is refused: it bids nothing, so it is a confusing way to
    /// spell [`TipPolicy::Untipped`].
    #[verifier::loop_isolation(false)]
    pub fn validate(&self) -> (r: Result<(), String>)
        ensures
            r is Ok <==> self.valid(),
            r matches Err(e) ==> e@ == self.complaint(),
    {
        match self {
            TipPolicy::Untipped => Ok(()),
            TipPolicy::Fixed(v) => {
                if *v == 0 {
                    return Err(owned("tip must be greater than zero (use Untipped for no tip)"));
                }
                Ok(())
            },
            TipPolicy::Ladder { rungs, .. } => {
                if rungs.len() == 0 {
                    return Err(owned("the tip ladder needs at least one rung"));
                }
                if rungs[0] == 0 {
                    return Err(owned("ladder rungs must be greater than zero"));
                }
                let mut i: usize = 1;
                while i < rungs.len()
                    invariant
                        1 <= i <= rungs@.len(),
                        forall|a: int, b: int| 0 <= a < b < i ==> rungs@[a] < rungs@[b],
                    decreases rungs@.len() - i,
                {
                    if rungs[i] <= rungs[i - 1] {
                        assert(!ascends(rungs@)) by {
                            assert(rungs@[i - 1] >= rungs@[i as int]);
                        }
                        return Err(owned("ladder rungs must ascend and be distinct"));
                    }
                    i = i + 1;
                }
                Ok(())
            },
        }
    }

    /// The rungs this policy bids on, ascending: empty for [`TipPolicy::Untipped`],
    /// the single value for [`TipPolicy::Fixed`], the ladder itself otherwise. The
    /// latency buckets are keyed by exactly these.
    pub fn rungs(&self) -> (r: &[u128])
        ensures
            r@ == self.spec_rungs(),
    {
        match self {
            TipPolicy::Untipped => {
                let none: &[u128] = &[];
                assert(none@ =~= Seq::<u128>::empty());
                none
            },
            TipPolicy::Fixed(v) => std::slice::from_ref(v),
            TipPolicy::Ladder { rungs, .. } => rungs.as_slice(),
        }
    }

    /// The bucket a tip falls in under this policy's rungs.
    pub fn bucket(&self, tip_grains: u128) -> (b: TipBucket)
        ensures
            bucket_is(self.spec_rungs(), tip_grains, b),
    {
        bucket_of(self.rungs(), tip_grains)
    }
}

/// Which rung of the ladder a bid cleared.
///
/// Bucket identity is the rung value in grains, not an index: a run that changes
/// its ladder produces differently labelled buckets.
#[derive(Clone, Copy, Debug, PartialEq, Eq, PartialOrd, Ord, Structural)]
pub enum TipBucket {
    /// A zero bid: the bare, untipped action.
    Untipped,
    /// A non-zero bid that did not reach the lowest rung.
    BelowLadder,
    /// The highest rung this bid cleared, in grains.
    Rung(u128),
}

impl TipBucket {
    /// A short, stable label for an axis tick or a table cell.
    pub open spec fn spec_label(self) -> Seq<char> {
        match self {
            TipBucket::Untipped => "untipped"@,
            TipBucket::BelowLadder => "<ladder"@,
            TipBucket::Rung(g) => "≥"@ + text::decimal(g as nat),
        }
    }

    /// A short, stable label for an axis tick or a table cell.
    pub fn label(self) -> (s: String)
        ensures
            s@ == self.spec_label(),
    {
        match self {
            TipBucket::Untipped => owned("untipped"),
            TipBucket::BelowLadder => owned("<ladder"),
            TipBucket::Rung(g) => {
                let mut s = owned("≥");
                push_decimal(&mut s, g);
                s
            },
        }
    }
}

/// The bucket of a bid against a ladder: zero is not a bid; otherwise the highest
/// rung that the bid reaches, or below the ladder where it reaches none.
pub open spec fn bucket_is(rungs: Seq<u128>, tip: u128, b: TipBucket) -> bool {
    match b {
        TipBucket::Untipped => tip == 0,
        TipBucket::BelowLadder => tip != 0 && forall|i: int|
            0 <= i < rungs.len() ==> #[trigger] rungs[i] > tip,
        TipBucket::Rung(r) => {
            &&& tip != 0
            &&& r <= tip
            &&& rungs.contains(r)
            &&& forall|i: int| 0 <= i < rungs.len() && #[trigger] rungs[i] <= tip ==> rungs[i] <= r
        },
    }
}

/// Classify `tip_grains` against a ladder. A tip between two rungs is credited to
/// the lower one; a tip below every rung, or any tip at all when the ladder is
/// empty, is [`TipBucket::BelowLadder`].
pub fn bucket_of(rungs: &[u128], tip_grains: u128) -> (b: TipBucket)
    ensures
        bucket_is(rungs@, tip_grains, b),
{
    if tip_grains == 0 {
        return TipBucket::Untipped;
    }
    let mut cleared: Option<u128> = None;
    let mut i: usize = 0;
    while i < rungs.len()
        invariant
            i <= rungs@.len(),
            match cleared {
                None => forall|k: int| 0 <= k < i ==> #[trigger] rungs@[k] > tip_grains,
                Some(c) => {
                    &&& c <= tip_grains
                    &&& rungs@.contains(c)
                    &&& forall|k: int|
                        0 <= k < i && #[trigger] rungs@[k] <= tip_grains ==> rungs@[k] <= c
                },
            },
        decreases rungs@.len() - i,
    {
        let r: u128 = rungs[i];
        if r <= tip_grains {
            assert(rungs@.contains(r));
            cleared = Some(
                match cleared {
                    Some(c) => if c >= r {
                        c
                    } else {
                        r
                    },
                    None => r,
                },
            );
        }
        i = i + 1;
    }
    match cleared {
        Some(r) => TipBucket::Rung(r),
        None => TipBucket::BelowLadder,
    }
}

/// Every bid falls in exactly one bucket.
pub proof fn law_buckets_do_not_overlap(rungs: Seq<u128>, tip: u128, a: TipBucket, b: TipBucket)
    requires
        bucket_is(rungs, tip, a),
        bucket_is(rungs, tip, b),
    ensures
        a == b,
{
    match (a, b) {
        (TipBucket::Rung(x), TipBucket::Rung(y)) => {
            let i = choose|i: int| 0 <= i < rungs.len() && rungs[i] == x;
            let j = choose|j: int| 0 <= j < rungs.len() && rungs[j] == y;
            assert(rungs[i] <= y && rungs[j] <= x);
        },
        (TipBucket::Rung(x), TipBucket::BelowLadder) => {
            let i = choose|i: int| 0 <= i < rungs.len() && rungs[i] == x;
            assert(rungs[i] > tip);
        },
        (TipBucket::BelowLadder, TipBucket::Rung(y)) => {
            let j = choose|j: int| 0 <= j < rungs.len() && rungs[j] == y;
            assert(rungs[j] > tip);
        },
        _ => {},
    }
}

/// Every bid a valid policy makes lands in its own rung's bucket.
pub proof fn law_a_policy_bid_is_its_own_bucket(policy: TipPolicy, i: int)
    requires
        policy.valid(),
        0 <= i < policy.spec_rungs().len(),
    ensures
        bucket_is(
            policy.spec_rungs(),
            policy.spec_rungs()[i],
            TipBucket::Rung(policy.spec_rungs()[i]),
        ),
{
    let r = policy.spec_rungs();
    assert(r.contains(r[i]));
    if i > 0 {
        assert(r[0] < r[i]);
    }
}

/// Hands out the tip for each transaction under a valid [`TipPolicy`].
///
/// The caller supplies one uniform value per call, which keeps the selector
/// reproducible.
#[derive(Clone, Debug)]
pub struct TipSelector {
    policy: TipPolicy,
    cursor: usize,
}

impl TipSelector {
    /// The policy bid under.
    pub closed spec fn spec_policy(&self) -> TipPolicy {
        self.policy
    }

    /// The index of the rung that a round robin hands out next.
    pub closed spec fn cursor(&self) -> int {
        self.cursor as int
    }

    /// The policy is valid and the cursor is on the ladder.
    pub open spec fn wf(&self) -> bool {
        &&& self.spec_policy().valid()
        &&& self.spec_policy() is Ladder ==> 0 <= self.cursor()
            < self.spec_policy().spec_rungs().len()
    }

    /// Build a selector; refused exactly when [`TipPolicy::validate`] refuses.
    pub fn new(policy: TipPolicy) -> (r: Result<Self, String>)
        ensures
            r is Ok <==> policy.valid(),
            match r {
                Ok(s) => s.wf() && s.spec_policy() == policy && s.cursor() == 0,
                Err(e) => e@ == policy.complaint(),
            },
    {
        match policy.validate() {
            Ok(()) => Ok(Self { policy, cursor: 0 }),
            Err(e) => Err(e),
        }
    }

    /// The policy this selector bids under.
    pub fn policy(&self) -> (p: &TipPolicy)
        ensures
            *p == self.spec_policy(),
    {
        &self.policy
    }

    /// The tip bucket a bid falls in under this selector's policy.
    pub fn bucket(&self, tip_grains: u128) -> (b: TipBucket)
        ensures
            bucket_is(self.spec_policy().spec_rungs(), tip_grains, b),
    {
        self.policy.bucket(tip_grains)
    }

    /// The bucket as the small opaque integer key latency samples are pooled by:
    /// `0` untipped, `1` a non-zero bid below the lowest rung, and `2 + i` the
    /// `i`-th rung. A ladder longer than the key space saturates on the last key
    /// rather than wrapping.
    pub fn bucket_key(&self, tip_grains: u128) -> (k: crate::histogram::TipBucket)
        requires
            self.wf(),
        ensures
            key_is(self.spec_policy().spec_rungs(), tip_grains, k),
    {
        match self.bucket(tip_grains) {
            TipBucket::Untipped => 0,
            TipBucket::BelowLadder => 1,
            TipBucket::Rung(r) => {
                let rungs = self.policy.rungs();
                let mut idx: usize = 0;
                let ghost at = choose|i: int| 0 <= i < rungs@.len() && rungs@[i] == r;
                assert(0 <= at < rungs@.len() && rungs@[at] == r);
                while idx < rungs.len() && rungs[idx] != r
                    invariant
                        idx <= rungs@.len(),
                        0 <= at < rungs@.len(),
                        rungs@[at] == r,
                        forall|k: int| 0 <= k < idx ==> rungs@[k] != r,
                    decreases rungs@.len() - idx,
                {
                    idx = idx + 1;
                }
                assert(rungs@[idx as int] == r);
                let i: usize = if idx < 253 {
                    idx
                } else {
                    253
                };
                2 + i as u8
            },
        }
    }

    /// The next bid, in grains; `None` means "send the bare action, no envelope".
    /// `draw` is consulted only for [`LadderMode::Random`].
    pub fn next_tip(&mut self, draw: u128) -> (r: Option<u128>)
        requires
            old(self).wf(),
        ensures
            final(self).wf(),
            final(self).spec_policy() == old(self).spec_policy(),
            r == tip_after(old(self).spec_policy(), old(self).cursor(), draw),
            final(self).cursor() == cursor_after(old(self).spec_policy(), old(self).cursor()),
    {
        match &self.policy {
            TipPolicy::Untipped => None,
            TipPolicy::Fixed(v) => Some(*v),
            TipPolicy::Ladder { rungs, mode } => {
                let n: usize = rungs.len();
                let idx: usize = match mode {
                    LadderMode::RoundRobin => {
                        let i: usize = self.cursor;
                        self.cursor = if i + 1 == n {
                            0
                        } else {
                            i + 1
                        };
                        i
                    },
                    LadderMode::Random => (draw % (n as u128)) as usize,
                };
                Some(rungs[idx])
            },
        }
    }
}

/// The latency key of a bid.
pub open spec fn key_is(rungs: Seq<u128>, tip: u128, k: u8) -> bool {
    if tip == 0 {
        k == 0
    } else if forall|i: int| 0 <= i < rungs.len() ==> #[trigger] rungs[i] > tip {
        k == 1
    } else {
        exists|i: int|
            #![trigger rungs[i]]
            0 <= i < rungs.len() && bucket_is(rungs, tip, TipBucket::Rung(rungs[i])) && k == 2 + (
            if i < 253 {
                i
            } else {
                253
            })
    }
}

/// The bid a policy makes at a cursor position with a draw.
pub open spec fn tip_after(policy: TipPolicy, cursor: int, draw: u128) -> Option<u128> {
    match policy {
        TipPolicy::Untipped => None,
        TipPolicy::Fixed(v) => Some(v),
        TipPolicy::Ladder { rungs, mode } => match mode {
            LadderMode::RoundRobin => Some(rungs@[cursor]),
            LadderMode::Random => Some(rungs@[draw as int % rungs@.len() as int]),
        },
    }
}

/// The cursor after one bid: a round robin moves on and wraps, nothing else moves.
pub open spec fn cursor_after(policy: TipPolicy, cursor: int) -> int {
    match policy {
        TipPolicy::Ladder { rungs, mode } => if mode == LadderMode::RoundRobin {
            if cursor + 1 == rungs@.len() {
                0
            } else {
                cursor + 1
            }
        } else {
            cursor
        },
        _ => cursor,
    }
}

/// The round-robin cursor after `n` bids from the start of the ladder.
pub open spec fn cursor_after_many(policy: TipPolicy, n: nat) -> int
    decreases n,
{
    if n == 0 {
        0
    } else {
        cursor_after(policy, cursor_after_many(policy, (n - 1) as nat))
    }
}

/// A round robin visits the rungs in ascending order, over and over: the `n`-th bid
/// is the rung at `n` modulo the ladder's length.
pub proof fn law_round_robin_cycles_every_rung(policy: TipPolicy, n: nat)
    requires
        policy.valid(),
        policy matches TipPolicy::Ladder { mode, .. } && mode == LadderMode::RoundRobin,
    ensures
        cursor_after_many(policy, n) == n as int % policy.spec_rungs().len() as int,
        0 <= cursor_after_many(policy, n) < policy.spec_rungs().len(),
    decreases n,
{
    let len = policy.spec_rungs().len() as int;
    if n > 0 {
        law_round_robin_cycles_every_rung(policy, (n - 1) as nat);
        let c = (n - 1) % len;
        vstd::arithmetic::div_mod::lemma_fundamental_div_mod(n - 1, len);
        let q = (n - 1) / len;
        if c + 1 == len {
            assert(n as int == (q + 1) * len) by (nonlinear_arith)
                requires
                    n - 1 == len * q + c,
                    c + 1 == len,
            ;
            vstd::arithmetic::div_mod::lemma_fundamental_div_mod_converse(
                n as int,
                len,
                q + 1,
                0,
            );
        } else {
            assert(n as int == q * len + (c + 1)) by (nonlinear_arith)
                requires
                    n - 1 == len * q + c,
            ;
            vstd::arithmetic::div_mod::lemma_fundamental_div_mod_converse(
                n as int,
                len,
                q,
                c + 1,
            );
        }
    } else {
        vstd::arithmetic::div_mod::lemma_small_mod(0, len as nat);
    }
}

/// The inner actions an envelope may not carry.
pub open spec fn untippable(a: ActionView) -> bool {
    a is Tipped || a is MultisigExec || a is RotateKey
}

/// Wrap `inner` in a fee-auction envelope bidding `tip_grains`.
///
/// Refuses exactly what the node refuses: a nested envelope, and an inner
/// `MultisigExec` or `RotateKey`. A zero tip is permitted.
pub fn wrap_tipped(inner: Action, tip_grains: u128) -> (r: Result<Action, String>)
    ensures
        r is Ok <==> !untippable(inner@),
        match r {
            Ok(a) => a@ == (ActionView::Tipped { tip_grains, inner: Box::new(inner@) }),
            Err(e) => e@ == if inner@ is Tipped {
                "fee-auction envelopes cannot be nested"@
            } else {
                "fee-auction envelope: inner action may not be MultisigExec or RotateKey"@
            },
        },
{
    match &inner {
        Action::Tipped { .. } => {
            return Err(owned("fee-auction envelopes cannot be nested"));
        },
        Action::MultisigExec { .. } => {
            return Err(
                owned("fee-auction envelope: inner action may not be MultisigExec or RotateKey"),
            );
        },
        Action::RotateKey => {
            return Err(
                owned("fee-auction envelope: inner action may not be MultisigExec or RotateKey"),
            );
        },
        _ => {},
    }
    Ok(Action::Tipped { tip_grains, inner: Box::new(inner) })
}

/// What the node did with a probe transaction. Anything that is not a price signal
/// (a nonce or affordability rejection) is not one of these.
#[derive(Clone, Copy, Debug, PartialEq, Eq, Structural)]
pub enum Admission {
    /// The node admitted the transaction at this tip.
    Accepted,
    /// The node refused it: at capacity, this bid did not beat the floor.
    Refused,
}

/// The empirically discovered bracket around the pool's dynamic price floor.
///
/// The node's rule at capacity is a strict outbid, so an accept at `A` proves
/// `floor < A` and a refusal at `R` proves `floor >= R`.
#[derive(Clone, Copy, Debug, PartialEq, Eq, Structural)]
pub struct FloorBracket {
    /// The highest tip the node refused: an inclusive lower bound on the floor.
    pub highest_refused: Option<u128>,
    /// The lowest tip the node accepted: an exclusive upper bound on the floor.
    pub lowest_accepted: Option<u128>,
    /// Set when the two observations cannot both describe one instant, so the floor
    /// moved while we probed.
    pub inverted: bool,
}

impl Default for FloorBracket {
    fn default() -> (b: Self)
        ensures
            b == (FloorBracket { highest_refused: None, lowest_accepted: None, inverted: false }),
    {
        FloorBracket { highest_refused: None, lowest_accepted: None, inverted: false }
    }
}

impl FloorBracket {
    /// True once both ends are known.
    pub fn is_bracketed(&self) -> (b: bool)
        ensures
            b == (self.highest_refused is Some && self.lowest_accepted is Some),
    {
        self.highest_refused.is_some() && self.lowest_accepted.is_some()
    }

    /// How wide the bracket is, in grains, saturating. `None` unless it is both
    /// bracketed and self-consistent: an inverted bracket spans two market states.
    pub fn width(&self) -> (w: Option<u128>)
        ensures
            w == match (self.highest_refused, self.lowest_accepted) {
                (Some(lo), Some(hi)) => if self.inverted {
                    None
                } else {
                    Some(
                        if hi > lo {
                            (hi - lo) as u128
                        } else {
                            0
                        },
                    )
                },
                _ => None,
            },
    {
        match (self.highest_refused, self.lowest_accepted, self.inverted) {
            (Some(lo), Some(hi), false) => Some(hi.saturating_sub(lo)),
            _ => None,
        }
    }

    /// What the operator should read from this bracket.
    pub fn advice(&self) -> (s: &'static str)
        ensures
            s@ == match (self.highest_refused, self.lowest_accepted) {
                (None, None) => "no probes recorded yet — the floor is unknown"@,
                (None, Some(_)) =>
                    "every probe was accepted — the floor is below the lowest tip probed (these prices are not contested); ramp lower"@,
                (Some(_), None) =>
                    "every probe was refused — the floor is at or above the highest tip probed; ramp higher"@,
                (Some(_), Some(_)) => if self.inverted {
                    "NON-MONOTONIC: a tip below an earlier refusal was later accepted, so the floor FELL during the ramp (demand drained). These readings are from different instants and do not bracket one price — re-probe faster, or read the refusal as a stale high-water mark"@
                } else {
                    "the floor was between the highest refusal (inclusive) and the lowest accept (exclusive) at probe time"@
                },
            },
    {
        match (self.highest_refused, self.lowest_accepted, self.inverted) {
            (None, None, _) => "no probes recorded yet — the floor is unknown",
            (None, Some(_), _) =>
                "every probe was accepted — the floor is below the lowest tip probed (these prices are not contested); ramp lower",
            (Some(_), None, _) =>
                "every probe was refused — the floor is at or above the highest tip probed; ramp higher",
            (Some(_), Some(_), false) =>
                "the floor was between the highest refusal (inclusive) and the lowest accept (exclusive) at probe time",
            (Some(_), Some(_), true) =>
                "NON-MONOTONIC: a tip below an earlier refusal was later accepted, so the floor FELL during the ramp (demand drained). These readings are from different instants and do not bracket one price — re-probe faster, or read the refusal as a stale high-water mark",
        }
    }
}

/// Drives a ramp-down probe of the mempool's dynamic price floor and turns the
/// node's accept/refuse answers into a [`FloorBracket`].
///
/// The floor moves as other traffic arrives and drains, so the observations may be
/// non-monotonic; that is recorded and flagged, never discarded.
#[derive(Clone, Debug)]
pub struct FloorProbe {
    next: Option<u128>,
    step: u128,
    highest_refused: Option<u128>,
    lowest_accepted: Option<u128>,
    observations: usize,
}

/// What a floor probe has seen and will ask next.
pub struct ProbeView {
    pub next: Option<u128>,
    pub step: u128,
    pub highest_refused: Option<u128>,
    pub lowest_accepted: Option<u128>,
    pub observations: nat,
}

/// The probe after one more observation: the extremes are kept, and the ramp goes
/// one step below the tip that was recorded, or ends after zero.
pub open spec fn recorded(p: ProbeView, tip: u128, outcome: Admission) -> ProbeView {
    ProbeView {
        next: if tip == 0 {
            None
        } else if tip > p.step {
            Some((tip - p.step) as u128)
        } else {
            Some(0)
        },
        step: p.step,
        highest_refused: if outcome == Admission::Refused {
            match p.highest_refused {
                Some(cur) => if cur > tip {
                    Some(cur)
                } else {
                    Some(tip)
                },
                None => Some(tip),
            }
        } else {
            p.highest_refused
        },
        lowest_accepted: if outcome == Admission::Accepted {
            match p.lowest_accepted {
                Some(cur) => if cur < tip {
                    Some(cur)
                } else {
                    Some(tip)
                },
                None => Some(tip),
            }
        } else {
            p.lowest_accepted
        },
        observations: p.observations + 1,
    }
}

/// The bracket implied by what a probe has seen.
pub open spec fn bracket_of(p: ProbeView) -> FloorBracket {
    FloorBracket {
        highest_refused: p.highest_refused,
        lowest_accepted: p.lowest_accepted,
        inverted: match (p.highest_refused, p.lowest_accepted) {
            (Some(r), Some(a)) => r >= a,
            _ => false,
        },
    }
}

impl FloorProbe {
    /// What the probe has seen and will ask next.
    pub closed spec fn view(&self) -> ProbeView {
        ProbeView {
            next: self.next,
            step: self.step,
            highest_refused: self.highest_refused,
            lowest_accepted: self.lowest_accepted,
            observations: self.observations as nat,
        }
    }

    /// A ramp from `start_tip` downward in `step_grains` increments. A zero step is
    /// refused: it would probe the same tip forever.
    pub fn new(start_tip: u128, step_grains: u128) -> (r: Result<Self, String>)
        ensures
            r is Ok <==> step_grains != 0,
            match r {
                Ok(p) => p@ == (ProbeView {
                    next: Some(start_tip),
                    step: step_grains,
                    highest_refused: None,
                    lowest_accepted: None,
                    observations: 0,
                }),
                Err(e) => e@ == "floor probe step must be greater than zero"@,
            },
    {
        if step_grains == 0 {
            return Err(owned("floor probe step must be greater than zero"));
        }
        Ok(
            Self {
                next: Some(start_tip),
                step: step_grains,
                highest_refused: None,
                lowest_accepted: None,
                observations: 0,
            },
        )
    }

    /// The tip to probe next, or `None` once the ramp has probed zero. Peeking does
    /// not consume it.
    pub fn next_probe(&self) -> (t: Option<u128>)
        ensures
            t == self@.next,
    {
        self.next
    }

    /// How many price observations have been recorded.
    pub fn observations(&self) -> (n: usize)
        ensures
            n == self@.observations,
    {
        self.observations
    }

    /// Record what the node did at `tip_grains`, and advance the ramp to the next
    /// rung below it.
    pub fn record(&mut self, tip_grains: u128, outcome: Admission)
        requires
            old(self)@.observations < usize::MAX,
        ensures
            final(self)@ == recorded(old(self)@, tip_grains, outcome),
    {
        self.observations = self.observations + 1;
        match outcome {
            Admission::Accepted => {
                self.lowest_accepted = Some(
                    match self.lowest_accepted {
                        Some(cur) => if cur < tip_grains {
                            cur
                        } else {
                            tip_grains
                        },
                        None => tip_grains,
                    },
                );
            },
            Admission::Refused => {
                self.highest_refused = Some(
                    match self.highest_refused {
                        Some(cur) => if cur > tip_grains {
                            cur
                        } else {
                            tip_grains
                        },
                        None => tip_grains,
                    },
                );
            },
        }
        self.next = if tip_grains == 0 {
            None
        } else {
            Some(tip_grains.saturating_sub(self.step))
        };
    }

    /// The bracket implied by everything recorded so far.
    pub fn bracket(&self) -> (b: FloorBracket)
        ensures
            b == bracket_of(self@),
    {
        let inverted: bool = match (self.highest_refused, self.lowest_accepted) {
            (Some(r), Some(a)) => r >= a,
            _ => false,
        };
        FloorBracket {
            highest_refused: self.highest_refused,
            lowest_accepted: self.lowest_accepted,
            inverted,
        }
    }
}

/// What a probe has seen fits a floor that did not move.
pub open spec fn fits_floor(p: ProbeView, floor: u128) -> bool {
    &&& p.highest_refused matches Some(r) ==> r <= floor
    &&& p.lowest_accepted matches Some(a) ==> floor < a
}

/// Against a floor that does not move, where exactly the bids above it get in, the
/// bracket is sound at every point of the ramp: never inverted, its lower end at or
/// below the floor and its upper end above it.
pub proof fn law_bracket_is_sound_for_a_steady_floor(p: ProbeView, tip: u128, floor: u128)
    requires
        fits_floor(p, floor),
    ensures
        fits_floor(
            recorded(
                p,
                tip,
                if tip > floor {
                    Admission::Accepted
                } else {
                    Admission::Refused
                },
            ),
            floor,
        ),
        !bracket_of(p).inverted,
{
}

/// An inverted bracket is evidence that no single floor explains: whatever the
/// floor, one of the two extremes contradicts it.
pub proof fn law_inverted_means_the_floor_moved(p: ProbeView, floor: u128)
    requires
        bracket_of(p).inverted,
    ensures
        !fits_floor(p, floor),
{
}

/// The ramp goes strictly down and ends: each observation at the asked tip leaves a
/// lower one to ask, or none.
pub proof fn law_ramp_goes_down(p: ProbeView, tip: u128, outcome: Admission)
    requires
        p.step != 0,
        p.next == Some(tip),
    ensures
        match recorded(p, tip, outcome).next {
            Some(next) => next < tip,
            None => tip == 0,
        },
{
}

/// Whether a candidate bid would replace the transaction currently pooled at a
/// signer's nonce.
#[derive(Clone, Copy, Debug, PartialEq, Eq, Structural)]
pub enum RbfVerdict {
    /// The pooled transaction is atomically replaced.
    Replaces,
    /// Raised, but not by the anti-churn minimum.
    Underpriced {
        /// The minimum tip a successful replacement must carry.
        required: u128,
    },
    /// Not above the pooled tip: not a bid at all.
    NotABid,
}

/// Plans a replace-by-fee storm at one signer's nonce.
///
/// A bump of exactly [`MIN_RBF_BUMP_GRAINS`] replaces; one grain less does not.
#[derive(Clone, Copy, Debug, PartialEq, Eq, Structural)]
pub struct RbfPlan {
    current_tip: u128,
}

/// The minimum tip a replacement of `current` must carry, stopping at the largest
/// value.
pub open spec fn required_over(current: u128) -> u128 {
    if current + MIN_RBF_BUMP_GRAINS > u128::MAX {
        u128::MAX
    } else {
        (current + MIN_RBF_BUMP_GRAINS) as u128
    }
}

/// The node's answer to a candidate bid, in its order of evaluation.
pub open spec fn rbf_rule(current: u128, candidate: u128) -> RbfVerdict {
    if candidate <= current {
        RbfVerdict::NotABid
    } else if candidate < required_over(current) {
        RbfVerdict::Underpriced { required: required_over(current) }
    } else {
        RbfVerdict::Replaces
    }
}

/// The escalating bids of a storm: each the minimum over the one before, ending
/// where nothing can replace any more.
pub open spec fn storm_bids(current: u128, rounds: nat) -> Seq<u128>
    decreases rounds,
{
    if rounds == 0 || current == u128::MAX {
        Seq::empty()
    } else {
        seq![required_over(current)] + storm_bids(required_over(current), (rounds - 1) as nat)
    }
}

impl RbfPlan {
    /// The tip currently pooled at the slot.
    pub closed spec fn view(&self) -> u128 {
        self.current_tip
    }

    /// A plan against the tip currently in flight at the slot; `0` for an untipped
    /// incumbent.
    pub fn new(current_tip_grains: u128) -> (p: Self)
        ensures
            p@ == current_tip_grains,
    {
        Self { current_tip: current_tip_grains }
    }

    /// The tip currently pooled at the slot.
    pub fn current_tip(&self) -> (t: u128)
        ensures
            t == self@,
    {
        self.current_tip
    }

    /// The minimum tip a replacement must carry, saturating.
    pub fn required_tip(&self) -> (t: u128)
        ensures
            t == required_over(self@),
    {
        self.current_tip.saturating_add(MIN_RBF_BUMP_GRAINS)
    }

    /// Would `candidate_grains` replace the incumbent? Evaluated in the node's
    /// order, so an equal tip is not a bid, rather than underpriced.
    pub fn verdict(&self, candidate_grains: u128) -> (v: RbfVerdict)
        ensures
            v == rbf_rule(self@, candidate_grains),
    {
        if candidate_grains <= self.current_tip {
            return RbfVerdict::NotABid;
        }
        let required: u128 = self.required_tip();
        if candidate_grains < required {
            return RbfVerdict::Underpriced { required };
        }
        RbfVerdict::Replaces
    }

    /// Does this candidate bid land?
    pub fn would_replace(&self, candidate_grains: u128) -> (b: bool)
        ensures
            b == (rbf_rule(self@, candidate_grains) == RbfVerdict::Replaces),
    {
        match self.verdict(candidate_grains) {
            RbfVerdict::Replaces => true,
            _ => false,
        }
    }

    /// The cheapest bid that replaces the incumbent, or `None` when the incumbent
    /// already tips the largest value and nothing can.
    pub fn next_bid(&self) -> (r: Option<u128>)
        ensures
            r == if self@ == u128::MAX {
                None
            } else {
                Some(required_over(self@))
            },
    {
        let required: u128 = self.required_tip();
        if required <= self.current_tip {
            None
        } else {
            Some(required)
        }
    }

    /// Advance the plan after a replacement landed at `tip_grains`. Never moves
    /// backwards, so a stale or losing bid cannot lower the price to beat.
    pub fn landed(&mut self, tip_grains: u128)
        ensures
            final(self)@ == if tip_grains > old(self)@ {
                tip_grains
            } else {
                old(self)@
            },
    {
        if tip_grains > self.current_tip {
            self.current_tip = tip_grains;
        }
    }

    /// The escalating bid ladder for a storm of `rounds` successive replacements:
    /// each entry is the minimum that displaces the previous one. Stops early when
    /// the ladder saturates.
    pub fn storm(&self, rounds: usize) -> (bids: Vec<u128>)
        ensures
            bids@ == storm_bids(self@, rounds as nat),
    {
        let mut plan = *self;
        let mut bids: Vec<u128> = Vec::new();
        let mut left: usize = rounds;
        assert(bids@ + storm_bids(plan@, left as nat) =~= storm_bids(self@, rounds as nat));
        while left > 0
            invariant
                bids@ + storm_bids(plan@, left as nat) == storm_bids(self@, rounds as nat),
            decreases left,
        {
            match plan.next_bid() {
                Some(bid) => {
                    let ghost before = bids@;
                    let ghost current = plan@;
                    bids.push(bid);
                    plan.landed(bid);
                    left = left - 1;
                    proof {
                        let rest = storm_bids(plan@, left as nat);
                        assert(storm_bids(current, (left + 1) as nat) == seq![bid] + rest);
                        assert(before + (seq![bid] + rest) =~= bids@ + rest);
                    }
                },
                None => {
                    assert(bids@ + storm_bids(plan@, left as nat) =~= bids@);
                    return bids;
                },
            }
        }
        assert(bids@ + storm_bids(plan@, 0) =~= bids@);
        bids
    }
}

/// The next bid is the cheapest that lands: it replaces the incumbent, and nothing
/// below it does.
pub proof fn law_next_bid_is_minimal(current: u128, candidate: u128)
    requires
        current < u128::MAX,
    ensures
        rbf_rule(current, required_over(current)) == RbfVerdict::Replaces,
        candidate < required_over(current) ==> rbf_rule(current, candidate)
            != RbfVerdict::Replaces,
{
}

/// Nothing replaces an incumbent that already tips the largest value.
pub proof fn law_the_ceiling_cannot_be_replaced(candidate: u128)
    ensures
        rbf_rule(u128::MAX, candidate) == RbfVerdict::NotABid,
{
}

/// A storm strictly escalates, and each of its bids replaces the one before.
pub proof fn law_storm_escalates(current: u128, rounds: nat, k: int)
    requires
        0 <= k < storm_bids(current, rounds).len(),
    ensures
        storm_bids(current, rounds).len() <= rounds,
        ({
            let before = if k == 0 {
                current
            } else {
                storm_bids(current, rounds)[k - 1]
            };
            &&& storm_bids(current, rounds)[k] > before
            &&& rbf_rule(before, storm_bids(current, rounds)[k]) == RbfVerdict::Replaces
        }),
    decreases rounds,
{
    let next = required_over(current);
    let rest = storm_bids(next, (rounds - 1) as nat);
    lemma_storm_len(next, (rounds - 1) as nat);
    if k > 0 {
        law_storm_escalates(next, (rounds - 1) as nat, k - 1);
    }
}

proof fn lemma_storm_len(current: u128, rounds: nat)
    ensures
        storm_bids(current, rounds).len() <= rounds,
    decreases rounds,
{
    if rounds > 0 && current < u128::MAX {
        lemma_storm_len(required_over(current), (rounds - 1) as nat);
    }
}

/// A bid is credited to the highest rung that it reaches, to none below the ladder, and a
/// zero bid is no bid. Of two bids the higher is never credited to the lower rung.
pub proof fn law_a_bid_is_credited_to_what_it_reaches(
    rungs: Seq<u128>,
    tip: u128,
    b: TipBucket,
    more: u128,
    c: TipBucket,
)
    requires
        bucket_is(rungs, tip, b),
        bucket_is(rungs, more, c),
        tip <= more,
    ensures
        b is Untipped <==> tip == 0,
        b is BelowLadder <==> tip > 0 && forall|i: int|
            0 <= i < rungs.len() ==> tip < #[trigger] rungs[i],
        b matches TipBucket::Rung(r) ==> r <= tip && rungs.contains(r),
        b matches TipBucket::Rung(r) ==> forall|i: int|
            0 <= i < rungs.len() ==> #[trigger] rungs[i] <= r || rungs[i] > tip,
        b matches TipBucket::Rung(r) ==> (c matches TipBucket::Rung(s) && r <= s),
{
    if let TipBucket::Rung(r) = b {
        let i = choose|i: int| 0 <= i < rungs.len() && rungs[i] == r;
        assert(rungs[i] <= tip);
    }
}

/// Keys number the buckets from the bottom: no bid, below the ladder, then the rungs one by
/// one. The key of a bid is that of the rung at or below it whose next is above it.
pub proof fn law_keys_number_the_rungs(rungs: Seq<u128>, tip: u128, k: u8, i: int)
    requires
        ascends(rungs),
        key_is(rungs, tip, k),
    ensures
        k == 0 <==> tip == 0,
        k == 1 <==> tip > 0 && forall|j: int| 0 <= j < rungs.len() ==> tip < #[trigger] rungs[j],
        0 <= i < rungs.len() && tip > 0 && rungs[i] <= tip && (i + 1 < rungs.len() ==> tip
            < rungs[i + 1]) ==> k == if i < 253 {
            2 + i
        } else {
            255
        },
{
    if 0 <= i < rungs.len() && tip > 0 && rungs[i] <= tip && (i + 1 < rungs.len() ==> tip
        < rungs[i + 1]) {
        let j = choose|j: int|
            #![trigger rungs[j]]
            0 <= j < rungs.len() && bucket_is(rungs, tip, TipBucket::Rung(rungs[j])) && k == 2 + (
            if j < 253 {
                j
            } else {
                253
            });
        if j < i {
            assert(rungs[j] < rungs[i]);
        } else if i < j {
            assert(rungs[i + 1] <= rungs[j]);
        }
    }
}

/// Each policy bids what it says: nothing, always the same, one rung after the other from
/// the lowest and round again, or the rung that the draw falls on, whatever was bid before.
pub proof fn law_each_policy_bids_its_own(policy: TipPolicy, n: nat, draw: u128)
    requires
        policy.valid(),
    ensures
        ({
            let bid = tip_after(policy, cursor_after_many(policy, n), draw);
            match policy {
                TipPolicy::Untipped => bid is None,
                TipPolicy::Fixed(v) => bid == Some(v),
                TipPolicy::Ladder { rungs, mode } => bid == Some(
                    rungs@[(match mode {
                        LadderMode::RoundRobin => n as int,
                        LadderMode::Random => draw as int,
                    }) % rungs@.len() as int],
                ),
            }
        }),
{
    if let TipPolicy::Ladder { mode, .. } = policy {
        if mode == LadderMode::RoundRobin {
            law_round_robin_cycles_every_rung(policy, n);
        }
    }
}

/// An observation moves one extreme, toward the tip it was made at and no further, and
/// leaves the other; it is counted; and the ramp goes on one step below, stops at zero, and
/// ends after it.
pub proof fn law_an_observation_moves_one_extreme(p: ProbeView, tip: u128, outcome: Admission)
    ensures
        ({
            let n = recorded(p, tip, outcome);
            &&& n.observations == p.observations + 1
            &&& n.step == p.step
            &&& tip == 0 ==> n.next is None
            &&& 0 < tip <= p.step ==> n.next == Some(0u128)
            &&& tip > p.step ==> (n.next matches Some(t) && t + p.step == tip)
            &&& outcome == Admission::Refused ==> {
                &&& n.lowest_accepted == p.lowest_accepted
                &&& n.highest_refused matches Some(r) && r >= tip
                &&& n.highest_refused == Some(tip) || n.highest_refused == p.highest_refused
                &&& p.highest_refused matches Some(r) ==> n.highest_refused->0 >= r
            }
            &&& outcome == Admission::Accepted ==> {
                &&& n.highest_refused == p.highest_refused
                &&& n.lowest_accepted matches Some(a) && a <= tip
                &&& n.lowest_accepted == Some(tip) || n.lowest_accepted == p.lowest_accepted
                &&& p.lowest_accepted matches Some(a) ==> n.lowest_accepted->0 <= a
            }
        }),
{
}

/// A bracket has the probe's two extremes, and is inverted exactly where a tip was refused
/// at or above one that was accepted.
pub proof fn law_a_bracket_is_between_the_extremes(p: ProbeView)
    ensures
        bracket_of(p).highest_refused == p.highest_refused,
        bracket_of(p).lowest_accepted == p.lowest_accepted,
        bracket_of(p).inverted <==> p.highest_refused is Some && p.lowest_accepted is Some
            && p.highest_refused->0 >= p.lowest_accepted->0,
{
}

/// A bump of exactly the minimum replaces and one grain less does not: a candidate lands
/// where it is a thousand grains or more above the incumbent, or the largest there is and
/// above it; it is no bid where it is not above at all; and any other is told what it needed.
pub proof fn law_a_minimum_bump_replaces(current: u128, candidate: u128)
    ensures
        rbf_rule(current, candidate) is Replaces <==> candidate > current && (candidate
            >= current + 1_000 || candidate == u128::MAX),
        rbf_rule(current, candidate) is NotABid <==> candidate <= current,
        rbf_rule(current, candidate) matches RbfVerdict::Underpriced { required } ==> {
            &&& current < candidate < required
            &&& required == current + 1_000 || (required == u128::MAX && current + 1_000
                > u128::MAX)
        },
        current + 1_000 <= u128::MAX ==> required_over(current) == current + 1_000,
        current + 1_000 > u128::MAX ==> required_over(current) == u128::MAX,
{
}

/// A storm climbs by the minimum bump each round, and has as many rounds as were asked for,
/// as long as the bids fit.
pub proof fn law_a_storm_climbs_by_the_bump(current: u128, rounds: nat, k: int)
    requires
        current + rounds * 1_000 <= u128::MAX,
    ensures
        storm_bids(current, rounds).len() == rounds,
        0 <= k < rounds ==> storm_bids(current, rounds)[k] == current + (k + 1) * 1_000,
    decreases rounds,
{
    if rounds > 0 {
        law_a_storm_climbs_by_the_bump(required_over(current), (rounds - 1) as nat, k - 1);
    }
}

/// A storm ends at the ceiling and nowhere else: where it has fewer rounds than were asked
/// for, its last bid is the largest there is, or the incumbent already was.
pub proof fn law_a_storm_ends_early_at_the_ceiling_only(current: u128, rounds: nat)
    requires
        storm_bids(current, rounds).len() < rounds,
    ensures
        storm_bids(current, rounds).len() == 0 ==> current == u128::MAX,
        storm_bids(current, rounds).len() > 0 ==> storm_bids(current, rounds).last() == u128::MAX,
    decreases rounds,
{
    if current != u128::MAX {
        law_a_storm_ends_early_at_the_ceiling_only(required_over(current), (rounds - 1) as nat);
        let rest = storm_bids(required_over(current), (rounds - 1) as nat);
        if rest.len() == 0 {
            assert(storm_bids(current, rounds) =~= seq![required_over(current)]);
        } else {
            assert(storm_bids(current, rounds).last() == rest.last());
        }
    }
}

/// Every action may carry a bid but for these three.
pub proof fn law_three_actions_refuse_an_envelope(a: ActionView)
    ensures
        untippable(a) <==> match a {
            ActionView::Tipped { .. } => true,
            ActionView::MultisigExec { .. } => true,
            ActionView::RotateKey => true,
            _ => false,
        },
{
}

/// A policy is usable where each of its bids is one: a fixed bid above zero, and a ladder
/// that has a rung, starts above zero and only climbs.
pub proof fn law_a_usable_policy_only_bids_above_zero(policy: TipPolicy, i: int, j: int)
    ensures
        policy is Untipped ==> policy.valid(),
        policy matches TipPolicy::Fixed(v) ==> (policy.valid() <==> v > 0),
        policy matches TipPolicy::Ladder { rungs, .. } ==> policy.valid() ==> {
            &&& rungs@.len() > 0
            &&& 0 <= i < rungs@.len() ==> rungs@[i] > 0
            &&& 0 <= i < j < rungs@.len() ==> rungs@[i] < rungs@[j]
        },
        policy matches TipPolicy::Ladder { rungs, .. } ==> rungs@.len() > 0 && rungs@[0] > 0 && (
        forall|a: int, b: int| 0 <= a < b < rungs@.len() ==> rungs@[a] < rungs@[b])
            ==> policy.valid(),
{
    if let TipPolicy::Ladder { rungs, .. } = policy {
        if policy.valid() && 0 < i < rungs@.len() {
            assert(rungs@[0] < rungs@[i]);
        }
    }
}

/// A policy bids on its own rungs and no others.
pub proof fn law_a_policy_bids_on_its_rungs(policy: TipPolicy)
    ensures
        policy is Untipped ==> policy.spec_rungs().len() == 0,
        policy matches TipPolicy::Fixed(v) ==> policy.spec_rungs() == seq![v],
        policy matches TipPolicy::Ladder { rungs, .. } ==> policy.spec_rungs() == rungs@,
{
}

/// A policy that is refused is told the first thing that is wrong with it: nothing bid, no
/// rung, a rung of nothing, or rungs that do not climb.
pub proof fn law_a_refused_policy_is_told_why(policy: TipPolicy)
    requires
        !policy.valid(),
    ensures
        policy is Fixed ==> policy.complaint()
            == "tip must be greater than zero (use Untipped for no tip)"@,
        policy matches TipPolicy::Ladder { rungs, .. } ==> {
            &&& rungs@.len() == 0 ==> policy.complaint()
                == "the tip ladder needs at least one rung"@
            &&& rungs@.len() > 0 && rungs@[0] == 0 ==> policy.complaint()
                == "ladder rungs must be greater than zero"@
            &&& rungs@.len() > 0 && rungs@[0] > 0 ==> policy.complaint()
                == "ladder rungs must ascend and be distinct"@
        },
{
}

} // verus!
