//! Adversarial probes: deterministic expectations asserted against a live node, so
//! that a run is evidence instead of a guess.
//!
//! Two independent probe families share one verdict vocabulary. Nonce scenarios
//! ([`Scenario`], [`plan`]) deliberately open a hole, submit out of order and
//! replay a nonce, each step carrying the outcome the node must produce. The
//! tx-domain table ([`ActivationPhase`], [`SignedUnder`],
//! [`expected_domain_outcome`]) has one non-negotiable cell: a wrong-domain
//! signature is refused in every phase.
//!
//! The scoring is biased toward *inconclusive*: a wrong expectation pointed at a
//! live network would manufacture a false accusation.

use crate::chain::SigningDomain;
use crate::chain::TxDomainMode;
use crate::quote;
use crate::quote::quote;
use crate::reject;
use crate::reject::classify_reject;
use crate::reject::RejectClass;
use crate::text;
use crate::text::contains;
use crate::text::lower_chars;
use crate::text::owned;
use crate::text::push_decimal;
use vstd::prelude::*;

verus! {

/// What a probe step expects the node to do.
///
/// A rejection names the class the message must fall in and a `marker`, a
/// lowercase substring of the node's real error text. The marker matters because
/// [`RejectClass::Other`] also swallows transport failures: without it, a dead
/// socket would "confirm" an expected rejection.
#[derive(Clone, Copy, Debug, PartialEq, Eq)]
pub enum Expect {
    /// The node must accept the transaction into its pool.
    Accepted,
    /// The node must refuse it, in this class, with this wording.
    Rejected {
        /// The class the node's message must fall in.
        class: RejectClass,
        /// A lowercase substring the node's real message must contain.
        marker: &'static str,
    },
}

/// The node's real answer to one submission, as the caller observed it.
#[derive(Clone, Debug, PartialEq, Eq)]
pub enum Observed {
    /// The submission succeeded.
    Accepted,
    /// It returned an error; this is the full message.
    Rejected(String),
}

/// An answer by its text.
pub enum ObservedView {
    Accepted,
    Rejected(Seq<char>),
}

impl Observed {
    pub open spec fn view(&self) -> ObservedView {
        match self {
            Observed::Accepted => ObservedView::Accepted,
            Observed::Rejected(m) => ObservedView::Rejected(m@),
        }
    }
}

/// One probe's observation, bracketed by two reads of the node's next free nonce,
/// immediately before and immediately after the submit.
///
/// The next free nonce is unchanged by the account's own mining, so the bracket
/// detects precisely the races that could be mistaken for a node bug.
#[derive(Clone, Debug, PartialEq, Eq)]
pub struct Observation {
    /// What the node did with the submission.
    pub outcome: Observed,
    /// The next free nonce, read immediately before submitting.
    pub next_nonce_before: u64,
    /// The next free nonce, read immediately after the submit returned.
    pub next_nonce_after: u64,
}

/// The result of scoring one observation against its expectation.
///
/// Three states on purpose: any outcome with a benign concurrent-state explanation
/// is inconclusive, and a mismatch is reserved for
/// observations that no race can account for.
#[derive(Clone, Debug, PartialEq, Eq)]
pub enum Verdict {
    /// The node did exactly what the rule requires.
    Match,
    /// The probe did not resolve. Not a failure.
    Inconclusive(String),
    /// The node violated a documented rule, and no concurrent-state story explains
    /// the observation.
    Mismatch(String),
}

/// A verdict by its text.
pub enum VerdictView {
    Match,
    Inconclusive(Seq<char>),
    Mismatch(Seq<char>),
}

impl Verdict {
    pub open spec fn view(&self) -> VerdictView {
        match self {
            Verdict::Match => VerdictView::Match,
            Verdict::Inconclusive(r) => VerdictView::Inconclusive(r@),
            Verdict::Mismatch(r) => VerdictView::Mismatch(r@),
        }
    }

    /// A short, fixed-width word for the run log.
    pub fn label(&self) -> (s: &'static str)
        ensures
            s@ == match self@ {
                VerdictView::Match => "MATCH"@,
                VerdictView::Inconclusive(_) => "INCONCL"@,
                VerdictView::Mismatch(_) => "MISMATCH"@,
            },
    {
        match self {
            Verdict::Match => "MATCH",
            Verdict::Inconclusive(_) => "INCONCL",
            Verdict::Mismatch(_) => "MISMATCH",
        }
    }

    /// The explanation, empty for a clean match.
    pub fn reason(&self) -> (s: &str)
        ensures
            s@ == match self@ {
                VerdictView::Match => ""@,
                VerdictView::Inconclusive(r) => r,
                VerdictView::Mismatch(r) => r,
            },
    {
        match self {
            Verdict::Match => "",
            Verdict::Inconclusive(r) => r.as_str(),
            Verdict::Mismatch(r) => r.as_str(),
        }
    }

    /// Whether this verdict should fail a run. Only a mismatch does; an
    /// inconclusive probe is noise, not evidence.
    pub fn is_failure(&self) -> (b: bool)
        ensures
            b == (self@ is Mismatch),
    {
        match self {
            Verdict::Mismatch(_) => true,
            _ => false,
        }
    }
}

/// Case-insensitive substring test against a lowercase needle.
pub open spec fn contains_folded(haystack: Seq<char>, needle: Seq<char>) -> bool {
    text::contains_text(text::lower(haystack), needle)
}

fn contains_ci(haystack: &str, needle: &str) -> (r: bool)
    ensures
        r == contains_folded(haystack@, needle@),
{
    let h = lower_chars(haystack);
    contains(&h, needle)
}

/// The rejection expected for a transaction submitted above a nonce hole.
pub open spec fn nonce_gap_expected() -> Expect {
    Expect::Rejected { class: RejectClass::NonceGap, marker: "nonce gap" }
}

/// The rejection expected for a transaction submitted above a nonce hole.
///
/// There is no future tier: a nonce beyond the contiguous run is refused at the
/// door rather than parked for later.
pub fn expect_nonce_gap() -> (e: Expect)
    ensures
        e == nonce_gap_expected(),
{
    Expect::Rejected { class: RejectClass::NonceGap, marker: "nonce gap" }
}

/// The rejection expected for a byte-identical resubmission of a pooled transaction.
pub open spec fn duplicate_expected() -> Expect {
    Expect::Rejected { class: RejectClass::NonceOccupied, marker: "already in the pool" }
}

/// The rejection expected for a byte-identical resubmission of a pooled transaction.
pub fn expect_duplicate() -> (e: Expect)
    ensures
        e == duplicate_expected(),
{
    Expect::Rejected { class: RejectClass::NonceOccupied, marker: "already in the pool" }
}

/// The refusal of a signature, the first check the node performs.
pub open spec fn bad_signature_expected() -> Expect {
    Expect::Rejected { class: RejectClass::Other, marker: "invalid transaction signature" }
}

/// The refusal of a signature, the first check the node performs, so a
/// domain-refused transaction never reaches the nonce or balance gates.
pub fn expect_bad_signature() -> (e: Expect)
    ensures
        e == bad_signature_expected(),
{
    Expect::Rejected { class: RejectClass::Other, marker: "invalid transaction signature" }
}

/// A scripted adversarial nonce probe for one signer.
///
/// Each scenario is a short, self-healing script: it ends with the signer's nonce
/// run contiguous again.
#[derive(Clone, Copy, Debug, PartialEq, Eq, Structural)]
pub enum Scenario {
    /// Skip a nonce: submit two above the next free slot, then fill the hole from
    /// the bottom.
    Gap,
    /// Submit N+1 before N.
    Reorder,
    /// Submit the same nonce twice with byte-identical bytes.
    Duplicate,
}

impl Scenario {
    /// Every scenario, for a run that sweeps all of them.
    pub fn all() -> (r: [Scenario; 3])
        ensures
            r@ == seq![Scenario::Gap, Scenario::Reorder, Scenario::Duplicate],
    {
        let r = [Scenario::Gap, Scenario::Reorder, Scenario::Duplicate];
        assert(r@ =~= seq![Scenario::Gap, Scenario::Reorder, Scenario::Duplicate]);
        r
    }

    /// The operator-facing name.
    pub fn label(self) -> (s: &'static str)
        ensures
            s@ == match self {
                Scenario::Gap => "GAP"@,
                Scenario::Reorder => "REORDER"@,
                Scenario::Duplicate => "DUPLICATE"@,
            },
    {
        match self {
            Scenario::Gap => "GAP",
            Scenario::Reorder => "REORDER",
            Scenario::Duplicate => "DUPLICATE",
        }
    }

    /// One line describing what the scenario proves.
    pub fn probes(self) -> (s: &'static str)
        ensures
            s@ == match self {
                Scenario::Gap => "a tx above a nonce hole is refused, not queued"@,
                Scenario::Reorder => "N+1 before N is refused; N then N+1 both land"@,
                Scenario::Duplicate => "a replayed nonce is refused, slot unchanged"@,
            },
    {
        match self {
            Scenario::Gap => "a tx above a nonce hole is refused, not queued",
            Scenario::Reorder => "N+1 before N is refused; N then N+1 both land",
            Scenario::Duplicate => "a replayed nonce is refused, slot unchanged",
        }
    }
}

/// One step of a [`Scenario`]: what to submit, and what must come back.
#[derive(Clone, Copy, Debug, PartialEq, Eq)]
pub struct Step {
    /// The nonce to build and sign this transaction at.
    pub nonce: u64,
    /// What the node must report as the next free nonce immediately before the
    /// submit for the step's expectation to hold exactly.
    pub assumed_next_nonce: u64,
    /// What this step is probing, in words, for the run log.
    pub probe: &'static str,
    /// The outcome the node's own rules require.
    pub expect: Expect,
    /// If true, the caller must resubmit the byte-identical signed transaction from
    /// the earlier step at this nonce, not a freshly built one: a different
    /// transaction in an occupied slot could legitimately replace the incumbent.
    pub resubmit: bool,
}

/// A nonce some steps up, stopping at the largest one.
pub open spec fn nonce_up(base: u64, by: int) -> u64 {
    if base + by > u64::MAX {
        u64::MAX
    } else {
        (base + by) as u64
    }
}

/// The step script of a scenario.
pub open spec fn script(scenario: Scenario, base_nonce: u64) -> Seq<Step> {
    let n0 = base_nonce;
    let n1 = nonce_up(base_nonce, 1);
    let n2 = nonce_up(base_nonce, 2);
    match scenario {
        Scenario::Gap => seq![
            Step {
                nonce: n2,
                assumed_next_nonce: n0,
                probe: "two above the run: must be refused as a nonce gap",
                expect: nonce_gap_expected(),
                resubmit: false,
            },
            Step {
                nonce: n0,
                assumed_next_nonce: n0,
                probe: "the bottom of the run: must be accepted",
                expect: Expect::Accepted,
                resubmit: false,
            },
            Step {
                nonce: n2,
                assumed_next_nonce: n1,
                probe: "still one above the run: the hole at N+1 keeps it out",
                expect: nonce_gap_expected(),
                resubmit: false,
            },
            Step {
                nonce: n1,
                assumed_next_nonce: n1,
                probe: "filling the hole: must be accepted",
                expect: Expect::Accepted,
                resubmit: false,
            },
            Step {
                nonce: n2,
                assumed_next_nonce: n2,
                probe: "now contiguous: the once-refused nonce must be accepted",
                expect: Expect::Accepted,
                resubmit: false,
            },
        ],
        Scenario::Reorder => seq![
            Step {
                nonce: n1,
                assumed_next_nonce: n0,
                probe: "N+1 before N: refused outright, never queued",
                expect: nonce_gap_expected(),
                resubmit: false,
            },
            Step {
                nonce: n0,
                assumed_next_nonce: n0,
                probe: "N in order: accepted",
                expect: Expect::Accepted,
                resubmit: false,
            },
            Step {
                nonce: n1,
                assumed_next_nonce: n1,
                probe: "N+1 resubmitted after N: accepted",
                expect: Expect::Accepted,
                resubmit: false,
            },
        ],
        Scenario::Duplicate => seq![
            Step {
                nonce: n0,
                assumed_next_nonce: n0,
                probe: "the original at N: accepted",
                expect: Expect::Accepted,
                resubmit: false,
            },
            Step {
                nonce: n0,
                assumed_next_nonce: n1,
                probe: "the identical bytes replayed at N: refused, slot held",
                expect: duplicate_expected(),
                resubmit: true,
            },
        ],
    }
}

/// Build the step script for `scenario`, starting from `base_nonce`, the signer's
/// next free nonce as the node reports it. Nonce arithmetic saturates.
pub fn plan(scenario: Scenario, base_nonce: u64) -> (steps: Vec<Step>)
    ensures
        steps@ == script(scenario, base_nonce),
{
    let n0: u64 = base_nonce;
    let n1: u64 = base_nonce.saturating_add(1);
    let n2: u64 = base_nonce.saturating_add(2);
    let steps = match scenario {
        Scenario::Gap => vec![
            Step {
                nonce: n2,
                assumed_next_nonce: n0,
                probe: "two above the run: must be refused as a nonce gap",
                expect: expect_nonce_gap(),
                resubmit: false,
            },
            Step {
                nonce: n0,
                assumed_next_nonce: n0,
                probe: "the bottom of the run: must be accepted",
                expect: Expect::Accepted,
                resubmit: false,
            },
            Step {
                nonce: n2,
                assumed_next_nonce: n1,
                probe: "still one above the run: the hole at N+1 keeps it out",
                expect: expect_nonce_gap(),
                resubmit: false,
            },
            Step {
                nonce: n1,
                assumed_next_nonce: n1,
                probe: "filling the hole: must be accepted",
                expect: Expect::Accepted,
                resubmit: false,
            },
            Step {
                nonce: n2,
                assumed_next_nonce: n2,
                probe: "now contiguous: the once-refused nonce must be accepted",
                expect: Expect::Accepted,
                resubmit: false,
            },
        ],
        Scenario::Reorder => vec![
            Step {
                nonce: n1,
                assumed_next_nonce: n0,
                probe: "N+1 before N: refused outright, never queued",
                expect: expect_nonce_gap(),
                resubmit: false,
            },
            Step {
                nonce: n0,
                assumed_next_nonce: n0,
                probe: "N in order: accepted",
                expect: Expect::Accepted,
                resubmit: false,
            },
            Step {
                nonce: n1,
                assumed_next_nonce: n1,
                probe: "N+1 resubmitted after N: accepted",
                expect: Expect::Accepted,
                resubmit: false,
            },
        ],
        Scenario::Duplicate => vec![
            Step {
                nonce: n0,
                assumed_next_nonce: n0,
                probe: "the original at N: accepted",
                expect: Expect::Accepted,
                resubmit: false,
            },
            Step {
                nonce: n0,
                assumed_next_nonce: n1,
                probe: "the identical bytes replayed at N: refused, slot held",
                expect: expect_duplicate(),
                resubmit: true,
            },
        ],
    };
    assert(steps@ =~= script(scenario, base_nonce));
    steps
}

/// What the after-reading must be, given what the node actually did: unchanged
/// after a rejection, one more after an acceptance at the first free slot, and
/// unchanged after an acceptance anywhere else, because the first free slot is then
/// still free, or was taken before.
pub open spec fn implied_next_nonce(step: Step, outcome: ObservedView, before: u64) -> u64 {
    if outcome is Accepted && step.nonce == before {
        nonce_up(before, 1)
    } else {
        before
    }
}

/// The text of a probe that was not scored because the account moved before it.
pub open spec fn moved_before_text(before: u64, assumed: u64) -> Seq<char> {
    "account moved before the probe: node reports next nonce "@ + text::decimal(before as nat)
        + ", the plan assumed "@ + text::decimal(assumed as nat)
}

/// The text of a probe that was not scored because the account moved during it.
pub open spec fn moved_during_text(before: u64, after: u64, implied: u64) -> Seq<char> {
    "account moved during the probe: next nonce went "@ + text::decimal(before as nat) + " → "@
        + text::decimal(after as nat) + ", but this outcome implies "@ + text::decimal(
        implied as nat,
    )
}

/// The text of an expected acceptance that was refused.
pub open spec fn refused_text(nonce: u64, msg: Seq<char>) -> Seq<char> {
    "expected acceptance at nonce "@ + text::decimal(nonce as nat) + ", node refused ("@
        + reject::class_of(msg).spec_name()
        + "); contention (capacity, affordability, or a third party taking and mining this slot) explains this without any rule being broken: "@
        + msg
}

/// The text of a rejection in another class than expected.
pub open spec fn wrong_class_text(class: RejectClass, msg: Seq<char>) -> Seq<char> {
    "expected a "@ + class.spec_name() + " rejection, got "@ + reject::class_of(msg).spec_name()
        + ": "@ + msg
}

/// The text of a rejection in the expected class with other wording.
pub open spec fn wrong_wording_text(
    class: RejectClass,
    shown: Seq<char>,
    msg: Seq<char>,
) -> Seq<char> {
    "rejection is in the expected class ("@ + class.spec_name()
        + ") but does not carry the expected wording ("@ + shown
        + ") — the class alone is too coarse to score: "@ + msg
}

/// The text of an acceptance above a surviving hole.
pub open spec fn hole_text(
    nonce: u64,
    before: u64,
    class: RejectClass,
    shown: Seq<char>,
) -> Seq<char> {
    "the node ACCEPTED nonce "@ + text::decimal(nonce as nat)
        + " while its own next mineable nonce was "@ + text::decimal(before as nat)
        + ", and the hole below survived the submit. Gap-free admission requires a "@
        + class.spec_name() + "/"@ + shown
        + " rejection (mempool: nonce > current + pooled ⇒ NonceGap)"@
}

/// The text of an acceptance that an in-place replacement explains.
pub open spec fn replaced_text(
    nonce: u64,
    before: u64,
    class: RejectClass,
    shown: Seq<char>,
) -> Seq<char> {
    "expected a "@ + class.spec_name() + "/"@ + shown + " rejection at nonce "@
        + text::decimal(nonce as nat) + ", node accepted; with the first free nonce at "@
        + text::decimal(before as nat)
        + " this is consistent with an in-place replacement rather than a broken rule"@
}

/// The score of one observation against its planned expectation. `shown` is the
/// expected wording in quotation marks.
pub open spec fn score(
    step: Step,
    outcome: ObservedView,
    before: u64,
    after: u64,
    shown: Seq<char>,
) -> VerdictView {
    let implied = implied_next_nonce(step, outcome, before);
    if before != step.assumed_next_nonce {
        VerdictView::Inconclusive(moved_before_text(before, step.assumed_next_nonce))
    } else if after != implied {
        VerdictView::Inconclusive(moved_during_text(before, after, implied))
    } else {
        match (step.expect, outcome) {
            (Expect::Accepted, ObservedView::Accepted) => VerdictView::Match,
            (Expect::Accepted, ObservedView::Rejected(msg)) => VerdictView::Inconclusive(
                refused_text(step.nonce, msg),
            ),
            (Expect::Rejected { class, marker }, ObservedView::Rejected(msg)) => {
                if reject::class_of(msg) != class {
                    VerdictView::Inconclusive(wrong_class_text(class, msg))
                } else if !contains_folded(msg, marker@) {
                    VerdictView::Inconclusive(wrong_wording_text(class, shown, msg))
                } else {
                    VerdictView::Match
                }
            },
            (Expect::Rejected { class, marker }, ObservedView::Accepted) => {
                if step.nonce > before {
                    VerdictView::Mismatch(hole_text(step.nonce, before, class, shown))
                } else {
                    VerdictView::Inconclusive(replaced_text(step.nonce, before, class, shown))
                }
            },
        }
    }
}

/// The wording a step expects, in quotation marks; nothing where it expects none.
pub open spec fn shown_marker(step: Step) -> Seq<char> {
    match step.expect {
        Expect::Rejected { marker, .. } => quote::quoted(marker@),
        Expect::Accepted => Seq::empty(),
    }
}

/// Score one observation against its planned expectation.
pub fn verdict(step: &Step, obs: &Observation) -> (v: Verdict)
    ensures
        v@ == score(
            *step,
            obs.outcome@,
            obs.next_nonce_before,
            obs.next_nonce_after,
            shown_marker(*step),
        ),
{
    let shown = match step.expect {
        Expect::Rejected { marker, .. } => quote(marker),
        Expect::Accepted => String::new(),
    };
    verdict_showing(step, obs, shown.as_str())
}

/// Score one observation against its planned expectation, with the expected wording
/// shown in messages as `shown`.
///
/// The scoring is layered, and each layer can only downgrade the verdict toward
/// inconclusive. If the before-reading is not what the plan assumed, the account
/// moved before the probe ran. If the after-reading is not what the observed
/// outcome implies, a third party touched the account mid-probe. Only then is the
/// outcome held against the expectation: an expected acceptance that was refused is
/// always inconclusive, because ordinary contention explains it, and an expected
/// refusal that was accepted is a mismatch only when the accepted nonce
/// sat above the node's own first free slot and the hole below it survived.
pub fn verdict_showing(step: &Step, obs: &Observation, shown: &str) -> (v: Verdict)
    ensures
        v@ == score(
            *step,
            obs.outcome@,
            obs.next_nonce_before,
            obs.next_nonce_after,
            shown@,
        ),
{
    let before: u64 = obs.next_nonce_before;
    if before != step.assumed_next_nonce {
        let mut s = owned("account moved before the probe: node reports next nonce ");
        push_decimal(&mut s, before as u128);
        s.append(", the plan assumed ");
        push_decimal(&mut s, step.assumed_next_nonce as u128);
        return Verdict::Inconclusive(s);
    }
    let accepted: bool = match &obs.outcome {
        Observed::Accepted => true,
        Observed::Rejected(_) => false,
    };
    let implied_after: u64 = if accepted && step.nonce == before {
        before.saturating_add(1)
    } else {
        before
    };
    if obs.next_nonce_after != implied_after {
        let mut s = owned("account moved during the probe: next nonce went ");
        push_decimal(&mut s, before as u128);
        s.append(" → ");
        push_decimal(&mut s, obs.next_nonce_after as u128);
        s.append(", but this outcome implies ");
        push_decimal(&mut s, implied_after as u128);
        return Verdict::Inconclusive(s);
    }
    match step.expect {
        Expect::Accepted => match &obs.outcome {
            Observed::Accepted => Verdict::Match,
            Observed::Rejected(msg) => {
                let got = classify_reject(msg.as_str());
                let mut s = owned("expected acceptance at nonce ");
                push_decimal(&mut s, step.nonce as u128);
                s.append(", node refused (");
                s.append(got.name());
                s.append(
                    "); contention (capacity, affordability, or a third party taking and mining this slot) explains this without any rule being broken: ",
                );
                s.append(msg.as_str());
                Verdict::Inconclusive(s)
            },
        },
        Expect::Rejected { class, marker } => match &obs.outcome {
            Observed::Rejected(msg) => {
                let got = classify_reject(msg.as_str());
                if got != class {
                    let mut s = owned("expected a ");
                    s.append(class.name());
                    s.append(" rejection, got ");
                    s.append(got.name());
                    s.append(": ");
                    s.append(msg.as_str());
                    Verdict::Inconclusive(s)
                } else if !contains_ci(msg.as_str(), marker) {
                    let mut s = owned("rejection is in the expected class (");
                    s.append(class.name());
                    s.append(") but does not carry the expected wording (");
                    s.append(shown);
                    s.append(") — the class alone is too coarse to score: ");
                    s.append(msg.as_str());
                    Verdict::Inconclusive(s)
                } else {
                    Verdict::Match
                }
            },
            Observed::Accepted => {
                if step.nonce > before {
                    let mut s = owned("the node ACCEPTED nonce ");
                    push_decimal(&mut s, step.nonce as u128);
                    s.append(" while its own next mineable nonce was ");
                    push_decimal(&mut s, before as u128);
                    s.append(
                        ", and the hole below survived the submit. Gap-free admission requires a ",
                    );
                    s.append(class.name());
                    s.append("/");
                    s.append(shown);
                    s.append(" rejection (mempool: nonce > current + pooled ⇒ NonceGap)");
                    Verdict::Mismatch(s)
                } else {
                    let mut s = owned("expected a ");
                    s.append(class.name());
                    s.append("/");
                    s.append(shown);
                    s.append(" rejection at nonce ");
                    push_decimal(&mut s, step.nonce as u128);
                    s.append(", node accepted; with the first free nonce at ");
                    push_decimal(&mut s, before as u128);
                    s.append(
                        " this is consistent with an in-place replacement rather than a broken rule",
                    );
                    Verdict::Inconclusive(s)
                }
            },
        },
    }
}

/// Which signature-verification regime the node is in at a given height: the three
/// states of the `tx-domain` fork.
#[derive(Clone, Copy, Debug, PartialEq, Eq, Structural)]
pub enum ActivationPhase {
    /// Before activation, or dormant: legacy signatures only.
    Legacy,
    /// The grace window: a legacy or a chain-bound signature verifies.
    Grace,
    /// After the grace window: chain-bound only.
    Bound,
}

impl ActivationPhase {
    /// Every phase, for a table sweep.
    pub fn all() -> (r: [ActivationPhase; 3])
        ensures
            r@ == seq![ActivationPhase::Legacy, ActivationPhase::Grace, ActivationPhase::Bound],
    {
        let r = [ActivationPhase::Legacy, ActivationPhase::Grace, ActivationPhase::Bound];
        assert(r@ =~= seq![ActivationPhase::Legacy, ActivationPhase::Grace, ActivationPhase::Bound]);
        r
    }

    /// The operator-facing name.
    pub open spec fn spec_label(self) -> Seq<char> {
        match self {
            ActivationPhase::Legacy => "LEGACY"@,
            ActivationPhase::Grace => "GRACE"@,
            ActivationPhase::Bound => "BOUND"@,
        }
    }

    /// The operator-facing name.
    pub fn label(self) -> (s: &'static str)
        ensures
            s@ == self.spec_label(),
    {
        match self {
            ActivationPhase::Legacy => "LEGACY",
            ActivationPhase::Grace => "GRACE",
            ActivationPhase::Bound => "BOUND",
        }
    }
}

/// The phase at a height: legacy below activation, then grace for the window's
/// length, then bound. The end of the window stops at the largest height.
pub open spec fn phase_of(
    activation: Option<u64>,
    grace_blocks: u64,
    height: u64,
) -> ActivationPhase {
    match activation {
        None => ActivationPhase::Legacy,
        Some(h_a) => if height < h_a {
            ActivationPhase::Legacy
        } else if height < h_a + grace_blocks && height < u64::MAX {
            ActivationPhase::Grace
        } else {
            ActivationPhase::Bound
        },
    }
}

/// Resolve the phase at `height`, given the fork's activation height (`None` means
/// dormant) and the node's grace-window length in blocks. An absurd grace length
/// saturates instead of wrapping into an early cliff.
pub fn phase_at(activation: Option<u64>, grace_blocks: u64, height: u64) -> (p: ActivationPhase)
    ensures
        p == phase_of(activation, grace_blocks, height),
{
    match activation {
        None => ActivationPhase::Legacy,
        Some(h_a) => {
            if height < h_a {
                ActivationPhase::Legacy
            } else if height < h_a.saturating_add(grace_blocks) {
                ActivationPhase::Grace
            } else {
                ActivationPhase::Bound
            }
        },
    }
}

/// Which preimage the probe framed its signature under.
#[derive(Clone, Copy, Debug, PartialEq, Eq, Structural)]
pub enum SignedUnder {
    /// The legacy, un-framed preimage.
    Legacy,
    /// The network's own domain.
    CorrectDomain,
    /// A deliberately wrong domain; see [`wrong_domain`].
    WrongDomain,
}

impl SignedUnder {
    /// Every variant, for a table sweep.
    pub fn all() -> (r: [SignedUnder; 3])
        ensures
            r@ == seq![SignedUnder::Legacy, SignedUnder::CorrectDomain, SignedUnder::WrongDomain],
    {
        let r = [SignedUnder::Legacy, SignedUnder::CorrectDomain, SignedUnder::WrongDomain];
        assert(r@ =~= seq![
            SignedUnder::Legacy,
            SignedUnder::CorrectDomain,
            SignedUnder::WrongDomain,
        ]);
        r
    }

    /// The operator-facing name.
    pub open spec fn spec_label(self) -> Seq<char> {
        match self {
            SignedUnder::Legacy => "legacy"@,
            SignedUnder::CorrectDomain => "bound(correct)"@,
            SignedUnder::WrongDomain => "bound(WRONG)"@,
        }
    }

    /// The operator-facing name.
    pub fn label(self) -> (s: &'static str)
        ensures
            s@ == self.spec_label(),
    {
        match self {
            SignedUnder::Legacy => "legacy",
            SignedUnder::CorrectDomain => "bound(correct)",
            SignedUnder::WrongDomain => "bound(WRONG)",
        }
    }
}

/// What the node must do with a signature, at the signature gate.
#[derive(Clone, Copy, Debug, PartialEq, Eq, Structural)]
pub enum DomainOutcome {
    /// The signature verifies under this phase; the transaction proceeds.
    Accepted,
    /// The signature does not verify under this phase; the node must refuse it.
    Refused,
}

/// A signature is accepted when one of the preimages the phase checks is the one it
/// was framed under.
pub open spec fn domain_rule(phase: ActivationPhase, signed: SignedUnder) -> DomainOutcome {
    let legacy_checked = phase != ActivationPhase::Bound;
    let own_domain_checked = phase != ActivationPhase::Legacy;
    if (signed == SignedUnder::Legacy && legacy_checked) || (signed == SignedUnder::CorrectDomain
        && own_domain_checked) {
        DomainOutcome::Accepted
    } else {
        DomainOutcome::Refused
    }
}

/// The tx-domain decision table. The wrong-domain column is refused in every row: a
/// verifier frames with its own chain id and genesis, so a signature made for
/// another network can never match.
pub fn expected_domain_outcome(phase: ActivationPhase, signed: SignedUnder) -> (o: DomainOutcome)
    ensures
        o == domain_rule(phase, signed),
{
    match (phase, signed) {
        (_, SignedUnder::WrongDomain) => DomainOutcome::Refused,
        (ActivationPhase::Legacy, SignedUnder::Legacy) => DomainOutcome::Accepted,
        (ActivationPhase::Legacy, SignedUnder::CorrectDomain) => DomainOutcome::Refused,
        (ActivationPhase::Grace, SignedUnder::Legacy) => DomainOutcome::Accepted,
        (ActivationPhase::Grace, SignedUnder::CorrectDomain) => DomainOutcome::Accepted,
        (ActivationPhase::Bound, SignedUnder::Legacy) => DomainOutcome::Refused,
        (ActivationPhase::Bound, SignedUnder::CorrectDomain) => DomainOutcome::Accepted,
    }
}

/// The full probe set for a phase: all three signing variants with the outcome each
/// must produce.
pub fn domain_probes(phase: ActivationPhase) -> (r: Vec<(SignedUnder, DomainOutcome)>)
    ensures
        r@ == seq![
            (SignedUnder::Legacy, domain_rule(phase, SignedUnder::Legacy)),
            (SignedUnder::CorrectDomain, domain_rule(phase, SignedUnder::CorrectDomain)),
            (SignedUnder::WrongDomain, domain_rule(phase, SignedUnder::WrongDomain)),
        ],
{
    let mut r: Vec<(SignedUnder, DomainOutcome)> = Vec::new();
    r.push((SignedUnder::Legacy, expected_domain_outcome(phase, SignedUnder::Legacy)));
    r.push(
        (SignedUnder::CorrectDomain, expected_domain_outcome(phase, SignedUnder::CorrectDomain)),
    );
    r.push((SignedUnder::WrongDomain, expected_domain_outcome(phase, SignedUnder::WrongDomain)));
    assert(r@ =~= seq![
        (SignedUnder::Legacy, domain_rule(phase, SignedUnder::Legacy)),
        (SignedUnder::CorrectDomain, domain_rule(phase, SignedUnder::CorrectDomain)),
        (SignedUnder::WrongDomain, domain_rule(phase, SignedUnder::WrongDomain)),
    ]);
    r
}

/// The verification mode a node in `phase` enforces; the legacy phase carries no
/// domain.
pub fn verification_mode(phase: ActivationPhase, domain: &SigningDomain) -> (m: TxDomainMode)
    ensures
        match phase {
            ActivationPhase::Legacy => m is Legacy,
            ActivationPhase::Grace => m matches TxDomainMode::Grace(d) && d@ == domain@,
            ActivationPhase::Bound => m matches TxDomainMode::Bound(d) && d@ == domain@,
        },
{
    match phase {
        ActivationPhase::Legacy => TxDomainMode::Legacy,
        ActivationPhase::Grace => TxDomainMode::Grace(domain.clone()),
        ActivationPhase::Bound => TxDomainMode::Bound(domain.clone()),
    }
}

/// The text of a refusal that was not the signature gate's.
pub open spec fn other_gate_text(
    phase: ActivationPhase,
    signed: SignedUnder,
    msg: Seq<char>,
) -> Seq<char> {
    "a "@ + signed.spec_label() + " signature in phase "@ + phase.spec_label()
        + " was refused, but not at the signature gate ("@ + reject::class_of(msg).spec_name()
        + ") — the probe never reached the rule it tests: "@ + msg
}

/// The text of an accepted wrong-domain signature.
pub open spec fn wrong_domain_text(phase: ActivationPhase) -> Seq<char> {
    "the node ACCEPTED a transaction signed under a DIFFERENT network's domain (phase "@
        + phase.spec_label()
        + "). Cross-network replay protection is not in force: a verifier frames with its own chain id and genesis, so this signature must not verify in ANY phase"@
}

/// The text of an acceptance that a misread phase boundary explains.
pub open spec fn boundary_text(phase: ActivationPhase, signed: SignedUnder) -> Seq<char> {
    "a "@ + signed.spec_label() + " signature was accepted where phase "@ + phase.spec_label()
        + " predicts refusal; the phase is derived from the activation height and the node's grace length (not fully observable over RPC), so a boundary misread is the likelier explanation"@
}

/// The text of a refusal where acceptance was predicted.
pub open spec fn refused_in_phase_text(
    phase: ActivationPhase,
    signed: SignedUnder,
    msg: Seq<char>,
) -> Seq<char> {
    "a "@ + signed.spec_label() + " signature was refused where phase "@ + phase.spec_label()
        + " predicts acceptance ("@ + reject::class_of(msg).spec_name()
        + "); this is either contention or a phase-boundary misread, not proof of a rule violation: "@
        + msg
}

/// The node refused at the signature gate.
pub open spec fn at_signature_gate(msg: Seq<char>) -> bool {
    reject::class_of(msg) == RejectClass::Other && contains_folded(
        msg,
        "invalid transaction signature"@,
    )
}

/// The score of one tx-domain observation.
pub open spec fn domain_score(
    phase: ActivationPhase,
    signed: SignedUnder,
    outcome: ObservedView,
) -> VerdictView {
    match (domain_rule(phase, signed), outcome) {
        (DomainOutcome::Accepted, ObservedView::Accepted) => VerdictView::Match,
        (DomainOutcome::Refused, ObservedView::Rejected(msg)) => if at_signature_gate(msg) {
            VerdictView::Match
        } else {
            VerdictView::Inconclusive(other_gate_text(phase, signed, msg))
        },
        (DomainOutcome::Refused, ObservedView::Accepted) => if signed
            == SignedUnder::WrongDomain {
            VerdictView::Mismatch(wrong_domain_text(phase))
        } else {
            VerdictView::Inconclusive(boundary_text(phase, signed))
        },
        (DomainOutcome::Accepted, ObservedView::Rejected(msg)) => VerdictView::Inconclusive(
            refused_in_phase_text(phase, signed, msg),
        ),
    }
}

/// Score one tx-domain observation.
///
/// A wrong-domain signature that the node accepted is always a
/// mismatch; every other divergence is inconclusive, because the phase
/// is only as good as the activation height and grace length the caller supplied.
/// An expected refusal that arrives as some other rejection is inconclusive too: the
/// signature gate may never have been reached.
pub fn domain_verdict(
    phase: ActivationPhase,
    signed: SignedUnder,
    observed: &Observed,
) -> (v: Verdict)
    ensures
        v@ == domain_score(phase, signed, observed@),
{
    let expected = expected_domain_outcome(phase, signed);
    match (expected, observed) {
        (DomainOutcome::Accepted, Observed::Accepted) => Verdict::Match,
        (DomainOutcome::Refused, Observed::Rejected(msg)) => {
            let got = classify_reject(msg.as_str());
            if got == RejectClass::Other && contains_ci(
                msg.as_str(),
                "invalid transaction signature",
            ) {
                Verdict::Match
            } else {
                let mut s = owned("a ");
                s.append(signed.label());
                s.append(" signature in phase ");
                s.append(phase.label());
                s.append(" was refused, but not at the signature gate (");
                s.append(got.name());
                s.append(") — the probe never reached the rule it tests: ");
                s.append(msg.as_str());
                Verdict::Inconclusive(s)
            }
        },
        (DomainOutcome::Refused, Observed::Accepted) => {
            if signed == SignedUnder::WrongDomain {
                let mut s = owned(
                    "the node ACCEPTED a transaction signed under a DIFFERENT network's domain (phase ",
                );
                s.append(phase.label());
                s.append(
                    "). Cross-network replay protection is not in force: a verifier frames with its own chain id and genesis, so this signature must not verify in ANY phase",
                );
                Verdict::Mismatch(s)
            } else {
                let mut s = owned("a ");
                s.append(signed.label());
                s.append(" signature was accepted where phase ");
                s.append(phase.label());
                s.append(
                    " predicts refusal; the phase is derived from the activation height and the node's grace length (not fully observable over RPC), so a boundary misread is the likelier explanation",
                );
                Verdict::Inconclusive(s)
            }
        },
        (DomainOutcome::Accepted, Observed::Rejected(msg)) => {
            let got = classify_reject(msg.as_str());
            let mut s = owned("a ");
            s.append(signed.label());
            s.append(" signature was refused where phase ");
            s.append(phase.label());
            s.append(" predicts acceptance (");
            s.append(got.name());
            s.append(
                "); this is either contention or a phase-boundary misread, not proof of a rule violation: ",
            );
            s.append(msg.as_str());
            Verdict::Inconclusive(s)
        },
    }
}

/// How to derive a deliberately wrong signing domain from the correct one.
#[derive(Clone, Copy, Debug, PartialEq, Eq, Structural)]
pub enum WrongDomainKind {
    /// Keep the genesis, change the chain id: the sibling-network case.
    ChainId,
    /// Keep the chain id, change the genesis hash: same name, different history.
    Genesis,
}

impl WrongDomainKind {
    /// Both kinds, so a sweep covers each half of the binding.
    pub fn all() -> (r: [WrongDomainKind; 2])
        ensures
            r@ == seq![WrongDomainKind::ChainId, WrongDomainKind::Genesis],
    {
        let r = [WrongDomainKind::ChainId, WrongDomainKind::Genesis];
        assert(r@ =~= seq![WrongDomainKind::ChainId, WrongDomainKind::Genesis]);
        r
    }

    /// The operator-facing name.
    pub fn label(self) -> (s: &'static str)
        ensures
            s@ == match self {
                WrongDomainKind::ChainId => "wrong chain id"@,
                WrongDomainKind::Genesis => "wrong genesis"@,
            },
    {
        match self {
            WrongDomainKind::ChainId => "wrong chain id",
            WrongDomainKind::Genesis => "wrong genesis",
        }
    }
}

/// Derive a domain that is guaranteed not to be `correct`: a prefix makes the chain
/// id strictly longer, and inverting the first genesis byte always changes it. The
/// half that is not named stays as it is.
pub fn wrong_domain(correct: &SigningDomain, kind: WrongDomainKind) -> (w: SigningDomain)
    ensures
        w@ != correct@,
        match kind {
            WrongDomainKind::ChainId => {
                &&& w@.chain_id == "not-"@ + correct@.chain_id
                &&& w@.genesis == correct@.genesis
            },
            WrongDomainKind::Genesis => {
                &&& w@.chain_id == correct@.chain_id
                &&& w@.genesis == correct@.genesis.update(0, correct@.genesis[0] ^ 0xff)
            },
        },
{
    match kind {
        WrongDomainKind::ChainId => {
            let mut id = owned("not-");
            id.append(correct.chain_id());
            proof {
                reveal_strlit("not-");
                assert(id@.len() == correct@.chain_id.len() + 4);
            }
            SigningDomain::new(id, correct.genesis())
        },
        WrongDomainKind::Genesis => {
            let mut bytes = correct.genesis();
            let first: u8 = bytes[0];
            let flipped: u8 = first ^ 0xff;
            assert(flipped != first) by (bit_vector)
                requires
                    flipped == first ^ 0xff,
            ;
            bytes[0] = flipped;
            let w = SigningDomain::new(owned(correct.chain_id()), bytes);
            assert(w@.genesis =~= correct@.genesis.update(0, flipped));
            assert(w@.genesis[0] != correct@.genesis[0]);
            w
        },
    }
}

/// A script heals what it breaks: the nonces it expects to be accepted are exactly
/// the contiguous run from the base, in ascending order.
pub proof fn law_script_ends_contiguous(scenario: Scenario, base_nonce: u64)
    requires
        base_nonce + 2 <= u64::MAX,
    ensures
        ({
            let n = accepted_nonces(script(scenario, base_nonce));
            &&& n.len() == match scenario {
                Scenario::Gap => 3int,
                Scenario::Reorder => 2,
                Scenario::Duplicate => 1,
            }
            &&& forall|k: int| 0 <= k < n.len() ==> #[trigger] n[k] == base_nonce + k
        }),
{
    reveal_with_fuel(accepted_nonces, 6);
}

/// The nonces a script expects to be accepted, in order.
pub open spec fn accepted_nonces(steps: Seq<Step>) -> Seq<u64>
    decreases steps.len(),
{
    if steps.len() == 0 {
        Seq::empty()
    } else if steps.last().expect is Accepted {
        accepted_nonces(steps.drop_last()).push(steps.last().nonce)
    } else {
        accepted_nonces(steps.drop_last())
    }
}

/// The only failure of a nonce probe is an acceptance above a hole that survived:
/// the before-reading is as planned, the accepted nonce is above it, a refusal was
/// expected, and the after-reading did not move.
pub proof fn law_mismatch_only_above_a_surviving_hole(
    step: Step,
    outcome: ObservedView,
    before: u64,
    after: u64,
)
    ensures
        score(step, outcome, before, after, shown_marker(step)) is Mismatch <==> {
            &&& before == step.assumed_next_nonce
            &&& after == before
            &&& outcome is Accepted
            &&& step.expect is Rejected
            &&& step.nonce > before
        },
{
}

/// A wrong-domain signature is refused in every phase, and its acceptance is always
/// a failure.
pub proof fn law_wrong_domain_is_never_accepted(phase: ActivationPhase)
    ensures
        domain_rule(phase, SignedUnder::WrongDomain) == DomainOutcome::Refused,
        domain_score(phase, SignedUnder::WrongDomain, ObservedView::Accepted) is Mismatch,
{
}

/// The tx-domain probes accuse of nothing else.
pub proof fn law_domain_mismatch_only_for_a_wrong_domain(
    phase: ActivationPhase,
    signed: SignedUnder,
    outcome: ObservedView,
)
    ensures
        domain_score(phase, signed, outcome) is Mismatch ==> signed == SignedUnder::WrongDomain
            && outcome is Accepted,
{
}

/// Phases come in order as the height grows.
pub proof fn law_phases_never_go_back(activation: Option<u64>, grace: u64, low: u64, high: u64)
    requires
        low <= high,
    ensures
        phase_of(activation, grace, low) == ActivationPhase::Bound ==> phase_of(
            activation,
            grace,
            high,
        ) == ActivationPhase::Bound,
        phase_of(activation, grace, high) == ActivationPhase::Legacy ==> phase_of(
            activation,
            grace,
            low,
        ) == ActivationPhase::Legacy,
{
}

/// A node that keeps its own rules is scored as a match at every step of a script:
/// accepting at its next free slot and refusing above it with its gap message, or a
/// replay with its duplicate message.
pub proof fn law_an_honest_node_matches(
    step: Step,
    msg: Seq<char>,
    before: u64,
)
    requires
        before == step.assumed_next_nonce,
        before < u64::MAX,
        match step.expect {
            Expect::Accepted => step.nonce == before,
            Expect::Rejected { class, marker } => reject::class_of(msg) == class
                && contains_folded(msg, marker@),
        },
    ensures
        step.expect is Accepted ==> score(
            step,
            ObservedView::Accepted,
            before,
            (before + 1) as u64,
            shown_marker(step),
        ) is Match,
        step.expect is Rejected ==> score(
            step,
            ObservedView::Rejected(msg),
            before,
            before,
            shown_marker(step),
        ) is Match,
{
}

/// Every step of a script asks one question of an honest node, and expects its answer. What
/// it assumes of the next free nonce is what the acceptances before it have made of the base.
/// A fresh transaction at that nonce is to be accepted, one above it is a gap, and a replay
/// of one that was accepted is a duplicate. There is no other step.
pub proof fn law_each_step_asks_what_it_expects(scenario: Scenario, base_nonce: u64, k: int)
    requires
        base_nonce + 2 <= u64::MAX,
        0 <= k < script(scenario, base_nonce).len(),
    ensures
        ({
            let steps = script(scenario, base_nonce);
            let s = steps[k];
            &&& s.assumed_next_nonce == base_nonce + accepted_nonces(steps.take(k)).len()
            &&& s.expect is Accepted <==> s.nonce == s.assumed_next_nonce
            &&& s.expect matches Expect::Rejected { class, marker } ==> {
                &&& class == RejectClass::NonceGap || class == RejectClass::NonceOccupied
                &&& class == RejectClass::NonceGap <==> s.nonce > s.assumed_next_nonce
                &&& class == RejectClass::NonceOccupied <==> s.resubmit
                &&& marker@ == if s.resubmit {
                    "already in the pool"@
                } else {
                    "nonce gap"@
                }
            }
            &&& s.resubmit ==> s.expect is Rejected && accepted_nonces(steps.take(k)).contains(
                s.nonce,
            )
        }),
{
    let steps = script(scenario, base_nonce);
    reveal_with_fuel(accepted_nonces, 6);
    assert(steps.take(0).len() == 0);
    assert(steps.take(1).drop_last() =~= steps.take(0));
    if scenario == Scenario::Duplicate {
        if k == 1 {
            assert(accepted_nonces(steps.take(1)) =~= seq![base_nonce]);
            assert(accepted_nonces(steps.take(1))[0] == base_nonce);
        }
    } else {
        assert(steps.take(2).drop_last() =~= steps.take(1));
        assert(steps.take(3).drop_last() =~= steps.take(2));
        if scenario == Scenario::Gap {
            assert(steps.take(4).drop_last() =~= steps.take(3));
        }
    }
}

/// Each scenario makes the trouble it is named after: a gap is tried two above the run and
/// again one above it, a reordering one above it, and a duplicate replays the first step.
pub proof fn law_each_scenario_makes_its_trouble(scenario: Scenario, base_nonce: u64)
    requires
        base_nonce + 2 <= u64::MAX,
    ensures
        ({
            let steps = script(scenario, base_nonce);
            match scenario {
                Scenario::Gap => {
                    &&& steps.len() == 5
                    &&& steps[0].nonce == steps[0].assumed_next_nonce + 2
                    &&& steps[2].nonce == steps[2].assumed_next_nonce + 1
                    &&& steps[2].nonce == steps[0].nonce && steps[4].nonce == steps[0].nonce
                    &&& steps[4].expect is Accepted
                },
                Scenario::Reorder => {
                    &&& steps.len() == 3
                    &&& steps[0].nonce == steps[0].assumed_next_nonce + 1
                    &&& steps[2].nonce == steps[0].nonce
                    &&& steps[2].expect is Accepted
                },
                Scenario::Duplicate => {
                    &&& steps.len() == 2
                    &&& steps[1].nonce == steps[0].nonce
                    &&& steps[0].expect is Accepted
                    &&& steps[1].resubmit
                },
            }
        }),
{
}

/// A probe matches exactly where the account stood as planned and the node did as expected:
/// an acceptance took the slot that was free and no other, or a refusal came with the
/// expected wording, in the expected class, and moved nothing.
pub proof fn law_a_match_is_the_expected_answer(
    step: Step,
    outcome: ObservedView,
    before: u64,
    after: u64,
)
    requires
        before < u64::MAX,
        step.expect matches Expect::Rejected { marker, .. } ==> reject::small(marker@),
    ensures
        score(step, outcome, before, after, shown_marker(step)) is Match <==> {
            &&& before == step.assumed_next_nonce
            &&& match step.expect {
                Expect::Accepted => outcome is Accepted && after == if step.nonce == before {
                    before + 1
                } else {
                    before as int
                },
                Expect::Rejected { class, marker } => after == before && (
                outcome matches ObservedView::Rejected(msg) && reject::class_of(msg) == class
                    && reject::reads(msg, marker@)),
            }
        },
{
    if let (Expect::Rejected { marker, .. }, ObservedView::Rejected(msg)) = (
        step.expect,
        outcome,
    ) {
        reject::lemma_reads(msg, marker@);
    }
}

/// The phases have sharp edges: legacy ends at the activation height itself, the grace
/// window is as long as it is said to be, and nothing changes while no activation is set.
pub proof fn law_the_phases_have_sharp_edges(activation: u64, grace_blocks: u64, height: u64)
    requires
        activation + grace_blocks <= u64::MAX,
    ensures
        phase_of(None, grace_blocks, height) == ActivationPhase::Legacy,
        phase_of(Some(activation), grace_blocks, height) == ActivationPhase::Legacy <==> height
            < activation,
        phase_of(Some(activation), grace_blocks, height) == ActivationPhase::Grace <==> activation
            <= height < activation + grace_blocks,
        phase_of(Some(activation), grace_blocks, height) == ActivationPhase::Bound <==> activation
            + grace_blocks <= height,
{
}

/// A window too long to count reaches to the largest height, and no further.
pub proof fn law_an_endless_window_ends_last(activation: u64, grace_blocks: u64, height: u64)
    requires
        activation + grace_blocks > u64::MAX,
        height >= activation,
    ensures
        phase_of(Some(activation), grace_blocks, height) == ActivationPhase::Bound <==> height
            == u64::MAX,
        phase_of(Some(activation), grace_blocks, height) == ActivationPhase::Grace <==> height
            < u64::MAX,
{
}

/// The decision table, column by column: an un-framed signature is good until the window
/// closes, the network's own from when it opens, and another network's never.
pub proof fn law_the_domain_table(phase: ActivationPhase)
    ensures
        domain_rule(phase, SignedUnder::Legacy) == DomainOutcome::Accepted <==> phase
            != ActivationPhase::Bound,
        domain_rule(phase, SignedUnder::CorrectDomain) == DomainOutcome::Accepted <==> phase
            != ActivationPhase::Legacy,
        domain_rule(phase, SignedUnder::WrongDomain) != DomainOutcome::Accepted,
{
}

/// A domain probe matches an acceptance where one is owed, and a refusal where one is owed
/// if it was made at the signature gate: the message reads so, and reads of nothing else.
/// Silence about the signature is never a match, and an owed acceptance that was refused is
/// never an accusation.
pub proof fn law_a_domain_match_is_at_the_gate(
    phase: ActivationPhase,
    signed: SignedUnder,
    msg: Seq<char>,
)
    ensures
        domain_score(phase, signed, ObservedView::Accepted) is Match <==> domain_rule(phase, signed)
            == DomainOutcome::Accepted,
        domain_score(phase, signed, ObservedView::Rejected(msg)) is Match <==> domain_rule(
            phase,
            signed,
        ) == DomainOutcome::Refused && reject::reads(msg, "invalid transaction signature"@)
            && reject::class_of(msg) == RejectClass::Other,
        domain_score(phase, signed, ObservedView::Accepted) is Mismatch <==> signed
            == SignedUnder::WrongDomain,
        !(domain_score(phase, signed, ObservedView::Rejected(msg)) is Mismatch),
{
    reveal_strlit("invalid transaction signature");
    reject::lemma_reads(msg, "invalid transaction signature"@);
}

/// A script asks the same from any base: its nonces are those from zero, moved up by the base
/// and held at the largest, and everything else about its steps is the same.
pub proof fn law_a_script_is_the_same_from_any_base(scenario: Scenario, base_nonce: u64, k: int)
    requires
        0 <= k < script(scenario, base_nonce).len(),
    ensures
        ({
            let (s, z) = (script(scenario, base_nonce)[k], script(scenario, 0)[k]);
            &&& script(scenario, base_nonce).len() == script(scenario, 0).len()
            &&& s.nonce == if base_nonce + z.nonce <= u64::MAX {
                base_nonce + z.nonce
            } else {
                u64::MAX as int
            }
            &&& s.assumed_next_nonce == if base_nonce + z.assumed_next_nonce <= u64::MAX {
                base_nonce + z.assumed_next_nonce
            } else {
                u64::MAX as int
            }
            &&& s.expect == z.expect
            &&& s.resubmit == z.resubmit
            &&& s.probe == z.probe
        }),
{
}

/// A probe that could not be scored says why, with the nonces it saw: where the account
/// stood and where the plan had it, or where it went and where the answer would have left it.
pub proof fn law_an_unscored_probe_gives_the_nonces(
    step: Step,
    outcome: ObservedView,
    before: u64,
    after: u64,
)
    requires
        before < u64::MAX,
    ensures
        ({
            let v = score(step, outcome, before, after, shown_marker(step));
            let left_at = if outcome is Accepted && step.nonce == before {
                (before + 1) as nat
            } else {
                before as nat
            };
            &&& before != step.assumed_next_nonce ==> v == VerdictView::Inconclusive(
                "account moved before the probe: node reports next nonce "@ + text::decimal(
                    before as nat,
                ) + ", the plan assumed "@ + text::decimal(step.assumed_next_nonce as nat),
            )
            &&& before == step.assumed_next_nonce && after != left_at ==> v
                == VerdictView::Inconclusive(
                "account moved during the probe: next nonce went "@ + text::decimal(before as nat)
                    + " → "@ + text::decimal(after as nat) + ", but this outcome implies "@
                    + text::decimal(left_at),
            )
        }),
{
}

/// A scored probe that is no match says what was expected, what came, and where: an
/// acceptance above a hole is told with the nonce and the hole, one in a taken slot with the
/// slot, and a refusal with its class and the node's own words.
pub proof fn law_a_divergence_is_told_in_full(step: Step, outcome: ObservedView, before: u64)
    requires
        before == step.assumed_next_nonce,
        outcome is Accepted ==> step.nonce != before,
    ensures
        ({
            let shown = shown_marker(step);
            let v = score(step, outcome, before, before, shown);
            match (step.expect, outcome) {
                (Expect::Rejected { class, .. }, ObservedView::Accepted) => {
                    &&& step.nonce > before ==> v == VerdictView::Mismatch(
                        "the node ACCEPTED nonce "@ + text::decimal(step.nonce as nat)
                            + " while its own next mineable nonce was "@ + text::decimal(
                            before as nat,
                        )
                            + ", and the hole below survived the submit. Gap-free admission requires a "@
                            + class.spec_name() + "/"@ + shown
                            + " rejection (mempool: nonce > current + pooled ⇒ NonceGap)"@,
                    )
                    &&& step.nonce < before ==> v == VerdictView::Inconclusive(
                        "expected a "@ + class.spec_name() + "/"@ + shown
                            + " rejection at nonce "@ + text::decimal(step.nonce as nat)
                            + ", node accepted; with the first free nonce at "@ + text::decimal(
                            before as nat,
                        )
                            + " this is consistent with an in-place replacement rather than a broken rule"@,
                    )
                },
                (Expect::Rejected { class, marker }, ObservedView::Rejected(msg)) => {
                    &&& reject::class_of(msg) != class ==> v == VerdictView::Inconclusive(
                        "expected a "@ + class.spec_name() + " rejection, got "@ + reject::class_of(
                            msg,
                        ).spec_name() + ": "@ + msg,
                    )
                    &&& reject::class_of(msg) == class && !contains_folded(msg, marker@) ==> v
                        == VerdictView::Inconclusive(
                        "rejection is in the expected class ("@ + class.spec_name()
                            + ") but does not carry the expected wording ("@ + shown
                            + ") — the class alone is too coarse to score: "@ + msg,
                    )
                },
                (Expect::Accepted, ObservedView::Rejected(msg)) => v == VerdictView::Inconclusive(
                    "expected acceptance at nonce "@ + text::decimal(step.nonce as nat)
                        + ", node refused ("@ + reject::class_of(msg).spec_name()
                        + "); contention (capacity, affordability, or a third party taking and mining this slot) explains this without any rule being broken: "@
                        + msg,
                ),
                (Expect::Accepted, ObservedView::Accepted) => v is Match,
            }
        }),
{
}

} // verus!
