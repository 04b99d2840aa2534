//! The node's rejections: what kind one is, and what the sender must do with the
//! nonce it was holding.

use crate::text;
use crate::text::contains;
use crate::text::lower_chars;
use vstd::prelude::*;

verus! {

/// What kind of rejection the node returned for a submit.
#[derive(Clone, Copy, Debug, PartialEq, Eq, Structural)]
pub enum RejectClass {
    /// The pool, or this sender's fair-share slice of it, is at capacity:
    /// `"mempool is full (N transactions)"` or
    /// `"sender S has reached its mempool limit of L pending transactions"`.
    Capacity,
    /// Our nonce is below the account's current nonce: our earlier transactions
    /// mined and the node moved ahead: `"stale transaction: account is at nonce C,
    /// transaction used G"`.
    NonceStale,
    /// The nonce slot is already consumed in the pool: `"transaction already in the
    /// pool"` or `"a transaction with signer S and nonce N is already pooled"`.
    NonceOccupied,
    /// The nonce is above the next one the node can mine:
    /// `"nonce gap: next mineable nonce is E, transaction used G"`. Its own class,
    /// so that a deliberate gap probe is never confused with a transport failure.
    NonceGap,
    /// The signer cannot afford it: `"insufficient balance: pooled transfers would
    /// move C grains but only A are held"`.
    Insufficient,
    /// Anything else (unauthorized, invalid params, transport, …).
    Other,
}

impl RejectClass {
    /// The class's name.
    pub open spec fn spec_name(self) -> Seq<char> {
        match self {
            RejectClass::Capacity => "Capacity"@,
            RejectClass::NonceStale => "NonceStale"@,
            RejectClass::NonceOccupied => "NonceOccupied"@,
            RejectClass::NonceGap => "NonceGap"@,
            RejectClass::Insufficient => "Insufficient"@,
            RejectClass::Other => "Other"@,
        }
    }

    /// The class's name, as the run log says it.
    pub fn name(self) -> (s: &'static str)
        ensures
            s@ == self.spec_name(),
    {
        match self {
            RejectClass::Capacity => "Capacity",
            RejectClass::NonceStale => "NonceStale",
            RejectClass::NonceOccupied => "NonceOccupied",
            RejectClass::NonceGap => "NonceGap",
            RejectClass::Insufficient => "Insufficient",
            RejectClass::Other => "Other",
        }
    }
}

/// The class of a message, read without regard to letter case.
pub open spec fn class_of(msg: Seq<char>) -> RejectClass {
    let m = text::lower(msg);
    if text::contains_text(m, "mempool is full"@) || text::contains_text(
        m,
        "reached its mempool limit"@,
    ) {
        RejectClass::Capacity
    } else if text::contains_text(m, "stale transaction"@) {
        RejectClass::NonceStale
    } else if text::contains_text(m, "already in the pool"@) || text::contains_text(
        m,
        "already pooled"@,
    ) {
        RejectClass::NonceOccupied
    } else if text::contains_text(m, "nonce gap"@) {
        RejectClass::NonceGap
    } else if text::contains_text(m, "insufficient balance"@) {
        RejectClass::Insufficient
    } else {
        RejectClass::Other
    }
}

/// Classify a submit error by the node's real rejection strings. The RPC and the
/// client wrap them; substring matching sees through both wrappers. Unrecognized
/// messages land in [`RejectClass::Other`].
pub fn classify_reject(msg: &str) -> (c: RejectClass)
    ensures
        c == class_of(msg@),
{
    let m = lower_chars(msg);
    if contains(&m, "mempool is full") || contains(&m, "reached its mempool limit") {
        RejectClass::Capacity
    } else if contains(&m, "stale transaction") {
        RejectClass::NonceStale
    } else if contains(&m, "already in the pool") || contains(&m, "already pooled") {
        RejectClass::NonceOccupied
    } else if contains(&m, "nonce gap") {
        RejectClass::NonceGap
    } else if contains(&m, "insufficient balance") {
        RejectClass::Insufficient
    } else {
        RejectClass::Other
    }
}

/// What the worker must do with its in-flight (peeked, not committed) nonce after a
/// rejection. The rule that keeps the account gap-free: a nonce is committed only
/// when the node has consumed its slot.
#[derive(Clone, Copy, Debug, PartialEq, Eq, Structural)]
pub enum Disposition {
    /// Hold the same nonce, back off briefly, retry: the slot was not consumed, and
    /// burning the nonce here would wedge the account.
    HoldAndRetry,
    /// The slot is consumed (a duplicate of our own pooled transaction): commit and
    /// move to the next nonce.
    Advance,
    /// The node is ahead of us: re-query its next nonce and reconcile the sequencer
    /// forward, without committing blindly.
    ReconcileForward,
    /// The signer's balance is fully committed. It frees as pending transactions
    /// mine, so hold the nonce, wait, re-check.
    WaitAffordable,
    /// Unknown failure: the slot was not provably consumed, so hold the nonce, back
    /// off, keep going.
    HoldAndRetryOther,
}

/// The disposition of each rejection class.
pub open spec fn disposition_of(class: RejectClass) -> Disposition {
    match class {
        RejectClass::Capacity => Disposition::HoldAndRetry,
        RejectClass::NonceStale => Disposition::ReconcileForward,
        RejectClass::NonceOccupied => Disposition::Advance,
        RejectClass::NonceGap => Disposition::HoldAndRetryOther,
        RejectClass::Insufficient => Disposition::WaitAffordable,
        RejectClass::Other => Disposition::HoldAndRetryOther,
    }
}

/// The disposition for each rejection class.
pub fn disposition(class: RejectClass) -> (d: Disposition)
    ensures
        d == disposition_of(class),
{
    match class {
        RejectClass::Capacity => Disposition::HoldAndRetry,
        RejectClass::NonceStale => Disposition::ReconcileForward,
        RejectClass::NonceOccupied => Disposition::Advance,
        RejectClass::NonceGap => Disposition::HoldAndRetryOther,
        RejectClass::Insufficient => Disposition::WaitAffordable,
        RejectClass::Other => Disposition::HoldAndRetryOther,
    }
}

/// A nonce is committed for exactly one class of rejection: the one in which the
/// node has consumed the slot.
pub proof fn law_only_an_occupied_slot_commits(class: RejectClass)
    ensures
        disposition_of(class) == Disposition::Advance <==> class == RejectClass::NonceOccupied,
{
}

/// Letter case never changes how a message is classified.
pub proof fn law_classification_ignores_case(a: Seq<char>, b: Seq<char>)
    requires
        text::lower(a) == text::lower(b),
    ensures
        class_of(a) == class_of(b),
{
}

/// Two characters are the same letter, the first in either case.
pub open spec fn same_letter(c: char, d: char) -> bool {
    c == d || ('A' <= c <= 'Z' && d as u32 == c as u32 + 32)
}

/// A phrase in lower case stands in a message from the given place on, in either case.
pub open spec fn reads_at(msg: Seq<char>, phrase: Seq<char>, at: int) -> bool {
    &&& 0 <= at
    &&& at + phrase.len() <= msg.len()
    &&& forall|j: int| 0 <= j < phrase.len() ==> same_letter(msg[at + j], #[trigger] phrase[j])
}

/// A phrase in lower case stands somewhere in a message, in either case.
pub open spec fn reads(msg: Seq<char>, phrase: Seq<char>) -> bool {
    exists|at: int| #[trigger] reads_at(msg, phrase, at)
}

/// A phrase has no capital letter.
pub open spec fn small(phrase: Seq<char>) -> bool {
    forall|j: int| 0 <= j < phrase.len() ==> !('A' <= #[trigger] phrase[j] <= 'Z')
}

proof fn lemma_same_letter(c: char, d: char)
    requires
        same_letter(c, d),
        !('A' <= d <= 'Z'),
    ensures
        text::lower_char(c) == d,
{
    if c != d {
        let u = d as u32;
        vstd::utf8::char_u32_cast(d, u);
        assert(u as char == d);
        assert(u == c as u32 + 32);
    }
}

/// Folding finds a phrase without capitals exactly where the message reads it.
pub proof fn lemma_reads(msg: Seq<char>, phrase: Seq<char>)
    requires
        small(phrase),
    ensures
        text::contains_text(text::lower(msg), phrase) <==> reads(msg, phrase),
{
    let m = text::lower(msg);
    assert forall|at: int| #[trigger] text::occurs_at(m, phrase, at) implies reads_at(
        msg,
        phrase,
        at,
    ) by {
        assert forall|j: int| 0 <= j < phrase.len() implies same_letter(
            msg[at + j],
            #[trigger] phrase[j],
        ) by {
            assert(m.subrange(at, at + phrase.len())[j] == m[at + j]);
        }
    }
    assert forall|at: int| #[trigger] reads_at(msg, phrase, at) implies text::occurs_at(
        m,
        phrase,
        at,
    ) by {
        assert forall|j: int| 0 <= j < phrase.len() implies #[trigger] m.subrange(
            at,
            at + phrase.len(),
        )[j] == phrase[j] by {
            assert(same_letter(msg[at + j], phrase[j]));
            assert(m[at + j] == text::lower_char(msg[at + j]));
            assert(!('A' <= phrase[j] <= 'Z'));
            lemma_same_letter(msg[at + j], phrase[j]);
        }
        assert(m.subrange(at, at + phrase.len()) =~= phrase);
    }
    if text::contains_text(m, phrase) {
        let at = choose|at: int| #[trigger] text::occurs_at(m, phrase, at);
        assert(reads_at(msg, phrase, at));
    }
    if reads(msg, phrase) {
        let at = choose|at: int| #[trigger] reads_at(msg, phrase, at);
        assert(text::occurs_at(m, phrase, at));
    }
}

proof fn lemma_phrases_are_small()
    ensures
        small("mempool is full"@),
        small("reached its mempool limit"@),
        small("stale transaction"@),
        small("already in the pool"@),
        small("already pooled"@),
        small("nonce gap"@),
        small("insufficient balance"@),
{
    reveal_strlit("mempool is full");
    reveal_strlit("reached its mempool limit");
    reveal_strlit("stale transaction");
    reveal_strlit("already in the pool");
    reveal_strlit("already pooled");
    reveal_strlit("nonce gap");
    reveal_strlit("insufficient balance");
}

/// A message says that the pool, or the sender's share of it, is full.
pub open spec fn says_full(msg: Seq<char>) -> bool {
    reads(msg, "mempool is full"@) || reads(msg, "reached its mempool limit"@)
}

/// A message says that the slot of the nonce is taken.
pub open spec fn says_taken(msg: Seq<char>) -> bool {
    reads(msg, "already in the pool"@) || reads(msg, "already pooled"@)
}

/// The node's phrases decide, wherever in the message they stand and in whatever case: a
/// full pool before a stale nonce, before a taken slot, before a gap, before a balance that
/// does not suffice. A message with none of them is of no known kind.
pub proof fn law_the_phrases_decide(msg: Seq<char>)
    ensures
        class_of(msg) == RejectClass::Capacity <==> says_full(msg),
        class_of(msg) == RejectClass::NonceStale <==> !says_full(msg) && reads(
            msg,
            "stale transaction"@,
        ),
        class_of(msg) == RejectClass::NonceOccupied <==> !says_full(msg) && !reads(
            msg,
            "stale transaction"@,
        ) && says_taken(msg),
        class_of(msg) == RejectClass::NonceGap <==> !says_full(msg) && !reads(
            msg,
            "stale transaction"@,
        ) && !says_taken(msg) && reads(msg, "nonce gap"@),
        class_of(msg) == RejectClass::Insufficient <==> !says_full(msg) && !reads(
            msg,
            "stale transaction"@,
        ) && !says_taken(msg) && !reads(msg, "nonce gap"@) && reads(msg, "insufficient balance"@),
        class_of(msg) == RejectClass::Other <==> !says_full(msg) && !reads(
            msg,
            "stale transaction"@,
        ) && !says_taken(msg) && !reads(msg, "nonce gap"@) && !reads(msg, "insufficient balance"@),
{
    lemma_phrases_are_small();
    lemma_reads(msg, "mempool is full"@);
    lemma_reads(msg, "reached its mempool limit"@);
    lemma_reads(msg, "stale transaction"@);
    lemma_reads(msg, "already in the pool"@);
    lemma_reads(msg, "already pooled"@);
    lemma_reads(msg, "nonce gap"@);
    lemma_reads(msg, "insufficient balance"@);
}

proof fn lemma_reads_within(p: Seq<char>, phrase: Seq<char>, s: Seq<char>)
    ensures
        reads(p + phrase + s, phrase),
{
    let msg = p + phrase + s;
    assert forall|j: int| 0 <= j < phrase.len() implies same_letter(
        msg[p.len() + j],
        #[trigger] phrase[j],
    ) by {}
    assert(reads_at(msg, phrase, p.len() as int));
}

/// What stands before and after a phrase does not change what it says, as long as it is no
/// phrase of a kind that goes first.
pub proof fn law_wrapping_does_not_hide_a_phrase(p: Seq<char>, s: Seq<char>)
    ensures
        class_of(p + "mempool is full"@ + s) == RejectClass::Capacity,
        class_of(p + "reached its mempool limit"@ + s) == RejectClass::Capacity,
        !says_full(p + "stale transaction"@ + s) ==> class_of(p + "stale transaction"@ + s)
            == RejectClass::NonceStale,
        ({
            let msg = p + "already in the pool"@ + s;
            !says_full(msg) && !reads(msg, "stale transaction"@) ==> class_of(msg)
                == RejectClass::NonceOccupied
        }),
        ({
            let msg = p + "already pooled"@ + s;
            !says_full(msg) && !reads(msg, "stale transaction"@) ==> class_of(msg)
                == RejectClass::NonceOccupied
        }),
        ({
            let msg = p + "nonce gap"@ + s;
            !says_full(msg) && !reads(msg, "stale transaction"@) && !says_taken(msg) ==> class_of(
                msg,
            ) == RejectClass::NonceGap
        }),
        ({
            let msg = p + "insufficient balance"@ + s;
            !says_full(msg) && !reads(msg, "stale transaction"@) && !says_taken(msg) && !reads(
                msg,
                "nonce gap"@,
            ) ==> class_of(msg) == RejectClass::Insufficient
        }),
{
    lemma_reads_within(p, "mempool is full"@, s);
    lemma_reads_within(p, "reached its mempool limit"@, s);
    lemma_reads_within(p, "stale transaction"@, s);
    lemma_reads_within(p, "already in the pool"@, s);
    lemma_reads_within(p, "already pooled"@, s);
    lemma_reads_within(p, "nonce gap"@, s);
    lemma_reads_within(p, "insufficient balance"@, s);
    law_the_phrases_decide(p + "mempool is full"@ + s);
    law_the_phrases_decide(p + "reached its mempool limit"@ + s);
    law_the_phrases_decide(p + "stale transaction"@ + s);
    law_the_phrases_decide(p + "already in the pool"@ + s);
    law_the_phrases_decide(p + "already pooled"@ + s);
    law_the_phrases_decide(p + "nonce gap"@ + s);
    law_the_phrases_decide(p + "insufficient balance"@ + s);
}

/// The slot is held wherever the node has not consumed it: the sender waits for room or for
/// the balance, asks for the node's nonce where that is ahead, and tries again otherwise.
pub proof fn law_each_kind_has_its_remedy(class: RejectClass)
    ensures
        disposition_of(class) == Disposition::HoldAndRetry <==> class == RejectClass::Capacity,
        disposition_of(class) == Disposition::ReconcileForward <==> class
            == RejectClass::NonceStale,
        disposition_of(class) == Disposition::WaitAffordable <==> class
            == RejectClass::Insufficient,
        disposition_of(class) == Disposition::HoldAndRetryOther <==> class == RejectClass::NonceGap
            || class == RejectClass::Other,
{
}

} // verus!
