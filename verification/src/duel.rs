//! The auction duel: a two-sided, controlled experiment on the fee auction.
//!
//! Everything about the two sides is held identical; the only variable is the tip.
//! Every figure is an observation: a landing is a transaction found in a mined block,
//! or an account nonce that advanced past a submitted one. The verdict is computed
//! from those numbers, and says so plainly when there are not yet enough of them.

use crate::amounts::SUGGESTED_TIP_GRAINS;
use crate::text;
use crate::text::{owned, push_decimal};
use vstd::prelude::*;

verus! {

/// The duel is two-sided by construction: exactly this many wallets.
pub const DUEL_WALLETS: usize = 2;

/// Side A's default bid: ten times the suggested tip.
pub const DUEL_HIGH_BID_GRAINS: u128 = SUGGESTED_TIP_GRAINS * 10;

/// Landings, both sides together, required before the verdict is anything other than
/// inconclusive.
pub const DUEL_MIN_LANDED: u64 = 4;

/// Landing samples retained per side.
pub const DUEL_MAX_SAMPLES: usize = 512;

/// Which side of the duel a worker is.
#[derive(Clone, Copy, Debug, PartialEq, Eq, Structural)]
pub enum DuelSide {
    /// The high bid.
    A,
    /// The low, or absent, bid.
    B,
}

impl DuelSide {
    /// The side's full name.
    pub fn label(self) -> (s: &'static str)
        ensures
            s@ == match self {
                DuelSide::A => "Side A (high bid)"@,
                DuelSide::B => "Side B (low bid)"@,
            },
    {
        match self {
            DuelSide::A => "Side A (high bid)",
            DuelSide::B => "Side B (low bid)",
        }
    }

    /// The one-letter form, for the per-block strip.
    pub fn short(self) -> (s: &'static str)
        ensures
            s@ == match self {
                DuelSide::A => "A"@,
                DuelSide::B => "B"@,
            },
    {
        match self {
            DuelSide::A => "A",
            DuelSide::B => "B",
        }
    }
}

/// Why a duel cannot arm: it is not a two-sided contest.
#[derive(Clone, Copy, Debug, PartialEq, Eq, Structural)]
pub enum DuelBlock {
    /// Fewer than two wallets are selected.
    TooFew(usize),
    /// More than two wallets are selected.
    TooMany(usize),
}

impl DuelBlock {
    /// The reason in words.
    pub open spec fn spec_text(self) -> Seq<char> {
        match self {
            DuelBlock::TooFew(n) => "The duel needs EXACTLY two wallets — one per side — and "@
                + text::decimal(n as nat)
                + " is selected. Check a second unlocked wallet to fire as side B."@,
            DuelBlock::TooMany(n) => "The duel needs EXACTLY two wallets — one per side — and "@
                + text::decimal(n as nat)
                + " are selected. A third sender would add traffic that is neither side, so the comparison would no longer be controlled."@,
        }
    }

    /// The operator-facing reason, in words.
    pub fn message(self) -> (s: String)
        ensures
            s@ == self.spec_text(),
    {
        let mut s = owned("The duel needs EXACTLY two wallets — one per side — and ");
        match self {
            DuelBlock::TooFew(n) => {
                push_decimal(&mut s, n as u128);
                s.append(" is selected. Check a second unlocked wallet to fire as side B.");
            },
            DuelBlock::TooMany(n) => {
                push_decimal(&mut s, n as u128);
                s.append(
                    " are selected. A third sender would add traffic that is neither side, so the comparison would no longer be controlled.",
                );
            },
        }
        s
    }
}

/// Whether this selection can arm a duel. `None` means it can: exactly two.
pub fn duel_wallet_check(selected: usize) -> (r: Option<DuelBlock>)
    ensures
        r == if selected < DUEL_WALLETS {
            Some(DuelBlock::TooFew(selected))
        } else if selected > DUEL_WALLETS {
            Some(DuelBlock::TooMany(selected))
        } else {
            None
        },
{
    if selected < DUEL_WALLETS {
        Some(DuelBlock::TooFew(selected))
    } else if selected > DUEL_WALLETS {
        Some(DuelBlock::TooMany(selected))
    } else {
        None
    }
}

/// One transaction of ours observed in a mined block.
#[derive(Clone, Copy, Debug, PartialEq, Eq, Structural)]
pub struct Landing {
    /// The nonce that landed.
    pub nonce: u64,
    /// The height it was observed at.
    pub height: u64,
    /// Blocks between the tip when it was submitted and the observation.
    pub blocks: u64,
    /// Milliseconds between the submit and the observation.
    pub ms: u64,
    /// Its index in the block's execution order, when the block body was read.
    pub index: Option<usize>,
    /// How many transactions that block held, when the body was read.
    pub txs: Option<usize>,
}

/// A transaction submitted and not yet observed in a block.
#[derive(Clone, Copy, Debug, PartialEq, Eq, Structural)]
pub struct InFlight {
    /// The nonce it used.
    pub nonce: u64,
    /// When it was submitted.
    pub at_ms: u64,
    /// The chain's tip when it was submitted.
    pub height: u64,
}

/// A difference that never goes below zero.
pub open spec fn since(later: u64, earlier: u64) -> u64 {
    if later < earlier {
        0
    } else {
        (later - earlier) as u64
    }
}

/// What an in-flight transaction is as a landing.
pub open spec fn landed_as(
    f: InFlight,
    height: u64,
    now_ms: u64,
    index: Option<usize>,
    txs: Option<usize>,
) -> Landing {
    Landing {
        nonce: f.nonce,
        height,
        blocks: since(height, f.height),
        ms: since(now_ms, f.at_ms),
        index,
        txs,
    }
}

/// The place of a nonce among what is in flight, or the length where it is not there.
pub open spec fn place_of(inflight: Seq<InFlight>, nonce: u64) -> nat
    decreases inflight.len(),
{
    if inflight.len() == 0 || inflight[0].nonce == nonce {
        0
    } else {
        1 + place_of(inflight.skip(1), nonce)
    }
}

/// The newest `DUEL_MAX_SAMPLES` of a list.
pub open spec fn newest(landings: Seq<Landing>) -> Seq<Landing> {
    if landings.len() > DUEL_MAX_SAMPLES {
        landings.skip(landings.len() - DUEL_MAX_SAMPLES)
    } else {
        landings
    }
}

/// A count held at the largest that can be counted.
pub open spec fn count_up(n: u64) -> u64 {
    if n == u64::MAX {
        n
    } else {
        (n + 1) as u64
    }
}

/// A sum held at the largest that can be summed.
pub open spec fn sum_up(sum: u128, x: u64) -> u128 {
    if sum + x > u128::MAX {
        u128::MAX
    } else {
        (sum + x) as u128
    }
}

/// One side's record.
pub struct Record {
    /// Submitted, not yet seen mined.
    pub inflight: Seq<InFlight>,
    /// Recent landings.
    pub landings: Seq<Landing>,
    /// Transactions submitted.
    pub submitted: u64,
    /// Transactions mined.
    pub landed: u64,
    /// Blocks waited, over every landing.
    pub sum_blocks: u128,
    /// Milliseconds waited, over every landing.
    pub sum_ms: u128,
}

impl Record {
    /// As many landings are retained as there were, up to the bound; nothing is in flight
    /// twice; and what was submitted is in flight or has landed.
    pub open spec fn wf(self) -> bool {
        &&& self.landings.len() == if self.landed < DUEL_MAX_SAMPLES {
            self.landed as int
        } else {
            DUEL_MAX_SAMPLES as int
        }
        &&& forall|i: int, j: int|
            0 <= i < j < self.inflight.len() ==> (#[trigger] self.inflight[i]).nonce != (
            #[trigger] self.inflight[j]).nonce
        &&& self.submitted < u64::MAX ==> self.submitted == self.landed + self.inflight.len()
    }

    /// The record with one more landing.
    pub open spec fn with_landing(self, l: Landing) -> Record {
        Record {
            landed: count_up(self.landed),
            sum_blocks: sum_up(self.sum_blocks, l.blocks),
            sum_ms: sum_up(self.sum_ms, l.ms),
            landings: newest(self.landings.push(l)),
            ..self
        }
    }

    /// The record after a submission. A nonce that is still in flight is a retry.
    pub open spec fn submitting(self, f: InFlight) -> Record {
        let i = place_of(self.inflight, f.nonce);
        if i < self.inflight.len() {
            Record { inflight: self.inflight.update(i as int, f), ..self }
        } else {
            Record {
                inflight: self.inflight.push(f),
                submitted: count_up(self.submitted),
                ..self
            }
        }
    }

    /// The record after a nonce was found in a block.
    pub open spec fn hit(
        self,
        height: u64,
        nonce: u64,
        index: usize,
        txs: usize,
        now_ms: u64,
    ) -> Record {
        let i = place_of(self.inflight, nonce);
        if i < self.inflight.len() {
            let f = self.inflight[i as int];
            let r = Record { inflight: self.inflight.remove(i as int), ..self };
            r.with_landing(landed_as(f, height, now_ms, Some(index), Some(txs)))
        } else {
            self
        }
    }

    /// The record after the node reported the account's nonce: whatever is in flight below
    /// that nonce has been mined, in the order it was submitted.
    pub open spec fn reported(self, node_nonce: u64, now_ms: u64, height: u64) -> Record {
        Record {
            inflight: self.inflight.filter(waiting_at(node_nonce)),
            ..with_landings(
                self,
                reported_landings(self.inflight, node_nonce, now_ms, height),
            )
        }
    }
}

/// Not below the account's nonce, so not mined yet.
pub open spec fn waiting_at(node_nonce: u64) -> spec_fn(InFlight) -> bool {
    |f: InFlight| f.nonce >= node_nonce
}

/// Below the account's nonce, so mined.
pub open spec fn mined_at(node_nonce: u64) -> spec_fn(InFlight) -> bool {
    |f: InFlight| f.nonce < node_nonce
}

/// The landings that a reported nonce brings. Nothing is known of their place in a block.
pub open spec fn reported_landings(
    inflight: Seq<InFlight>,
    node_nonce: u64,
    now_ms: u64,
    height: u64,
) -> Seq<Landing> {
    inflight.filter(mined_at(node_nonce)).map_values(
        |f: InFlight| landed_as(f, height, now_ms, None, None),
    )
}

/// The record after a list of landings.
pub open spec fn with_landings(r: Record, ls: Seq<Landing>) -> Record
    decreases ls.len(),
{
    if ls.len() == 0 {
        r
    } else {
        with_landings(r, ls.drop_last()).with_landing(ls.last())
    }
}

proof fn lemma_place_of(inflight: Seq<InFlight>, nonce: u64)
    ensures
        place_of(inflight, nonce) <= inflight.len(),
        place_of(inflight, nonce) < inflight.len() ==> inflight[place_of(
            inflight,
            nonce,
        ) as int].nonce == nonce,
        forall|j: int|
            0 <= j < place_of(inflight, nonce) ==> (#[trigger] inflight[j]).nonce != nonce,
    decreases inflight.len(),
{
    if inflight.len() > 0 && inflight[0].nonce != nonce {
        let rest = inflight.skip(1);
        lemma_place_of(rest, nonce);
        assert forall|j: int| 0 <= j < place_of(inflight, nonce) implies (
        #[trigger] inflight[j]).nonce != nonce by {
            if j > 0 {
                assert(rest[j - 1] == inflight[j]);
            }
        }
    }
}

proof fn lemma_place_is(inflight: Seq<InFlight>, nonce: u64, i: nat)
    requires
        i <= inflight.len(),
        i < inflight.len() ==> inflight[i as int].nonce == nonce,
        forall|j: int| 0 <= j < i ==> (#[trigger] inflight[j]).nonce != nonce,
    ensures
        place_of(inflight, nonce) == i,
{
    lemma_place_of(inflight, nonce);
    let p = place_of(inflight, nonce);
    if p < i {
        assert(inflight[p as int].nonce != nonce);
    } else if i < p {
        assert(inflight[i as int].nonce != nonce);
    }
}

/// Every operation keeps a record in order: nothing is lost, and nothing is counted
/// twice.
pub proof fn law_duel_records_stay_in_order(
    r: Record,
    f: InFlight,
    height: u64,
    nonce: u64,
    index: usize,
    txs: usize,
    now_ms: u64,
)
    requires
        r.wf(),
    ensures
        r.submitting(f).wf(),
        r.hit(height, nonce, index, txs, now_ms).wf(),
        r.reported(nonce, now_ms, height).wf(),
{
    lemma_place_of(r.inflight, f.nonce);
    let i = place_of(r.inflight, f.nonce);
    if i == r.inflight.len() {
        assert(forall|j: int| 0 <= j < r.inflight.len() ==> r.inflight[j].nonce != f.nonce);
    }
    lemma_place_of(r.inflight, nonce);
    lemma_reported_wf(r, nonce, now_ms, height);
}

/// A part of distinct nonces is distinct, and what stays and what goes make up the whole.
proof fn lemma_inflight_parts(s: Seq<InFlight>, node_nonce: u64)
    requires
        forall|i: int, j: int|
            0 <= i < j < s.len() ==> (#[trigger] s[i]).nonce != (#[trigger] s[j]).nonce,
    ensures
        forall|i: int, j: int|
            0 <= i < j < s.filter(waiting_at(node_nonce)).len() ==> (#[trigger] s.filter(
                waiting_at(node_nonce),
            )[i]).nonce != (#[trigger] s.filter(waiting_at(node_nonce))[j]).nonce,
        s.filter(waiting_at(node_nonce)).len() + s.filter(mined_at(node_nonce)).len() == s.len(),
    decreases s.len(),
{
    reveal(Seq::filter);
    if s.len() > 0 {
        let d = s.drop_last();
        let keep = waiting_at(node_nonce);
        assert forall|i: int, j: int| 0 <= i < j < d.len() implies (#[trigger] d[i]).nonce != (
        #[trigger] d[j]).nonce by {
            assert(s[i].nonce != s[j].nonce);
        }
        lemma_inflight_parts(d, node_nonce);
        let k = s.filter(keep);
        let kd = d.filter(keep);
        assert forall|i: int, j: int| 0 <= i < j < k.len() implies (#[trigger] k[i]).nonce != (
        #[trigger] k[j]).nonce by {
            assert(k[i] == kd[i]);
            if j < kd.len() {
                assert(k[j] == kd[j]);
            } else {
                assert(kd.contains(kd[i]));
                d.lemma_filter_contains_rev(keep, kd[i]);
                let m = choose|m: int| 0 <= m < d.len() && d[m] == kd[i];
                assert(s[m].nonce != s[s.len() - 1].nonce);
            }
        }
    }
}

proof fn lemma_with_landings(r: Record, ls: Seq<Landing>)
    requires
        r.landings.len() == if r.landed < DUEL_MAX_SAMPLES {
            r.landed as int
        } else {
            DUEL_MAX_SAMPLES as int
        },
    ensures
        ({
            let n = with_landings(r, ls);
            &&& n.inflight == r.inflight
            &&& n.submitted == r.submitted
            &&& n.landed == if r.landed + ls.len() > u64::MAX {
                u64::MAX as int
            } else {
                r.landed + ls.len()
            }
            &&& n.landings.len() == if n.landed < DUEL_MAX_SAMPLES {
                n.landed as int
            } else {
                DUEL_MAX_SAMPLES as int
            }
        }),
    decreases ls.len(),
{
    if ls.len() > 0 {
        lemma_with_landings(r, ls.drop_last());
    }
}

proof fn lemma_reported_wf(r: Record, node_nonce: u64, now_ms: u64, height: u64)
    requires
        r.wf(),
    ensures
        r.reported(node_nonce, now_ms, height).wf(),
{
    lemma_inflight_parts(r.inflight, node_nonce);
    lemma_with_landings(r, reported_landings(r.inflight, node_nonce, now_ms, height));
}

/// One side's measured record: what it submitted, what landed, and how long each
/// landing waited. Fed only by real observations.
#[derive(Clone, Debug)]
pub struct DuelLedger {
    inflight: Vec<InFlight>,
    landings: Vec<Landing>,
    submitted: u64,
    landed: u64,
    sum_blocks: u128,
    sum_ms: u128,
}

impl DuelLedger {
    /// The record.
    pub closed spec fn view(&self) -> Record {
        Record {
            inflight: self.inflight@,
            landings: self.landings@,
            submitted: self.submitted,
            landed: self.landed,
            sum_blocks: self.sum_blocks,
            sum_ms: self.sum_ms,
        }
    }

    /// An empty ledger.
    pub fn new() -> (l: Self)
        ensures
            l@ == empty_record(),
            l@.wf(),
    {
        DuelLedger {
            inflight: Vec::new(),
            landings: Vec::new(),
            submitted: 0,
            landed: 0,
            sum_blocks: 0,
            sum_ms: 0,
        }
    }

    fn position(&self, nonce: u64) -> (i: usize)
        ensures
            i == place_of(self@.inflight, nonce),
            i <= self@.inflight.len(),
    {
        let mut i: usize = 0;
        while i < self.inflight.len()
            invariant
                i <= self.inflight@.len(),
                forall|j: int| 0 <= j < i ==> (#[trigger] self.inflight@[j]).nonce != nonce,
            ensures
                i <= self.inflight@.len(),
                i < self.inflight@.len() ==> self.inflight@[i as int].nonce == nonce,
                forall|j: int| 0 <= j < i ==> (#[trigger] self.inflight@[j]).nonce != nonce,
            decreases self.inflight@.len() - i,
        {
            if self.inflight[i].nonce == nonce {
                break;
            }
            i = i + 1;
        }
        proof {
            lemma_place_is(self.inflight@, nonce, i as nat);
        }
        i
    }

    /// Record that `nonce` went out at `at_ms` with the tip at `height`.
    ///
    /// Re-submitting a nonce still in flight updates that record rather than counting a
    /// second transaction: the account only ever consumes the nonce once.
    pub fn on_submit(&mut self, nonce: u64, at_ms: u64, height: u64)
        requires
            old(self)@.wf(),
        ensures
            final(self)@.wf(),
            final(self)@ == old(self)@.submitting((InFlight { nonce, at_ms, height })),
    {
        proof {
            law_duel_records_stay_in_order(
                self@,
                InFlight { nonce, at_ms, height },
                0,
                0,
                0,
                0,
                0,
            );
        }
        let i: usize = self.position(nonce);
        if i < self.inflight.len() {
            self.inflight.set(i, InFlight { nonce, at_ms, height });
            return;
        }
        self.inflight.push(InFlight { nonce, at_ms, height });
        self.submitted = self.submitted.saturating_add(1);
    }

    /// Record our transaction found in a mined block: `nonce` at `index` of a block of
    /// `txs` transactions at `height`, observed at `now_ms`. Returns whether it matched
    /// something in flight.
    pub fn on_block_hit(
        &mut self,
        height: u64,
        nonce: u64,
        index: usize,
        txs: usize,
        now_ms: u64,
    ) -> (matched: bool)
        requires
            old(self)@.wf(),
        ensures
            final(self)@.wf(),
            final(self)@ == old(self)@.hit(height, nonce, index, txs, now_ms),
            matched == (place_of(old(self)@.inflight, nonce) < old(self)@.inflight.len()),
    {
        proof {
            law_duel_records_stay_in_order(
                self@,
                InFlight { nonce: 0, at_ms: 0, height: 0 },
                height,
                nonce,
                index,
                txs,
                now_ms,
            );
            lemma_place_of(self@.inflight, nonce);
        }
        let i: usize = self.position(nonce);
        if i == self.inflight.len() {
            return false;
        }
        let f = self.inflight.remove(i);
        self.push_landing(
            Landing {
                nonce,
                height,
                blocks: height.saturating_sub(f.height),
                ms: now_ms.saturating_sub(f.at_ms),
                index: Some(index),
                txs: Some(txs),
            },
        );
        true
    }

    /// Sweep up anything the block scan missed: the node reports the account at
    /// `node_nonce`, so every nonce below it has been mined. Returns how many landings
    /// this added, in the order they were submitted. They carry no index: the position in the block is not known.
    pub fn on_node_nonce(&mut self, node_nonce: u64, now_ms: u64, height: u64) -> (added: u64)
        requires
            old(self)@.wf(),
        ensures
            final(self)@.wf(),
            final(self)@ == old(self)@.reported(node_nonce, now_ms, height),
            added == old(self)@.inflight.len() - final(self)@.inflight.len(),
    {
        let ghost before = self@;
        let ghost keep = waiting_at(node_nonce);
        let ghost goes = mined_at(node_nonce);
        let ghost all = before.inflight;
        proof {
            lemma_reported_wf(self@, node_nonce, now_ms, height);
            reveal(Seq::filter);
            assert(all.take(0).filter(keep) =~= Seq::<InFlight>::empty());
            assert(reported_landings(all.take(0), node_nonce, now_ms, height) =~= Seq::<
                Landing,
            >::empty());
        }
        let waiting: usize = self.inflight.len();
        let mut kept: Vec<InFlight> = Vec::new();
        let mut i: usize = 0;
        while i < waiting
            invariant
                i <= waiting,
                waiting == all.len(),
                all == before.inflight,
                before.wf(),
                keep == waiting_at(node_nonce),
                goes == mined_at(node_nonce),
                self@ == with_landings(
                    before,
                    reported_landings(all.take(i as int), node_nonce, now_ms, height),
                ),
                self@.inflight == all,
                self@.landings.len() <= DUEL_MAX_SAMPLES,
                kept@ == all.take(i as int).filter(keep),
            decreases waiting - i,
        {
            let f = self.inflight[i];
            let ghost here = reported_landings(all.take(i as int), node_nonce, now_ms, height);
            proof {
                reveal(Seq::filter);
                assert(all.take(i + 1).drop_last() =~= all.take(i as int));
                assert(all.take(i + 1).last() == f);
            }
            if f.nonce < node_nonce {
                let l = Landing {
                    nonce: f.nonce,
                    height,
                    blocks: height.saturating_sub(f.height),
                    ms: now_ms.saturating_sub(f.at_ms),
                    index: None,
                    txs: None,
                };
                proof {
                    let next = reported_landings(all.take(i + 1), node_nonce, now_ms, height);
                    assert(next =~= here.push(l));
                    assert(next.drop_last() =~= here);
                }
                self.push_landing(l);
            } else {
                assert(reported_landings(all.take(i + 1), node_nonce, now_ms, height) =~= here);
                kept.push(f);
            }
            i = i + 1;
        }
        assert(all.take(i as int) =~= all);
        proof {
            lemma_inflight_parts(all, node_nonce);
        }
        let left: usize = kept.len();
        self.inflight = kept;
        assert(self@ == before.reported(node_nonce, now_ms, height));
        (waiting - left) as u64
    }

    fn push_landing(&mut self, l: Landing)
        requires
            old(self)@.landings.len() <= DUEL_MAX_SAMPLES,
        ensures
            final(self)@ == old(self)@.with_landing(l),
            final(self)@.landings.len() <= DUEL_MAX_SAMPLES,
    {
        self.landed = self.landed.saturating_add(1);
        self.sum_blocks = self.sum_blocks.saturating_add(l.blocks as u128);
        self.sum_ms = self.sum_ms.saturating_add(l.ms as u128);
        self.landings.push(l);
        if self.landings.len() > DUEL_MAX_SAMPLES {
            self.landings.remove(0);
            assert(self@.landings =~= newest(old(self)@.landings.push(l)));
        }
    }

    /// This side's figures.
    pub fn stats(&self) -> (s: DuelStats)
        ensures
            s == stats_of(self@),
            s.wf(),
    {
        let (mean_blocks, mean_ms): (Option<Mean>, Option<Mean>) = if self.landed > 0 {
            (
                Some(Mean { sum: self.sum_blocks, count: self.landed }),
                Some(Mean { sum: self.sum_ms, count: self.landed }),
            )
        } else {
            (None, None)
        };
        DuelStats {
            submitted: self.submitted,
            landed: self.landed,
            pooled: self.inflight.len() as u64,
            mean_blocks,
            mean_ms,
        }
    }

    /// Retained landings, newest last.
    pub fn landings(&self) -> (l: &Vec<Landing>)
        ensures
            l@ == self@.landings,
    {
        &self.landings
    }

    /// Height and index of each retained landing.
    pub fn positions(&self) -> (p: Vec<(u64, Option<usize>)>)
        ensures
            p@ == positions_of(self@.landings),
    {
        let mut p: Vec<(u64, Option<usize>)> = Vec::new();
        let mut i: usize = 0;
        while i < self.landings.len()
            invariant
                i <= self.landings@.len(),
                p@ == positions_of(self.landings@.take(i as int)),
            decreases self.landings@.len() - i,
        {
            p.push((self.landings[i].height, self.landings[i].index));
            i = i + 1;
            assert(p@ =~= positions_of(self.landings@.take(i as int)));
        }
        assert(self.landings@.take(i as int) =~= self.landings@);
        p
    }
}

impl Default for DuelLedger {
    fn default() -> (l: Self)
        ensures
            l@ == empty_record(),
            l@.wf(),
    {
        Self::new()
    }
}

/// A record of nothing.
pub open spec fn empty_record() -> Record {
    Record {
        inflight: Seq::empty(),
        landings: Seq::empty(),
        submitted: 0,
        landed: 0,
        sum_blocks: 0,
        sum_ms: 0,
    }
}

/// Height and index of each landing.
pub open spec fn positions_of(landings: Seq<Landing>) -> Seq<(u64, Option<usize>)> {
    landings.map_values(|l: Landing| (l.height, l.index))
}

/// The mean of a sum over a count.
pub open spec fn mean_of(sum: u128, count: u64) -> Option<Mean> {
    if count > 0 {
        Some(Mean { sum, count })
    } else {
        None
    }
}

/// The figures of a record.
pub open spec fn stats_of(r: Record) -> DuelStats {
    DuelStats {
        submitted: r.submitted,
        landed: r.landed,
        pooled: r.inflight.len() as u64,
        mean_blocks: mean_of(r.sum_blocks, r.landed),
        mean_ms: mean_of(r.sum_ms, r.landed),
    }
}

/// A mean, kept exact: a sum over a count that is not zero.
#[derive(Clone, Copy, Debug, PartialEq, Eq, Structural)]
pub struct Mean {
    /// What was summed.
    pub sum: u128,
    /// Over how many.
    pub count: u64,
}

/// One side's measured outcome. The means are `None` until that side has landed
/// something: an unlanded side reports a dash, never a zero wait.
#[derive(Clone, Copy, Debug, PartialEq, Eq, Structural)]
pub struct DuelStats {
    /// Transactions this side submitted.
    pub submitted: u64,
    /// Transactions of this side's the chain has mined.
    pub landed: u64,
    /// Submitted, still sitting in the pool.
    pub pooled: u64,
    /// Mean blocks waited from submit to observed mined.
    pub mean_blocks: Option<Mean>,
    /// Mean milliseconds waited from submit to observed mined.
    pub mean_ms: Option<Mean>,
}

impl DuelStats {
    /// The mean wait is one over something.
    pub open spec fn wf(self) -> bool {
        self.mean_blocks matches Some(m) ==> m.count > 0
    }
}

impl Default for DuelStats {
    fn default() -> (s: Self)
        ensures
            s == (DuelStats {
                submitted: 0,
                landed: 0,
                pooled: 0,
                mean_blocks: None,
                mean_ms: None,
            }),
    {
        DuelStats { submitted: 0, landed: 0, pooled: 0, mean_blocks: None, mean_ms: None }
    }
}

/// Every submission is accounted for: it is in flight, or it has landed.
pub proof fn law_what_was_submitted_is_pooled_or_landed(r: Record)
    requires
        r.wf(),
        r.submitted < u64::MAX,
    ensures
        stats_of(r).submitted == stats_of(r).landed + stats_of(r).pooled,
{
}

/// A retry is not a second transaction: submitting a nonce that is in flight moves
/// its stamp and no count.
pub proof fn law_a_retry_is_not_a_second_transaction(r: Record, f: InFlight, i: int)
    requires
        r.wf(),
        0 <= i < r.inflight.len(),
        r.inflight[i].nonce == f.nonce,
    ensures
        r.submitting(f).submitted == r.submitted,
        r.submitting(f).inflight == r.inflight.update(i, f),
        stats_of(r.submitting(f)) == stats_of(r),
{
    lemma_place_of(r.inflight, f.nonce);
    let p = place_of(r.inflight, f.nonce);
    assert(p as int == i) by {
        if p < i {
            assert(r.inflight[p as int].nonce != r.inflight[i].nonce);
        }
    }
}

/// A block that is scanned twice counts once: the second hit on a nonce matches
/// nothing.
pub proof fn law_a_rescan_matches_nothing(
    r: Record,
    height: u64,
    nonce: u64,
    index: usize,
    txs: usize,
    now_ms: u64,
    later: u64,
)
    requires
        r.wf(),
    ensures
        r.hit(height, nonce, index, txs, now_ms).hit(height, nonce, index, txs, later) == r.hit(
            height,
            nonce,
            index,
            txs,
            now_ms,
        ),
{
    let after = r.hit(height, nonce, index, txs, now_ms);
    lemma_place_of(r.inflight, nonce);
    lemma_place_of(after.inflight, nonce);
    let p = place_of(r.inflight, nonce) as int;
    let q = place_of(after.inflight, nonce) as int;
    if q < after.inflight.len() {
        if p < r.inflight.len() {
            assert(after.inflight == r.inflight.remove(p));
            if q < p {
                assert(after.inflight[q] == r.inflight[q]);
            } else {
                assert(after.inflight[q] == r.inflight[q + 1]);
                assert(r.inflight[p].nonce != r.inflight[q + 1].nonce);
            }
        }
    }
}

/// The node's nonce settles exactly what lies below it: nothing below stays in flight,
/// nothing at or above is taken, and each of those that go has landed.
pub proof fn law_the_node_nonce_settles_what_lies_below(
    r: Record,
    node_nonce: u64,
    now_ms: u64,
    height: u64,
    f: InFlight,
)
    requires
        r.wf(),
        r.inflight.contains(f),
    ensures
        ({
            let n = r.reported(node_nonce, now_ms, height);
            let gone = reported_landings(r.inflight, node_nonce, now_ms, height);
            &&& n.inflight.contains(f) <==> f.nonce >= node_nonce
            &&& gone.contains(landed_as(f, height, now_ms, None, None)) || f.nonce >= node_nonce
            &&& n.inflight.len() + gone.len() == r.inflight.len()
            &&& r.submitted < u64::MAX ==> n.landed == r.landed + gone.len()
        }),
{
    let keep = waiting_at(node_nonce);
    let goes = mined_at(node_nonce);
    let i = choose|i: int| 0 <= i < r.inflight.len() && r.inflight[i] == f;
    lemma_inflight_parts(r.inflight, node_nonce);
    lemma_with_landings(r, reported_landings(r.inflight, node_nonce, now_ms, height));
    let left = r.inflight.filter(keep);
    if f.nonce >= node_nonce {
        r.inflight.lemma_filter_contains(keep, i);
    } else {
        r.inflight.lemma_filter_contains(goes, i);
        let mined = r.inflight.filter(goes);
        let k = choose|k: int| 0 <= k < mined.len() && mined[k] == f;
        let gone = reported_landings(r.inflight, node_nonce, now_ms, height);
        assert(gone[k] == landed_as(f, height, now_ms, None, None));
    }
    if left.contains(f) {
        let k = choose|k: int| 0 <= k < left.len() && left[k] == f;
        r.inflight.lemma_filter_pred(keep, k);
    }
}

/// The blocks that a list of landings waited.
pub open spec fn blocks_waited(ls: Seq<Landing>) -> nat
    decreases ls.len(),
{
    if ls.len() == 0 {
        0
    } else {
        blocks_waited(ls.drop_last()) + ls.last().blocks as nat
    }
}

/// The milliseconds that a list of landings waited.
pub open spec fn ms_waited(ls: Seq<Landing>) -> nat
    decreases ls.len(),
{
    if ls.len() == 0 {
        0
    } else {
        ms_waited(ls.drop_last()) + ls.last().ms as nat
    }
}

/// The figures cover every landing, not only the retained ones, and what is retained
/// is the newest of them.
pub proof fn law_means_cover_every_landing(ls: Seq<Landing>)
    requires
        ls.len() <= u64::MAX,
    ensures
        with_landings(empty_record(), ls).landed == ls.len(),
        with_landings(empty_record(), ls).sum_blocks == blocks_waited(ls),
        with_landings(empty_record(), ls).sum_ms == ms_waited(ls),
        with_landings(empty_record(), ls).landings == newest(ls),
        blocks_waited(ls) <= ls.len() * u64::MAX,
        ms_waited(ls) <= ls.len() * u64::MAX,
    decreases ls.len(),
{
    if ls.len() > 0 {
        let rest = ls.drop_last();
        law_means_cover_every_landing(rest);
        let n = ls.len() as int;
        assert((n - 1) * u64::MAX + u64::MAX == n * u64::MAX) by (nonlinear_arith);
        assert(n * u64::MAX <= u64::MAX * u64::MAX) by (nonlinear_arith)
            requires
                0 <= n <= u64::MAX,
        ;
        assert(u64::MAX * u64::MAX <= u128::MAX) by (nonlinear_arith);
        assert(newest(newest(rest).push(ls.last())) =~= newest(ls));
    } else {
        assert(newest(ls) =~= ls);
    }
}

/// An observation of a duel.
pub enum Step {
    /// A transaction went out.
    Submit(InFlight),
    /// A nonce was found in a block.
    Hit { height: u64, nonce: u64, index: usize, txs: usize, now_ms: u64 },
    /// The node reported the account's nonce.
    Report { node_nonce: u64, now_ms: u64, height: u64 },
}

/// The record after an observation.
pub open spec fn after_step(r: Record, s: Step) -> Record {
    match s {
        Step::Submit(f) => r.submitting(f),
        Step::Hit { height, nonce, index, txs, now_ms } => r.hit(height, nonce, index, txs, now_ms),
        Step::Report { node_nonce, now_ms, height } => r.reported(node_nonce, now_ms, height),
    }
}

/// The landings that an observation brings, in order.
pub open spec fn step_landings(r: Record, s: Step) -> Seq<Landing> {
    match s {
        Step::Submit(_) => Seq::empty(),
        Step::Hit { height, nonce, index, txs, now_ms } => {
            let i = place_of(r.inflight, nonce);
            if i < r.inflight.len() {
                seq![
                    landed_as(r.inflight[i as int], height, now_ms, Some(index), Some(txs)),
                ]
            } else {
                Seq::empty()
            }
        },
        Step::Report { node_nonce, now_ms, height } => reported_landings(
            r.inflight,
            node_nonce,
            now_ms,
            height,
        ),
    }
}

/// The record of a new ledger after some observations.
pub open spec fn after_steps(steps: Seq<Step>) -> Record
    decreases steps.len(),
{
    if steps.len() == 0 {
        empty_record()
    } else {
        after_step(after_steps(steps.drop_last()), steps.last())
    }
}

/// Every landing that some observations of a new ledger brought, in order.
pub open spec fn all_landings(steps: Seq<Step>) -> Seq<Landing>
    decreases steps.len(),
{
    if steps.len() == 0 {
        Seq::empty()
    } else {
        all_landings(steps.drop_last()) + step_landings(
            after_steps(steps.drop_last()),
            steps.last(),
        )
    }
}

/// Two records say the same of what landed.
spec fn same_landings(a: Record, b: Record) -> bool {
    &&& a.landings == b.landings
    &&& a.landed == b.landed
    &&& a.sum_blocks == b.sum_blocks
    &&& a.sum_ms == b.sum_ms
}

proof fn lemma_same_landings(a: Record, b: Record, ls: Seq<Landing>)
    requires
        same_landings(a, b),
    ensures
        same_landings(with_landings(a, ls), with_landings(b, ls)),
    decreases ls.len(),
{
    if ls.len() > 0 {
        lemma_same_landings(a, b, ls.drop_last());
    }
}

proof fn lemma_landings_add(r: Record, a: Seq<Landing>, b: Seq<Landing>)
    ensures
        with_landings(r, a + b) == with_landings(with_landings(r, a), b),
    decreases b.len(),
{
    if b.len() == 0 {
        assert(a + b =~= a);
    } else {
        assert((a + b).drop_last() =~= a + b.drop_last());
        assert((a + b).last() == b.last());
        lemma_landings_add(r, a, b.drop_last());
    }
}

proof fn lemma_one_landing(r: Record, l: Landing)
    ensures
        with_landings(r, seq![l]) == r.with_landing(l),
{
    let one = seq![l];
    assert(one.drop_last() =~= Seq::<Landing>::empty());
    assert(with_landings(r, one.drop_last()) == r);
    assert(one.last() == l);
}

proof fn lemma_step_landings(r: Record, s: Step)
    ensures
        same_landings(after_step(r, s), with_landings(r, step_landings(r, s))),
{
    match s {
        Step::Submit(_) => {},
        Step::Hit { height, nonce, index, txs, now_ms } => {
            let i = place_of(r.inflight, nonce);
            if i < r.inflight.len() {
                lemma_one_landing(
                    r,
                    landed_as(r.inflight[i as int], height, now_ms, Some(index), Some(txs)),
                );
            }
        },
        Step::Report { .. } => {},
    }
}

proof fn lemma_after_steps(steps: Seq<Step>)
    ensures
        after_steps(steps).wf(),
        same_landings(
            after_steps(steps),
            with_landings(empty_record(), all_landings(steps)),
        ),
    decreases steps.len(),
{
    if steps.len() > 0 {
        let before = after_steps(steps.drop_last());
        let made = all_landings(steps.drop_last());
        let s = steps.last();
        lemma_after_steps(steps.drop_last());
        match s {
            Step::Submit(f) => law_duel_records_stay_in_order(before, f, 0, 0, 0, 0, 0),
            Step::Hit { height, nonce, index, txs, now_ms } => law_duel_records_stay_in_order(
                before,
                InFlight { nonce: 0, at_ms: 0, height: 0 },
                height,
                nonce,
                index,
                txs,
                now_ms,
            ),
            Step::Report { node_nonce, now_ms, height } => lemma_reported_wf(
                before,
                node_nonce,
                now_ms,
                height,
            ),
        }
        let more = step_landings(before, s);
        lemma_step_landings(before, s);
        lemma_same_landings(before, with_landings(empty_record(), made), more);
        lemma_landings_add(empty_record(), made, more);
    }
}

/// The figures are those of every landing so far, whatever was observed in which order: the
/// counts and the means cover all of them, also those no longer retained, and what is
/// retained is the newest of them, newest last. Counted up to the largest count.
pub proof fn law_the_figures_cover_the_whole_duel(steps: Seq<Step>)
    requires
        all_landings(steps).len() <= u64::MAX,
        after_steps(steps).submitted < u64::MAX,
    ensures
        ({
            let r = after_steps(steps);
            let all = all_landings(steps);
            let s = stats_of(r);
            &&& r.wf()
            &&& s.landed == all.len()
            &&& s.submitted == s.landed + s.pooled
            &&& s.mean_blocks is None <==> all.len() == 0
            &&& s.mean_ms is None <==> all.len() == 0
            &&& s.mean_blocks matches Some(m) ==> m.sum == blocks_waited(all) && m.count
                == all.len()
            &&& s.mean_ms matches Some(m) ==> m.sum == ms_waited(all) && m.count == all.len()
            &&& r.landings == newest(all)
            &&& r.landings.len() == if all.len() < DUEL_MAX_SAMPLES {
                all.len() as int
            } else {
                DUEL_MAX_SAMPLES as int
            }
        }),
{
    lemma_after_steps(steps);
    law_means_cover_every_landing(all_landings(steps));
}

/// A hit measures the wait: the transaction leaves what is in flight and is the newest
/// landing, at the height and place it was found, having waited the blocks and the
/// milliseconds since it went out. Those are added to the sums, and it is counted once.
pub proof fn law_a_hit_measures_the_wait(
    r: Record,
    i: int,
    height: u64,
    index: usize,
    txs: usize,
    now_ms: u64,
)
    requires
        r.wf(),
        0 <= i < r.inflight.len(),
        r.inflight[i].height <= height,
        r.inflight[i].at_ms <= now_ms,
        r.landed < u64::MAX,
        r.sum_blocks + u64::MAX <= u128::MAX,
        r.sum_ms + u64::MAX <= u128::MAX,
    ensures
        ({
            let f = r.inflight[i];
            let n = r.hit(height, f.nonce, index, txs, now_ms);
            let l = n.landings.last();
            &&& n.inflight == r.inflight.remove(i)
            &&& n.submitted == r.submitted
            &&& n.landed == r.landed + 1
            &&& n.sum_blocks + f.height == r.sum_blocks + height
            &&& n.sum_ms + f.at_ms == r.sum_ms + now_ms
            &&& n.landings.len() > 0
            &&& l.nonce == f.nonce
            &&& l.height == height
            &&& l.blocks + f.height == height
            &&& l.ms + f.at_ms == now_ms
            &&& l.index == Some(index)
            &&& l.txs == Some(txs)
        }),
{
    let f = r.inflight[i];
    lemma_place_of(r.inflight, f.nonce);
    let p = place_of(r.inflight, f.nonce) as int;
    if p < i {
        assert(r.inflight[p].nonce != r.inflight[i].nonce);
    }
}

/// A clock or a tip that went back makes a wait of nothing, never a negative one.
pub proof fn law_no_wait_is_negative(
    f: InFlight,
    height: u64,
    now_ms: u64,
    index: Option<usize>,
    txs: Option<usize>,
)
    ensures
        height <= f.height ==> landed_as(f, height, now_ms, index, txs).blocks == 0,
        now_ms <= f.at_ms ==> landed_as(f, height, now_ms, index, txs).ms == 0,
{
}

/// A nonce that is not in flight matches nothing: a hit on it changes nothing, and a
/// submission of it is one more transaction, behind those in flight.
pub proof fn law_a_new_nonce_is_one_more(
    r: Record,
    f: InFlight,
    height: u64,
    index: usize,
    txs: usize,
    now_ms: u64,
)
    requires
        forall|i: int| 0 <= i < r.inflight.len() ==> (#[trigger] r.inflight[i]).nonce != f.nonce,
        r.submitted < u64::MAX,
    ensures
        r.hit(height, f.nonce, index, txs, now_ms) == r,
        r.submitting(f).inflight == r.inflight.push(f),
        r.submitting(f).submitted == r.submitted + 1,
        r.submitting(f).landed == r.landed,
        r.submitting(f).landings == r.landings,
        r.submitting(f).sum_blocks == r.sum_blocks,
        r.submitting(f).sum_ms == r.sum_ms,
{
    lemma_place_of(r.inflight, f.nonce);
}

/// What a reported nonce settles are exactly the transactions below it, in the order they
/// were submitted; each waited from when it went out, and nothing is claimed of its place.
pub proof fn law_a_sweep_measures_the_waits(
    inflight: Seq<InFlight>,
    node_nonce: u64,
    now_ms: u64,
    height: u64,
    k: int,
)
    ensures
        ({
            let below = inflight.filter(|f: InFlight| f.nonce < node_nonce);
            let ls = reported_landings(inflight, node_nonce, now_ms, height);
            &&& ls.len() == below.len()
            &&& 0 <= k < below.len() ==> {
                &&& ls[k].nonce == below[k].nonce
                &&& ls[k].height == height
                &&& below[k].height <= height ==> ls[k].blocks + below[k].height == height
                &&& below[k].at_ms <= now_ms ==> ls[k].ms + below[k].at_ms == now_ms
                &&& ls[k].index is None
                &&& ls[k].txs is None
            }
        }),
{
    assert(mined_at(node_nonce) =~= |f: InFlight| f.nonce < node_nonce);
}

/// A sweep leaves in flight exactly what is not below the nonce, in its order, and counts
/// and sums what it settles.
pub proof fn law_a_sweep_keeps_the_rest(r: Record, node_nonce: u64, now_ms: u64, height: u64)
    requires
        r.wf(),
        r.landed + r.inflight.len() <= u64::MAX,
    ensures
        ({
            let n = r.reported(node_nonce, now_ms, height);
            &&& n.inflight == r.inflight.filter(|f: InFlight| !(f.nonce < node_nonce))
            &&& n.submitted == r.submitted
            &&& n.landed == r.landed + r.inflight.filter(|f: InFlight| f.nonce < node_nonce).len()
        }),
{
    assert(mined_at(node_nonce) =~= |f: InFlight| f.nonce < node_nonce);
    assert(waiting_at(node_nonce) =~= |f: InFlight| !(f.nonce < node_nonce));
    lemma_inflight_parts(r.inflight, node_nonce);
    lemma_with_landings(r, reported_landings(r.inflight, node_nonce, now_ms, height));
}

/// What is retained is the end of the list: all of it while it fits, and the last so many
/// once it does not.
pub proof fn law_the_newest_are_the_last(ls: Seq<Landing>, k: int)
    ensures
        ls.len() <= DUEL_MAX_SAMPLES ==> newest(ls) == ls,
        ls.len() > DUEL_MAX_SAMPLES ==> newest(ls).len() == DUEL_MAX_SAMPLES,
        0 <= k < newest(ls).len() ==> newest(ls)[newest(ls).len() - 1 - k] == ls[ls.len() - 1 - k],
{
}

/// The figures are those of the record: a mean is its sum over all that landed, and there is
/// none before anything has.
pub proof fn law_the_figures_are_of_the_record(r: Record)
    requires
        r.inflight.len() <= u64::MAX,
    ensures
        stats_of(r).submitted == r.submitted,
        stats_of(r).landed == r.landed,
        stats_of(r).pooled == r.inflight.len(),
        r.landed == 0 ==> stats_of(r).mean_blocks is None && stats_of(r).mean_ms is None,
        r.landed > 0 ==> {
            &&& stats_of(r).mean_blocks matches Some(m) && m.sum == r.sum_blocks && m.count
                == r.landed
            &&& stats_of(r).mean_ms matches Some(m) && m.sum == r.sum_ms && m.count == r.landed
        },
{
}

/// The positions are those of the landings, one for each, in their order.
pub proof fn law_positions_are_of_the_landings(ls: Seq<Landing>, i: int)
    ensures
        positions_of(ls).len() == ls.len(),
        0 <= i < ls.len() ==> positions_of(ls)[i].0 == ls[i].height && positions_of(ls)[i].1
            == ls[i].index,
{
}

/// A count or a sum that has reached the largest stays there.
pub proof fn law_full_counts_stay_full(r: Record, l: Landing)
    ensures
        r.landed == u64::MAX ==> r.with_landing(l).landed == u64::MAX,
        r.sum_blocks + l.blocks >= u128::MAX ==> r.with_landing(l).sum_blocks == u128::MAX,
        r.sum_ms + l.ms >= u128::MAX ==> r.with_landing(l).sum_ms == u128::MAX,
        r.landed < u64::MAX ==> r.with_landing(l).landed == r.landed + 1,
        r.sum_blocks + l.blocks <= u128::MAX ==> r.with_landing(l).sum_blocks == r.sum_blocks
            + l.blocks,
        r.sum_ms + l.ms <= u128::MAX ==> r.with_landing(l).sum_ms == r.sum_ms + l.ms,
{
}

} // verus!
