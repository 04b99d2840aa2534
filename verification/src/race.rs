//! What a duel's landings say: who made which block, and what may be concluded.

use crate::duel::{DuelSide, DuelStats, Mean, DUEL_MIN_LANDED};
use crate::sorting;
use crate::sorting::sort_ascending;
use crate::text;
use crate::text::{owned, push_decimal};
use vstd::prelude::*;

verus! {

/// Height and index of a landing.
pub type Position = (u64, Option<usize>);

/// What happened in one block that at least one side landed in.
#[derive(Clone, Copy, Debug, PartialEq, Eq, Structural)]
pub struct BlockOutcome {
    /// The block height.
    pub height: u64,
    /// How many of side A's transactions it included.
    pub a: u64,
    /// How many of side B's.
    pub b: u64,
    /// Which side came first in the block's execution order, when both sides landed in
    /// it and both indexes are known.
    pub first: Option<DuelSide>,
}

/// How many of a side's landings lie at a height.
pub open spec fn hits_at(side: Seq<Position>, h: u64) -> nat
    decreases side.len(),
{
    if side.len() == 0 {
        0
    } else {
        hits_at(side.drop_last(), h) + if side.last().0 == h {
            1nat
        } else {
            0nat
        }
    }
}

/// The smallest known index of a side's landings at a height.
pub open spec fn earliest_at(side: Seq<Position>, h: u64) -> Option<usize>
    decreases side.len(),
{
    if side.len() == 0 {
        None
    } else {
        let before = earliest_at(side.drop_last(), h);
        match side.last() {
            (hh, Some(i)) if hh == h => match before {
                Some(f) if f <= i => Some(f),
                _ => Some(i),
            },
            _ => before,
        }
    }
}

/// Which of two known indexes comes first.
pub open spec fn ordered(a: Option<usize>, b: Option<usize>) -> Option<DuelSide> {
    match (a, b) {
        (Some(i), Some(j)) => if i < j {
            Some(DuelSide::A)
        } else if j < i {
            Some(DuelSide::B)
        } else {
            None
        },
        _ => None,
    }
}

/// The outcome of a block.
pub open spec fn outcome_at(a: Seq<Position>, b: Seq<Position>, h: u64) -> BlockOutcome {
    BlockOutcome {
        height: h,
        a: hits_at(a, h) as u64,
        b: hits_at(b, h) as u64,
        first: ordered(earliest_at(a, h), earliest_at(b, h)),
    }
}

/// A side landed at a height.
pub open spec fn lands_at(side: Seq<Position>, h: u64) -> bool {
    exists|i: int| 0 <= i < side.len() && (#[trigger] side[i]).0 == h
}

/// One side or the other landed at a height.
pub open spec fn either_lands_at(a: Seq<Position>, b: Seq<Position>, h: u64) -> bool {
    lands_at(a, h) || lands_at(b, h)
}

/// There is a row for a height.
pub open spec fn has_row(o: Seq<BlockOutcome>, h: u64) -> bool {
    exists|i: int| 0 <= i < o.len() && (#[trigger] o[i]).height == h
}

/// The heights of a side's landings.
pub open spec fn heights_of(side: Seq<Position>) -> Seq<u64> {
    side.map_values(|p: Position| p.0)
}

proof fn lemma_hits(side: Seq<Position>, h: u64)
    ensures
        hits_at(side, h) <= side.len(),
        hits_at(side, h) > 0 <==> lands_at(side, h),
        earliest_at(side, h) is Some ==> hits_at(side, h) > 0,
    decreases side.len(),
{
    if side.len() > 0 {
        lemma_hits(side.drop_last(), h);
        if lands_at(side, h) {
            let i = choose|i: int| 0 <= i < side.len() && (#[trigger] side[i]).0 == h;
            if i < side.len() - 1 {
                assert(side.drop_last()[i].0 == h);
            }
        }
        if hits_at(side, h) > 0 {
            if side.last().0 == h {
                assert(side[side.len() - 1].0 == h);
            } else {
                let i = choose|i: int|
                    0 <= i < side.drop_last().len() && (#[trigger] side.drop_last()[i]).0 == h;
                assert(side[i].0 == h);
            }
        }
    }
}

/// A side's hits at a height, and the first known index among them.
fn at(side: &[Position], h: u64) -> (r: (u64, Option<usize>))
    ensures
        r.0 == hits_at(side@, h),
        r.1 == earliest_at(side@, h),
{
    let n: usize = side.len();
    let mut count: u64 = 0;
    let mut first: Option<usize> = None;
    let mut i: usize = 0;
    while i < n
        invariant
            n == side@.len(),
            i <= n,
            count == hits_at(side@.take(i as int), h),
            count <= i,
            first == earliest_at(side@.take(i as int), h),
        decreases n - i,
    {
        assert(side@.take(i + 1).drop_last() =~= side@.take(i as int));
        assert(side@.take(i + 1).last() == side@[i as int]);
        let p: Position = side[i];
        if p.0 == h {
            count = count + 1;
            if let Some(idx) = p.1 {
                first = match first {
                    Some(f) => if f <= idx {
                        Some(f)
                    } else {
                        Some(idx)
                    },
                    None => Some(idx),
                };
            }
        }
        i = i + 1;
    }
    assert(side@.take(i as int) =~= side@);
    (count, first)
}

/// The heights of both sides' landings, one after the other.
fn all_heights(a: &[Position], b: &[Position]) -> (r: Vec<u64>)
    ensures
        r@ == heights_of(a@) + heights_of(b@),
{
    let mut r: Vec<u64> = Vec::new();
    let mut i: usize = 0;
    while i < a.len()
        invariant
            i <= a@.len(),
            r@ == heights_of(a@.take(i as int)),
        decreases a@.len() - i,
    {
        r.push(a[i].0);
        i = i + 1;
        assert(r@ =~= heights_of(a@.take(i as int)));
    }
    assert(a@.take(i as int) =~= a@);
    let mut j: usize = 0;
    while j < b.len()
        invariant
            j <= b@.len(),
            r@ == heights_of(a@) + heights_of(b@.take(j as int)),
        decreases b@.len() - j,
    {
        r.push(b[j].0);
        j = j + 1;
        assert(r@ =~= heights_of(a@) + heights_of(b@.take(j as int)));
    }
    assert(b@.take(j as int) =~= b@);
    r
}

/// What the per-block record of two sides is: one row for each block that a side
/// landed in, in ascending order, and no other row.
pub open spec fn is_block_record(
    o: Seq<BlockOutcome>,
    a: Seq<Position>,
    b: Seq<Position>,
) -> bool {
    &&& forall|i: int, j: int|
        0 <= i < j < o.len() ==> (#[trigger] o[i]).height < (#[trigger] o[j]).height
    &&& forall|i: int|
        0 <= i < o.len() ==> (#[trigger] o[i]) == outcome_at(a, b, o[i].height)
            && either_lands_at(a, b, o[i].height)
    &&& forall|h: u64| #[trigger] either_lands_at(a, b, h) ==> has_row(o, h)
}

/// Fold both sides' landings into a per-block record.
///
/// Only blocks at least one side landed in appear: inventing a row for another would
/// misrepresent the sample size.
pub fn block_outcomes(a: &[Position], b: &[Position]) -> (o: Vec<BlockOutcome>)
    ensures
        is_block_record(o@, a@, b@),
{
    let unsorted = all_heights(a, b);
    let heights = sort_ascending(&unsorted);
    proof {
        sorting::lemma_ascending(unsorted@);
    }
    let ghost hs = heights@;
    assert forall|h: u64| hs.contains(h) <==> either_lands_at(a@, b@, h) by {
        lemma_height_occurs(a@, b@, h);
    }
    let mut o: Vec<BlockOutcome> = Vec::new();
    let mut i: usize = 0;
    while i < heights.len()
        invariant
            i <= heights@.len(),
            hs == heights@,
            sorting::is_ascending(hs),
            forall|h: u64|
                #![trigger hs.contains(h)]
                hs.contains(h) <==> either_lands_at(a@, b@, h),
            forall|x: int, y: int|
                0 <= x < y < o@.len() ==> (#[trigger] o@[x]).height < (#[trigger] o@[y]).height,
            forall|x: int|
                0 <= x < o@.len() ==> (#[trigger] o@[x]) == outcome_at(a@, b@, o@[x].height)
                    && either_lands_at(a@, b@, o@[x].height),
            forall|k: int| 0 <= k < i ==> has_row(o@, #[trigger] hs[k]),
            o@.len() > 0 ==> i > 0 && o@.last().height == hs[i - 1],
            o@.len() == 0 ==> i == 0,
        decreases heights@.len() - i,
    {
        let h: u64 = heights[i];
        assert(hs.contains(h));
        let ghost before = o@;
        if i == 0 || heights[i - 1] != h {
            let (ac, ai) = at(a, h);
            let (bc, bi) = at(b, h);
            proof {
                lemma_hits(a@, h);
                lemma_hits(b@, h);
            }
            let first: Option<DuelSide> = if ac > 0 && bc > 0 {
                match (ai, bi) {
                    (Some(x), Some(y)) => if x < y {
                        Some(DuelSide::A)
                    } else if y < x {
                        Some(DuelSide::B)
                    } else {
                        None
                    },
                    _ => None,
                }
            } else {
                None
            };
            o.push(BlockOutcome { height: h, a: ac, b: bc, first });
            proof {
                assert(o@.last() == outcome_at(a@, b@, h));
                assert forall|x: int, y: int| 0 <= x < y < o@.len() implies (
                #[trigger] o@[x]).height < (#[trigger] o@[y]).height by {
                    if y == before.len() {
                        assert(before.last().height == hs[i - 1]);
                        assert(hs[i - 1] <= hs[i as int]);
                        if x < before.len() - 1 {
                            assert(before[x].height < before[before.len() - 1].height);
                        }
                    }
                }
            }
        }
        assert forall|k: int| 0 <= k < i + 1 implies has_row(o@, #[trigger] hs[k]) by {
            if k < i {
                let x = choose|x: int|
                    0 <= x < before.len() && (#[trigger] before[x]).height == hs[k];
                assert(o@[x].height == hs[k]);
            } else {
                assert(o@[o@.len() - 1].height == hs[k]);
            }
        }
        i = i + 1;
    }
    proof {
        assert forall|h: u64| #[trigger] either_lands_at(a@, b@, h) implies has_row(o@, h) by {
            assert(hs.contains(h));
            let k = hs.index_of(h);
            assert(hs[k] == h);
        }
    }
    o
}

proof fn lemma_height_occurs(a: Seq<Position>, b: Seq<Position>, h: u64)
    ensures
        (heights_of(a) + heights_of(b)).contains(h) <==> either_lands_at(a, b, h),
{
    let all = heights_of(a) + heights_of(b);
    if all.contains(h) {
        let i = all.index_of(h);
        if i < a.len() {
            assert(a[i].0 == h);
        } else {
            assert(b[i - a.len()].0 == h);
        }
    }
    if lands_at(a, h) {
        let i = choose|i: int| 0 <= i < a.len() && (#[trigger] a[i]).0 == h;
        assert(all[i] == h);
    }
    if lands_at(b, h) {
        let i = choose|i: int| 0 <= i < b.len() && (#[trigger] b[i]).0 == h;
        assert(all[a.len() + i] == h);
    }
}

/// The per-block record is determined by the landings.
pub proof fn law_the_block_record_is_unique(
    o: Seq<BlockOutcome>,
    p: Seq<BlockOutcome>,
    a: Seq<Position>,
    b: Seq<Position>,
)
    requires
        is_block_record(o, a, b),
        is_block_record(p, a, b),
    ensures
        o == p,
    decreases o.len(),
{
    lemma_record_prefix(o, p, a, b, o.len() as int);
    lemma_record_prefix(p, o, a, b, p.len() as int);
    assert(o =~= p);
}

/// The first rows of two records of the same landings agree.
proof fn lemma_record_prefix(
    o: Seq<BlockOutcome>,
    p: Seq<BlockOutcome>,
    a: Seq<Position>,
    b: Seq<Position>,
    n: int,
)
    requires
        is_block_record(o, a, b),
        is_block_record(p, a, b),
        0 <= n <= o.len(),
    ensures
        n <= p.len(),
        forall|i: int| 0 <= i < n ==> o[i] == p[i],
    decreases n,
{
    if n > 0 {
        lemma_record_prefix(o, p, a, b, n - 1);
        let h = o[n - 1].height;
        assert(either_lands_at(a, b, h));
        let j = choose|j: int| 0 <= j < p.len() && (#[trigger] p[j]).height == h;
        if j < n - 1 {
            assert(o[j] == p[j]);
            assert(o[j].height < o[n - 1].height);
        }
        let g = p[n - 1].height;
        assert(either_lands_at(a, b, g));
        let k = choose|k: int| 0 <= k < o.len() && (#[trigger] o[k]).height == g;
        if k < n - 1 {
            assert(o[k] == p[k]);
            assert(p[k].height < p[n - 1].height);
        }
        if n - 1 < j {
            assert(p[n - 1].height < p[j].height);
        }
        if n - 1 < k {
            assert(o[n - 1].height < o[k].height);
        }
        assert(o[n - 1].height == p[n - 1].height);
    }
}

/// Who won the blocks: a side wins a block it landed in and the other did not.
#[derive(Clone, Copy, Debug, PartialEq, Eq, Structural)]
pub struct DuelTally {
    /// Blocks in the sample.
    pub blocks: usize,
    /// Blocks only side A landed in.
    pub a_wins: u64,
    /// Blocks only side B landed in.
    pub b_wins: u64,
    /// Blocks both sides landed in.
    pub shared: u64,
    /// Of the shared blocks, how many side A was ordered first in.
    pub a_first: u64,
    /// Of the shared blocks, how many side B was ordered first in.
    pub b_first: u64,
}

impl Default for DuelTally {
    fn default() -> (t: Self)
        ensures
            t == (DuelTally {
                blocks: 0,
                a_wins: 0,
                b_wins: 0,
                shared: 0,
                a_first: 0,
                b_first: 0,
            }),
    {
        DuelTally { blocks: 0, a_wins: 0, b_wins: 0, shared: 0, a_first: 0, b_first: 0 }
    }
}

/// Only side A landed.
pub open spec fn a_alone() -> spec_fn(BlockOutcome) -> bool {
    |o: BlockOutcome| o.a > 0 && o.b == 0
}

/// Only side B landed.
pub open spec fn b_alone() -> spec_fn(BlockOutcome) -> bool {
    |o: BlockOutcome| o.a == 0 && o.b > 0
}

/// Both sides landed.
pub open spec fn both() -> spec_fn(BlockOutcome) -> bool {
    |o: BlockOutcome| o.a > 0 && o.b > 0
}

/// Both sides landed, this one first.
pub open spec fn both_led_by(side: DuelSide) -> spec_fn(BlockOutcome) -> bool {
    |o: BlockOutcome| o.a > 0 && o.b > 0 && o.first == Some(side)
}

/// The tally of a block record.
pub open spec fn tally_of(o: Seq<BlockOutcome>) -> DuelTally {
    DuelTally {
        blocks: o.len() as usize,
        a_wins: o.filter(a_alone()).len() as u64,
        b_wins: o.filter(b_alone()).len() as u64,
        shared: o.filter(both()).len() as u64,
        a_first: o.filter(both_led_by(DuelSide::A)).len() as u64,
        b_first: o.filter(both_led_by(DuelSide::B)).len() as u64,
    }
}

/// Count the per-block wins, and, where the block bodies gave an ordering, which side
/// was scheduled first inside the blocks they shared.
pub fn tally_blocks(outcomes: &[BlockOutcome]) -> (t: DuelTally)
    ensures
        t == tally_of(outcomes@),
{
    let n: usize = outcomes.len();
    let mut t = DuelTally {
        blocks: n,
        a_wins: 0,
        b_wins: 0,
        shared: 0,
        a_first: 0,
        b_first: 0,
    };
    let ghost s = outcomes@;
    let mut i: usize = 0;
    proof {
        reveal(Seq::filter);
    }
    while i < n
        invariant
            n == outcomes@.len(),
            s == outcomes@,
            i <= n,
            t.blocks == n,
            t.a_wins == s.take(i as int).filter(a_alone()).len(),
            t.b_wins == s.take(i as int).filter(b_alone()).len(),
            t.shared == s.take(i as int).filter(both()).len(),
            t.a_first == s.take(i as int).filter(both_led_by(DuelSide::A)).len(),
            t.b_first == s.take(i as int).filter(both_led_by(DuelSide::B)).len(),
            t.a_wins <= i,
            t.b_wins <= i,
            t.shared <= i,
            t.a_first <= i,
            t.b_first <= i,
        decreases n - i,
    {
        proof {
            reveal(Seq::filter);
            assert(s.take(i + 1).drop_last() =~= s.take(i as int));
            assert(s.take(i + 1).last() == s[i as int]);
        }
        let o: BlockOutcome = outcomes[i];
        if o.a > 0 && o.b == 0 {
            t.a_wins = t.a_wins + 1;
        } else if o.a == 0 && o.b > 0 {
            t.b_wins = t.b_wins + 1;
        } else if o.a > 0 && o.b > 0 {
            t.shared = t.shared + 1;
            match o.first {
                Some(DuelSide::A) => {
                    t.a_first = t.a_first + 1;
                },
                Some(DuelSide::B) => {
                    t.b_first = t.b_first + 1;
                },
                None => {},
            }
        }
        i = i + 1;
    }
    assert(s.take(i as int) =~= s);
    t
}

/// Every block of a record is won by one side or shared, and at most the shared ones
/// have a first.
pub proof fn law_every_block_is_won_or_shared(
    o: Seq<BlockOutcome>,
)
    requires
        o.len() <= usize::MAX,
        forall|i: int| 0 <= i < o.len() ==> (#[trigger] o[i]).a > 0 || o[i].b > 0,
    ensures
        tally_of(o).a_wins + tally_of(o).b_wins + tally_of(o).shared == tally_of(o).blocks,
        tally_of(o).a_first + tally_of(o).b_first <= tally_of(o).shared,
{
    lemma_tally_adds_up(o);
}

proof fn lemma_tally_adds_up(o: Seq<BlockOutcome>)
    requires
        forall|i: int| 0 <= i < o.len() ==> (#[trigger] o[i]).a > 0 || o[i].b > 0,
    ensures
        o.filter(a_alone()).len() + o.filter(b_alone()).len() + o.filter(both()).len() == o.len(),
        o.filter(both_led_by(DuelSide::A)).len() + o.filter(both_led_by(DuelSide::B)).len()
            <= o.filter(both()).len(),
    decreases o.len(),
{
    reveal(Seq::filter);
    if o.len() > 0 {
        assert forall|i: int| 0 <= i < o.drop_last().len() implies (
        #[trigger] o.drop_last()[i]).a > 0 || o.drop_last()[i].b > 0 by {
            assert(o.drop_last()[i] == o[i]);
        }
        lemma_tally_adds_up(o.drop_last());
        assert(o[o.len() - 1].a > 0 || o[o.len() - 1].b > 0);
    }
}

/// No row of a record is empty: it stands for a block that a side landed in.
pub proof fn law_no_row_is_invented(o: Seq<BlockOutcome>, a: Seq<Position>, b: Seq<Position>, i: int)
    requires
        is_block_record(o, a, b),
        a.len() <= u64::MAX,
        b.len() <= u64::MAX,
        0 <= i < o.len(),
    ensures
        o[i].a > 0 || o[i].b > 0,
{
    lemma_hits(a, o[i].height);
    lemma_hits(b, o[i].height);
}

/// What the measurement says so far. The wording is the payload: each variant carries a
/// sentence built from the real numbers.
#[derive(Clone, Debug, PartialEq, Eq)]
pub enum Verdict {
    /// Not enough landed yet to claim anything.
    Inconclusive(String),
    /// The higher bid measurably landed sooner, or more often.
    HigherBid(String),
    /// Both sides measured the same, within the noise floor.
    NoDifference(String),
    /// The measurement went the other way: reported as found.
    Contrary(String),
}

/// A verdict without its sentence.
pub enum Finding {
    Inconclusive,
    HigherBid,
    NoDifference,
    Contrary,
}

impl Verdict {
    /// The sentence.
    pub open spec fn sentence(&self) -> Seq<char> {
        match self {
            Verdict::Inconclusive(s) => s@,
            Verdict::HigherBid(s) => s@,
            Verdict::NoDifference(s) => s@,
            Verdict::Contrary(s) => s@,
        }
    }

    /// What was found.
    pub open spec fn finding(&self) -> Finding {
        match self {
            Verdict::Inconclusive(_) => Finding::Inconclusive,
            Verdict::HigherBid(_) => Finding::HigherBid,
            Verdict::NoDifference(_) => Finding::NoDifference,
            Verdict::Contrary(_) => Finding::Contrary,
        }
    }

    /// The sentence.
    pub fn text(&self) -> (s: &str)
        ensures
            s@ == self.sentence(),
    {
        match self {
            Verdict::Inconclusive(s) => s.as_str(),
            Verdict::HigherBid(s) => s.as_str(),
            Verdict::NoDifference(s) => s.as_str(),
            Verdict::Contrary(s) => s.as_str(),
        }
    }

    /// A headline for the panel.
    pub fn word(&self) -> (s: &'static str)
        ensures
            s@ == match self.finding() {
                Finding::Inconclusive => "INCONCLUSIVE"@,
                Finding::HigherBid => "HIGHER BID WINS"@,
                Finding::NoDifference => "NO DIFFERENCE"@,
                Finding::Contrary => "CONTRARY"@,
            },
    {
        match self {
            Verdict::Inconclusive(_) => "INCONCLUSIVE",
            Verdict::HigherBid(_) => "HIGHER BID WINS",
            Verdict::NoDifference(_) => "NO DIFFERENCE",
            Verdict::Contrary(_) => "CONTRARY",
        }
    }
}

/// One mean lies at least half a block below another.
pub open spec fn half_a_block_sooner(a: Mean, b: Mean) -> bool {
    2 * (b.sum * a.count - a.sum * b.count) >= a.count * b.count
}

/// Whether one mean wait lies at least half a block below another.
fn sooner_by_half(a: Mean, b: Mean) -> (r: bool)
    requires
        a.count > 0,
        b.count > 0,
    ensures
        r == half_a_block_sooner(a, b),
{
    let (sum, n): (u128, u64) = (a.sum, a.count);
    let (other, m): (u128, u64) = (b.sum, b.count);
    let (wn, wm): (u128, u128) = (n as u128, m as u128);
    let (q, rem): (u128, u128) = (sum / wn, sum % wn);
    let (p, rest): (u128, u128) = (other / wm, other % wm);
    proof {
        vstd::arithmetic::div_mod::lemma_fundamental_div_mod(sum as int, n as int);
        vstd::arithmetic::div_mod::lemma_fundamental_div_mod(other as int, m as int);
        let gap = p - q;
        let whole = n * m;
        assert(other * n - sum * m == gap * whole + rest * n - rem * m) by (nonlinear_arith)
            requires
                sum == n * q + rem,
                other == m * p + rest,
                gap == p - q,
                whole == n * m,
        ;
        assert(0 <= rest * n < whole) by (nonlinear_arith)
            requires
                0 <= rest < m,
                n > 0,
                whole == n * m,
        ;
        assert(0 <= rem * m < whole) by (nonlinear_arith)
            requires
                0 <= rem < n,
                m > 0,
                whole == n * m,
        ;
        assert(gap >= 2 ==> gap * whole >= 2 * whole) by (nonlinear_arith)
            requires
                whole > 0,
        ;
        assert(gap < 0 ==> gap * whole <= -whole) by (nonlinear_arith)
            requires
                whole > 0,
        ;
        assert(gap == 1 ==> gap * whole == whole) by (nonlinear_arith);
        assert(gap == 0 ==> gap * whole == 0) by (nonlinear_arith);
        assert(whole <= u64::MAX * u64::MAX) by (nonlinear_arith)
            requires
                whole == n * m,
        ;
        assert(u64::MAX * u64::MAX < u128::MAX) by (nonlinear_arith);
    }
    if p < q {
        return false;
    }
    let gap: u128 = p - q;
    if gap >= 2 {
        return true;
    }
    let whole: u128 = wn * wm;
    let x: u128 = rest * wn;
    let y: u128 = rem * wm;
    if gap == 1 {
        y <= x || y - x <= whole - (y - x)
    } else {
        x >= y && x - y >= whole - (x - y)
    }
}

/// The landings of both sides, held at the largest count.
pub open spec fn landings_of(a: DuelStats, b: DuelStats) -> u64 {
    if a.landed + b.landed > u64::MAX {
        u64::MAX
    } else {
        (a.landed + b.landed) as u64
    }
}

/// What two sides' numbers say: nothing on a thin sample; the side that lands when the
/// other does not; else the side that waited at least half a block less.
pub open spec fn found(a: DuelStats, b: DuelStats) -> Finding {
    if landings_of(a, b) < DUEL_MIN_LANDED {
        Finding::Inconclusive
    } else {
        match (a.mean_blocks, b.mean_blocks) {
            (Some(am), Some(bm)) => if half_a_block_sooner(am, bm) {
                Finding::HigherBid
            } else if half_a_block_sooner(bm, am) {
                Finding::Contrary
            } else {
                Finding::NoDifference
            },
            (Some(_), None) => Finding::HigherBid,
            (None, Some(_)) => Finding::Contrary,
            (None, None) => Finding::Inconclusive,
        }
    }
}

/// The means as the display rounds them.
#[derive(Debug)]
pub struct WaitFigures {
    /// Side A's mean wait in blocks.
    pub a_blocks: String,
    /// Side A's mean wait in seconds.
    pub a_secs: String,
    /// Side B's mean wait in blocks.
    pub b_blocks: String,
    /// Side B's mean wait in seconds.
    pub b_secs: String,
    /// How far apart the two means are, in blocks.
    pub gap: String,
}

/// The blocks won, in words.
pub open spec fn blocks_text(t: DuelTally) -> Seq<char> {
    "blocks won A "@ + text::decimal(t.a_wins as nat) + " · B "@ + text::decimal(t.b_wins as nat)
        + " · shared "@ + text::decimal(t.shared as nat)
}

/// The ordering inside shared blocks, where any was observed.
pub open spec fn order_text(t: DuelTally) -> Seq<char> {
    if t.shared > 0 && (t.a_first > 0 || t.b_first > 0) {
        "; of "@ + text::decimal(t.shared as nat) + " shared blocks the miner ordered A first in "@
            + text::decimal(t.a_first as nat) + " and B first in "@ + text::decimal(
            t.b_first as nat,
        )
    } else {
        Seq::empty()
    }
}

/// Both sides' waits, in words.
pub open spec fn core_text(
    a: DuelStats,
    b: DuelStats,
    t: DuelTally,
    f: WaitFigures,
) -> Seq<char> {
    "over "@ + text::decimal(landings_of(a, b) as nat) + " landings A waited "@ + f.a_blocks@
        + " blocks ("@ + f.a_secs@ + " s) on average and B waited "@ + f.b_blocks@ + " blocks ("@
        + f.b_secs@ + " s) — "@ + blocks_text(t) + order_text(t)
}

/// A one-sided landing, in words.
pub open spec fn alone_text(
    landed: u64,
    blocks: Seq<char>,
    secs: Seq<char>,
    between: Seq<char>,
    pooled: u64,
    t: DuelTally,
) -> Seq<char> {
    text::decimal(landed as nat) + " in "@ + blocks + " blocks ("@ + secs + between
        + text::decimal(pooled as nat) + " still pooled — "@ + blocks_text(t)
}

/// The sentence of a verdict.
pub open spec fn verdict_text(
    a: DuelStats,
    b: DuelStats,
    t: DuelTally,
    f: WaitFigures,
) -> Seq<char> {
    match found(a, b) {
        Finding::Inconclusive => if landings_of(a, b) >= DUEL_MIN_LANDED {
            "inconclusive — nothing has landed on either side yet"@
        } else {
            "inconclusive so far — "@ + text::decimal(landings_of(a, b) as nat) + " of the "@ + text::decimal(DUEL_MIN_LANDED as nat)
                + " landings needed before the numbers mean anything (A landed "@
                + text::decimal(a.landed as nat) + ", B landed "@ + text::decimal(b.landed as nat)
                + "; A has "@ + text::decimal(a.pooled as nat) + " pooled, B "@ + text::decimal(
                b.pooled as nat,
            ) + ")"@
        },
        Finding::HigherBid => if b.mean_blocks is Some {
            "the higher bid landed sooner by "@ + f.gap@ + " blocks: "@ + core_text(a, b, t, f)
        } else {
            "only the higher bid is landing: A landed "@ + alone_text(
                a.landed,
                f.a_blocks@,
                f.a_secs@,
                " s) on average while B landed none and has "@,
                b.pooled,
                t,
            )
        },
        Finding::Contrary => if a.mean_blocks is Some {
            "the LOWER bid landed sooner by "@ + f.gap@
                + " blocks — the higher bid did not win this sample: "@ + core_text(a, b, t, f)
        } else {
            "only the LOWER bid is landing: B landed "@ + alone_text(
                b.landed,
                f.b_blocks@,
                f.b_secs@,
                " s) on average while A landed none and has "@,
                a.pooled,
                t,
            )
        },
        Finding::NoDifference => "no measurable difference in wait ("@ + f.gap@
            + " blocks apart, under the 0.5 block noise floor): "@ + core_text(a, b, t, f),
    }
}

fn blocks_sentence(t: &DuelTally) -> (s: String)
    ensures
        s@ == blocks_text(*t),
{
    let mut s = owned("blocks won A ");
    push_decimal(&mut s, t.a_wins as u128);
    s.append(" · B ");
    push_decimal(&mut s, t.b_wins as u128);
    s.append(" · shared ");
    push_decimal(&mut s, t.shared as u128);
    s
}

fn order_sentence(t: &DuelTally) -> (s: String)
    ensures
        s@ == order_text(*t),
{
    if t.shared > 0 && (t.a_first > 0 || t.b_first > 0) {
        let mut s = owned("; of ");
        push_decimal(&mut s, t.shared as u128);
        s.append(" shared blocks the miner ordered A first in ");
        push_decimal(&mut s, t.a_first as u128);
        s.append(" and B first in ");
        push_decimal(&mut s, t.b_first as u128);
        s
    } else {
        String::new()
    }
}

fn core_sentence(a: &DuelStats, b: &DuelStats, t: &DuelTally, f: &WaitFigures) -> (s: String)
    ensures
        s@ == core_text(*a, *b, *t, *f),
{
    let mut s = owned("over ");
    push_decimal(&mut s, a.landed.saturating_add(b.landed) as u128);
    s.append(" landings A waited ");
    s.append(f.a_blocks.as_str());
    s.append(" blocks (");
    s.append(f.a_secs.as_str());
    s.append(" s) on average and B waited ");
    s.append(f.b_blocks.as_str());
    s.append(" blocks (");
    s.append(f.b_secs.as_str());
    s.append(" s) — ");
    s.append(blocks_sentence(t).as_str());
    s.append(order_sentence(t).as_str());
    s
}

fn alone_sentence(
    landed: u64,
    blocks: &String,
    secs: &String,
    between: &str,
    pooled: u64,
    t: &DuelTally,
) -> (s: String)
    ensures
        s@ == alone_text(landed, blocks@, secs@, between@, pooled, *t),
{
    let mut s = text::decimal_string(landed as u128);
    s.append(" in ");
    s.append(blocks.as_str());
    s.append(" blocks (");
    s.append(secs.as_str());
    s.append(between);
    push_decimal(&mut s, pooled as u128);
    s.append(" still pooled — ");
    s.append(blocks_sentence(t).as_str());
    s
}

/// The running verdict, computed from the two sides' measured numbers.
///
/// The rules are deliberately conservative, because the honest answer on a lightly
/// loaded chain is often that there is no difference: fewer than [`DUEL_MIN_LANDED`]
/// landings in total say nothing; one side landing and the other not is an outright
/// win; otherwise the mean waits are compared, and a difference counts from half a
/// block on. Nothing here asserts a mechanism, only what was measured. The figures are
/// the means as the display rounds them; no rule reads them.
pub fn duel_verdict(a: &DuelStats, b: &DuelStats, t: &DuelTally, figures: &WaitFigures) -> (v:
    Verdict)
    requires
        a.wf(),
        b.wf(),
    ensures
        v.finding() == found(*a, *b),
        v.sentence() == verdict_text(*a, *b, *t, *figures),
        v is Inconclusive <==> a.landed + b.landed < DUEL_MIN_LANDED || (a.mean_blocks is None
            && b.mean_blocks is None),
        a.landed + b.landed >= DUEL_MIN_LANDED && a.mean_blocks is Some && b.mean_blocks is Some
            ==> {
            let (x, n) = (a.mean_blocks->0.sum, a.mean_blocks->0.count);
            let (y, m) = (b.mean_blocks->0.sum, b.mean_blocks->0.count);
            &&& v is HigherBid <==> 2 * (y * n) - 2 * (x * m) >= n * m
            &&& v is Contrary <==> 2 * (x * m) - 2 * (y * n) >= n * m
        },
{
    proof {
        if a.landed + b.landed >= DUEL_MIN_LANDED {
            law_enough_landings_decide(*a, *b);
        }
    }
    let total: u64 = a.landed.saturating_add(b.landed);
    if total < DUEL_MIN_LANDED {
        let mut s = owned("inconclusive so far — ");
        push_decimal(&mut s, total as u128);
        s.append(" of the ");
        push_decimal(&mut s, DUEL_MIN_LANDED as u128);
        s.append(" landings needed before the numbers mean anything (A landed ");
        push_decimal(&mut s, a.landed as u128);
        s.append(", B landed ");
        push_decimal(&mut s, b.landed as u128);
        s.append("; A has ");
        push_decimal(&mut s, a.pooled as u128);
        s.append(" pooled, B ");
        push_decimal(&mut s, b.pooled as u128);
        s.append(")");
        return Verdict::Inconclusive(s);
    }
    if let (Some(am), Some(bm)) = (a.mean_blocks, b.mean_blocks) {
        let core = core_sentence(a, b, t, figures);
        if sooner_by_half(am, bm) {
            let mut s = owned("the higher bid landed sooner by ");
            s.append(figures.gap.as_str());
            s.append(" blocks: ");
            s.append(core.as_str());
            Verdict::HigherBid(s)
        } else if sooner_by_half(bm, am) {
            let mut s = owned("the LOWER bid landed sooner by ");
            s.append(figures.gap.as_str());
            s.append(" blocks — the higher bid did not win this sample: ");
            s.append(core.as_str());
            Verdict::Contrary(s)
        } else {
            let mut s = owned("no measurable difference in wait (");
            s.append(figures.gap.as_str());
            s.append(" blocks apart, under the 0.5 block noise floor): ");
            s.append(core.as_str());
            Verdict::NoDifference(s)
        }
    } else if a.mean_blocks.is_some() {
        let mut s = owned("only the higher bid is landing: A landed ");
        s.append(
            alone_sentence(
                a.landed,
                &figures.a_blocks,
                &figures.a_secs,
                " s) on average while B landed none and has ",
                b.pooled,
                t,
            ).as_str(),
        );
        Verdict::HigherBid(s)
    } else if b.mean_blocks.is_some() {
        let mut s = owned("only the LOWER bid is landing: B landed ");
        s.append(
            alone_sentence(
                b.landed,
                &figures.b_blocks,
                &figures.b_secs,
                " s) on average while A landed none and has ",
                a.pooled,
                t,
            ).as_str(),
        );
        Verdict::Contrary(s)
    } else {
        Verdict::Inconclusive(owned("inconclusive — nothing has landed on either side yet"))
    }
}

/// A thin sample claims nothing, however lopsided.
pub proof fn law_a_thin_sample_claims_nothing(a: DuelStats, b: DuelStats)
    requires
        a.landed + b.landed < DUEL_MIN_LANDED,
    ensures
        found(a, b) is Inconclusive,
{
}

/// The verdict is impartial: with the sides exchanged, a win of one is the win of the
/// other, and a tie stays a tie.
pub proof fn law_the_verdict_is_impartial(a: DuelStats, b: DuelStats)
    requires
        a.wf(),
        b.wf(),
    ensures
        found(a, b) is HigherBid <==> found(b, a) is Contrary,
        found(a, b) is NoDifference <==> found(b, a) is NoDifference,
        found(a, b) is Inconclusive <==> found(b, a) is Inconclusive,
{
    if let (Some(am), Some(bm)) = (a.mean_blocks, b.mean_blocks) {
        let (n, m) = (am.count, bm.count);
        assert(n * m > 0) by (nonlinear_arith)
            requires
                n > 0,
                m > 0,
        ;
        assert(n * m == m * n) by (nonlinear_arith);
    }
}

/// Once enough has landed on the two sides together, however it is shared between them, the
/// means decide, and half a block is what counts: with both known, the higher bid wins where
/// B's mean wait less A's is at least that, the lower where A's less B's is, and they are
/// even otherwise. A side that lands alone wins outright. Only where neither has a mean is
/// nothing found.
pub proof fn law_enough_landings_decide(a: DuelStats, b: DuelStats)
    requires
        a.wf(),
        b.wf(),
        a.landed + b.landed >= DUEL_MIN_LANDED,
    ensures
        found(a, b) is Inconclusive <==> a.mean_blocks is None && b.mean_blocks is None,
        a.mean_blocks is Some && b.mean_blocks is None ==> found(a, b) is HigherBid,
        a.mean_blocks is None && b.mean_blocks is Some ==> found(a, b) is Contrary,
        a.mean_blocks is Some && b.mean_blocks is Some ==> {
            let (x, n) = (a.mean_blocks->0.sum, a.mean_blocks->0.count);
            let (y, m) = (b.mean_blocks->0.sum, b.mean_blocks->0.count);
            &&& found(a, b) is HigherBid <==> 2 * (y * n) - 2 * (x * m) >= n * m
            &&& found(a, b) is Contrary <==> 2 * (x * m) - 2 * (y * n) >= n * m
            &&& found(a, b) is NoDifference <==> -(n * m) < 2 * (y * n) - 2 * (x * m) < n * m
        },
{
    if let (Some(am), Some(bm)) = (a.mean_blocks, b.mean_blocks) {
        let (n, m) = (am.count, bm.count);
        assert(n * m > 0 && n * m == m * n) by (nonlinear_arith)
            requires
                n > 0,
                m > 0,
        ;
    }
}

/// Waits of whole blocks compare as one would count: with every one of A's waits the same
/// and every one of B's the same, the higher bid wins exactly where A's is the shorter.
#[verifier::spinoff_prover]
pub proof fn law_steady_waits_compare_as_they_are(a: DuelStats, b: DuelStats, p: nat, q: nat)
    requires
        a.wf(),
        b.wf(),
        a.landed + b.landed >= DUEL_MIN_LANDED,
        a.mean_blocks matches Some(m) && m.sum == p * m.count,
        b.mean_blocks matches Some(m) && m.sum == q * m.count,
    ensures
        found(a, b) is HigherBid <==> p < q,
        found(a, b) is Contrary <==> q < p,
        found(a, b) is NoDifference <==> p == q,
{
    law_enough_landings_decide(a, b);
    let (x, n) = (a.mean_blocks->0.sum, a.mean_blocks->0.count);
    let (y, m) = (b.mean_blocks->0.sum, b.mean_blocks->0.count);
    let whole = n * m;
    let (pw, qw) = (p * whole, q * whole);
    assert(x * m == pw) by (nonlinear_arith)
        requires
            x == p * n,
            pw == p * whole,
            whole == n * m,
    ;
    assert(y * n == qw) by (nonlinear_arith)
        requires
            y == q * m,
            qw == q * whole,
            whole == n * m,
    ;
    assert(whole > 0) by (nonlinear_arith)
        requires
            whole == n * m,
            n > 0,
            m > 0,
    ;
    if p < q {
        assert(qw >= pw + whole) by (nonlinear_arith)
            requires
                pw == p * whole,
                qw == q * whole,
                whole > 0,
                p + 1 <= q,
        ;
    } else if q < p {
        assert(pw >= qw + whole) by (nonlinear_arith)
            requires
                pw == p * whole,
                qw == q * whole,
                whole > 0,
                q + 1 <= p,
        ;
    }
}

proof fn lemma_hits_are_counted(side: Seq<Position>, h: u64)
    ensures
        hits_at(side, h) == side.filter(|p: Position| p.0 == h).len(),
    decreases side.len(),
{
    reveal(Seq::filter);
    if side.len() > 0 {
        lemma_hits_are_counted(side.drop_last(), h);
    }
}

/// This landing of a side is at a height and has the earliest known index there.
pub open spec fn leads_at(side: Seq<Position>, h: u64, i: int) -> bool {
    &&& 0 <= i < side.len()
    &&& side[i].0 == h
    &&& side[i].1 is Some
    &&& forall|j: int|
        0 <= j < side.len() && (#[trigger] side[j]).0 == h && side[j].1 is Some ==> side[i].1->0
            <= side[j].1->0
}

proof fn lemma_earliest(side: Seq<Position>, h: u64)
    ensures
        match earliest_at(side, h) {
            Some(x) => exists|i: int| #[trigger] leads_at(side, h, i) && side[i].1 == Some(x),
            None => forall|j: int|
                0 <= j < side.len() && (#[trigger] side[j]).0 == h ==> side[j].1 is None,
        },
    decreases side.len(),
{
    if side.len() > 0 {
        let d = side.drop_last();
        let n = side.len() - 1;
        lemma_earliest(d, h);
        assert(forall|j: int| 0 <= j < n ==> d[j] == side[j]);
        match earliest_at(d, h) {
            Some(x) => {
                let i = choose|i: int| #[trigger] leads_at(d, h, i) && d[i].1 == Some(x);
                assert(d[i] == side[i]);
                if side[n].0 == h && side[n].1 is Some && side[n].1->0 < x {
                    assert forall|j: int|
                        0 <= j < side.len() && (#[trigger] side[j]).0 == h
                            && side[j].1 is Some implies side[n].1->0 <= side[j].1->0 by {
                        if j < n {
                            assert(d[j] == side[j]);
                        }
                    }
                    assert(leads_at(side, h, n));
                } else {
                    assert forall|j: int|
                        0 <= j < side.len() && (#[trigger] side[j]).0 == h
                            && side[j].1 is Some implies side[i].1->0 <= side[j].1->0 by {
                        if j < n {
                            assert(d[j] == side[j]);
                        }
                    }
                    assert(leads_at(side, h, i));
                }
            },
            None => {
                assert forall|j: int| 0 <= j < n && (#[trigger] side[j]).0 == h implies side[j].1
                    is None by {
                    assert(d[j] == side[j]);
                }
                if side[n].0 == h && side[n].1 is Some {
                    assert(leads_at(side, h, n));
                }
            },
        }
    }
}

/// A row counts each side's landings in its block, and names as first the side whose earliest
/// known index in it is the lower. It names none where a side has no known index, or where
/// the two are the same.
pub proof fn law_a_row_counts_its_block(
    a: Seq<Position>,
    b: Seq<Position>,
    h: u64,
    i: int,
    j: int,
)
    requires
        a.len() <= u64::MAX,
        b.len() <= u64::MAX,
    ensures
        ({
            let o = outcome_at(a, b, h);
            &&& o.height == h
            &&& o.a == a.filter(|p: Position| p.0 == h).len()
            &&& o.b == b.filter(|p: Position| p.0 == h).len()
            &&& leads_at(a, h, i) && leads_at(b, h, j) ==> {
                &&& o.first == Some(DuelSide::A) <==> a[i].1->0 < b[j].1->0
                &&& o.first == Some(DuelSide::B) <==> b[j].1->0 < a[i].1->0
                &&& o.first is None <==> a[i].1->0 == b[j].1->0
            }
            &&& (forall|k: int| 0 <= k < a.len() && (#[trigger] a[k]).0 == h ==> a[k].1 is None)
                ==> o.first is None
            &&& (forall|k: int| 0 <= k < b.len() && (#[trigger] b[k]).0 == h ==> b[k].1 is None)
                ==> o.first is None
        }),
{
    lemma_hits(a, h);
    lemma_hits(b, h);
    lemma_hits_are_counted(a, h);
    lemma_hits_are_counted(b, h);
    lemma_earliest(a, h);
    lemma_earliest(b, h);
    if earliest_at(a, h) is Some {
        let x = choose|x: int| #[trigger] leads_at(a, h, x) && a[x].1 == earliest_at(a, h);
        assert(a[x].0 == h && a[x].1 is Some);
        if leads_at(a, h, i) {
            assert(a[x].1->0 <= a[i].1->0 && a[i].1->0 <= a[x].1->0);
        }
    }
    if earliest_at(b, h) is Some {
        let y = choose|y: int| #[trigger] leads_at(b, h, y) && b[y].1 == earliest_at(b, h);
        assert(b[y].0 == h && b[y].1 is Some);
        if leads_at(b, h, j) {
            assert(b[y].1->0 <= b[j].1->0 && b[j].1->0 <= b[y].1->0);
        }
    }
}

/// The record is complete and in order: every landing of either side is in a row of its
/// height, which counts it; the rows ascend.
pub proof fn law_every_landing_is_in_a_row(
    o: Seq<BlockOutcome>,
    a: Seq<Position>,
    b: Seq<Position>,
    i: int,
    x: int,
    y: int,
)
    requires
        is_block_record(o, a, b),
        a.len() <= u64::MAX,
        b.len() <= u64::MAX,
    ensures
        0 <= i < a.len() ==> exists|k: int|
            0 <= k < o.len() && (#[trigger] o[k]).height == a[i].0 && o[k].a > 0,
        0 <= i < b.len() ==> exists|k: int|
            0 <= k < o.len() && (#[trigger] o[k]).height == b[i].0 && o[k].b > 0,
        0 <= x < y < o.len() ==> o[x].height < o[y].height,
{
    if 0 <= i < a.len() {
        let h = a[i].0;
        assert(lands_at(a, h));
        assert(either_lands_at(a, b, h));
        assert(has_row(o, h));
        lemma_hits(a, h);
        let k = choose|k: int| 0 <= k < o.len() && (#[trigger] o[k]).height == h;
        assert(o[k] == outcome_at(a, b, h));
    }
    if 0 <= i < b.len() {
        let h = b[i].0;
        assert(lands_at(b, h));
        assert(either_lands_at(a, b, h));
        assert(has_row(o, h));
        lemma_hits(b, h);
        let k = choose|k: int| 0 <= k < o.len() && (#[trigger] o[k]).height == h;
        assert(o[k] == outcome_at(a, b, h));
    }
}

/// A tally counts the rows: those where one side landed alone, those where both did, and of
/// these the ones where each was first.
pub proof fn law_a_tally_counts_the_rows(o: Seq<BlockOutcome>)
    requires
        o.len() <= usize::MAX,
    ensures
        tally_of(o).blocks == o.len(),
        tally_of(o).a_wins == o.filter(|r: BlockOutcome| r.a > 0 && r.b == 0).len(),
        tally_of(o).b_wins == o.filter(|r: BlockOutcome| r.b > 0 && r.a == 0).len(),
        tally_of(o).shared == o.filter(|r: BlockOutcome| r.a > 0 && r.b > 0).len(),
        tally_of(o).a_first == o.filter(
            |r: BlockOutcome| r.a > 0 && r.b > 0 && r.first == Some(DuelSide::A),
        ).len(),
        tally_of(o).b_first == o.filter(
            |r: BlockOutcome| r.a > 0 && r.b > 0 && r.first == Some(DuelSide::B),
        ).len(),
{
    assert(a_alone() =~= |r: BlockOutcome| r.a > 0 && r.b == 0);
    assert(b_alone() =~= |r: BlockOutcome| r.b > 0 && r.a == 0);
    assert(both() =~= |r: BlockOutcome| r.a > 0 && r.b > 0);
    assert(both_led_by(DuelSide::A) =~= |r: BlockOutcome|
        r.a > 0 && r.b > 0 && r.first == Some(DuelSide::A));
    assert(both_led_by(DuelSide::B) =~= |r: BlockOutcome|
        r.a > 0 && r.b > 0 && r.first == Some(DuelSide::B));
    lemma_filter_len(o, a_alone());
    lemma_filter_len(o, b_alone());
    lemma_filter_len(o, both());
    lemma_filter_len(o, both_led_by(DuelSide::A));
    lemma_filter_len(o, both_led_by(DuelSide::B));
}

proof fn lemma_filter_len(o: Seq<BlockOutcome>, p: spec_fn(BlockOutcome) -> bool)
    ensures
        o.filter(p).len() <= o.len(),
    decreases o.len(),
{
    reveal(Seq::filter);
    if o.len() > 0 {
        lemma_filter_len(o.drop_last(), p);
    }
}

/// A sentence gives the figures it rests on, each side's under its own letter: how many have
/// landed and how many are needed, what is still pooled, the means as they are shown, and the
/// blocks won and shared.
pub proof fn law_a_sentence_gives_its_figures(
    a: DuelStats,
    b: DuelStats,
    t: DuelTally,
    f: WaitFigures,
)
    requires
        a.landed + b.landed <= u64::MAX,
        t.a_first == 0,
        t.b_first == 0,
    ensures
        ({
            let won = "blocks won A "@ + text::decimal(t.a_wins as nat) + " · B "@ + text::decimal(
                t.b_wins as nat,
            ) + " · shared "@ + text::decimal(t.shared as nat);
            let waits = "over "@ + text::decimal((a.landed + b.landed) as nat)
                + " landings A waited "@ + f.a_blocks@ + " blocks ("@ + f.a_secs@
                + " s) on average and B waited "@ + f.b_blocks@ + " blocks ("@ + f.b_secs@
                + " s) — "@ + won;
            let s = verdict_text(a, b, t, f);
            &&& a.landed + b.landed < DUEL_MIN_LANDED ==> s == "inconclusive so far — "@
                + text::decimal((a.landed + b.landed) as nat) + " of the "@ + text::decimal(
                DUEL_MIN_LANDED as nat,
            ) + " landings needed before the numbers mean anything (A landed "@ + text::decimal(
                a.landed as nat,
            ) + ", B landed "@ + text::decimal(b.landed as nat) + "; A has "@ + text::decimal(
                a.pooled as nat,
            ) + " pooled, B "@ + text::decimal(b.pooled as nat) + ")"@
            &&& found(a, b) is HigherBid && b.mean_blocks is Some ==> s
                == "the higher bid landed sooner by "@ + f.gap@ + " blocks: "@ + waits
            &&& found(a, b) is Contrary && a.mean_blocks is Some ==> s
                == "the LOWER bid landed sooner by "@ + f.gap@
                + " blocks — the higher bid did not win this sample: "@ + waits
            &&& found(a, b) is NoDifference ==> s == "no measurable difference in wait ("@ + f.gap@
                + " blocks apart, under the 0.5 block noise floor): "@ + waits
            &&& found(a, b) is HigherBid && b.mean_blocks is None ==> s
                == "only the higher bid is landing: A landed "@ + (text::decimal(a.landed as nat)
                + " in "@ + f.a_blocks@ + " blocks ("@ + f.a_secs@
                + " s) on average while B landed none and has "@ + text::decimal(b.pooled as nat)
                + " still pooled — "@ + won)
            &&& found(a, b) is Contrary && a.mean_blocks is None ==> s
                == "only the LOWER bid is landing: B landed "@ + (text::decimal(b.landed as nat)
                + " in "@ + f.b_blocks@ + " blocks ("@ + f.b_secs@
                + " s) on average while A landed none and has "@ + text::decimal(a.pooled as nat)
                + " still pooled — "@ + won)
        }),
{
    let head = "over "@ + text::decimal((a.landed + b.landed) as nat) + " landings A waited "@
        + f.a_blocks@ + " blocks ("@ + f.a_secs@ + " s) on average and B waited "@ + f.b_blocks@
        + " blocks ("@ + f.b_secs@ + " s) — "@ + blocks_text(t);
    assert(head + Seq::<char>::empty() =~= head);
}

/// What is said of the order inside shared blocks is which side led how many of them, and
/// nothing is said where no order was seen.
pub proof fn law_the_order_is_told_where_it_was_seen(t: DuelTally)
    ensures
        t.shared == 0 || (t.a_first == 0 && t.b_first == 0) ==> order_text(t).len() == 0,
        t.shared > 0 && (t.a_first > 0 || t.b_first > 0) ==> order_text(t) == "; of "@
            + text::decimal(t.shared as nat) + " shared blocks the miner ordered A first in "@
            + text::decimal(t.a_first as nat) + " and B first in "@ + text::decimal(
            t.b_first as nat,
        ),
{
}

} // verus!
