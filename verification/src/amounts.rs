//! How much to send and how much to bid.

use crate::rng;
use crate::rng::Rng;
use crate::text::owned;
use crate::xus;
use crate::xus::fmt_xus;
use vstd::prelude::*;

verus! {

/// How to size each transaction, in grains.
#[derive(Clone, Copy, Debug, PartialEq, Eq, Structural)]
pub enum AmountMode {
    /// Always send exactly this many grains.
    Fixed(u128),
    /// Draw uniformly from `[min, max]` (inclusive) grains.
    Range { min: u128, max: u128 },
}

/// A range a value can be drawn from: an ordered one.
pub open spec fn drawable(min: u128, max: u128) -> bool {
    min <= max
}

/// The value drawn from a range.
pub open spec fn drawn_between(state: u64, min: u128, max: u128) -> nat {
    min as nat + rng::drawn(state, (max - min + 1) as nat)
}

/// Draw a value from a range, both ends included. The whole width, whose size has no
/// representation, is drawn as it comes.
fn draw_between(rng: &mut Rng, min: u128, max: u128) -> (v: u128)
    requires
        drawable(min, max),
    ensures
        v == drawn_between(old(rng)@, min, max),
        min <= v <= max,
        final(rng)@ == rng::after_draw(old(rng)@),
        old(rng).wf() ==> final(rng).wf(),
{
    let span: u128 = max - min;
    if span < u128::MAX {
        min + rng.below(span + 1)
    } else {
        let v: u128 = rng.wide();
        assert(v as nat % 0x1_0000_0000_0000_0000_0000_0000_0000_0000nat == v);
        v
    }
}

impl AmountMode {
    /// The mode is well formed: a non-zero amount, or an ordered range that reaches
    /// above zero.
    pub open spec fn valid(&self) -> bool {
        match self {
            AmountMode::Fixed(v) => *v != 0,
            AmountMode::Range { min, max } => *min <= *max && *max != 0,
        }
    }

    /// Validate the mode's shape.
    pub fn validate(&self) -> (r: Result<(), String>)
        ensures
            r is Ok <==> self.valid(),
            r matches Err(e) ==> e@ == match self {
                AmountMode::Fixed(_) => "amount must be greater than zero"@,
                AmountMode::Range { min, max } => if *max < *min {
                    "amount max must be ≥ min"@
                } else {
                    "amount max must be greater than zero"@
                },
            },
    {
        match self {
            AmountMode::Fixed(v) => {
                if *v == 0 {
                    return Err(owned("amount must be greater than zero"));
                }
            },
            AmountMode::Range { min, max } => {
                if *max < *min {
                    return Err(owned("amount max must be ≥ min"));
                }
                if *max == 0 {
                    return Err(owned("amount max must be greater than zero"));
                }
            },
        }
        Ok(())
    }

    /// Pick a concrete amount. The generator is consulted only for a range.
    pub fn pick(&self, rng: &mut Rng) -> (v: u128)
        requires
            *self matches AmountMode::Range { min, max } ==> drawable(min, max),
        ensures
            match self {
                AmountMode::Fixed(a) => v == *a && final(rng)@ == old(rng)@,
                AmountMode::Range { min, max } => {
                    &&& v == drawn_between(old(rng)@, *min, *max)
                    &&& *min <= v <= *max
                    &&& final(rng)@ == rng::after_draw(old(rng)@)
                },
            },
            old(rng).wf() ==> final(rng).wf(),
    {
        match self {
            AmountMode::Fixed(v) => *v,
            AmountMode::Range { min, max } => draw_between(rng, *min, *max),
        }
    }

    /// The largest amount the mode can send.
    pub fn largest(&self) -> (v: u128)
        ensures
            v == self.spec_largest(),
    {
        match self {
            AmountMode::Fixed(v) => *v,
            AmountMode::Range { max, .. } => *max,
        }
    }

    /// The largest amount the mode can send.
    pub open spec fn spec_largest(&self) -> u128 {
        match self {
            AmountMode::Fixed(v) => *v,
            AmountMode::Range { max, .. } => *max,
        }
    }
}

/// How much priority tip, in grains, to attach to each transaction.
///
/// A tip is only ever applied when the node reports the auction as active; this type
/// only decides the bid.
#[derive(Clone, Copy, Debug, PartialEq, Eq, Structural)]
pub enum TipMode {
    /// No tip: a zero bid.
    Off,
    /// Always attach exactly this many grains as the tip.
    Fixed(u128),
    /// Draw the tip uniformly from `[min, max]` (inclusive) grains.
    Range { min: u128, max: u128 },
}

impl TipMode {
    /// Validate the mode's shape: a well-ordered range; any fixed value, including
    /// zero, is allowed.
    pub fn validate(&self) -> (r: Result<(), String>)
        ensures
            r is Ok <==> (*self matches TipMode::Range { min, max } ==> min <= max),
            r matches Err(e) ==> e@ == "tip max must be ≥ min"@,
    {
        match self {
            TipMode::Range { min, max } => {
                if *max < *min {
                    return Err(owned("tip max must be ≥ min"));
                }
                Ok(())
            },
            _ => Ok(()),
        }
    }

    /// Pick a concrete tip in grains. The generator is consulted only for a range.
    pub fn pick(&self, rng: &mut Rng) -> (v: u128)
        requires
            *self matches TipMode::Range { min, max } ==> drawable(min, max),
        ensures
            match self {
                TipMode::Off => v == 0 && final(rng)@ == old(rng)@,
                TipMode::Fixed(a) => v == *a && final(rng)@ == old(rng)@,
                TipMode::Range { min, max } => {
                    &&& v == drawn_between(old(rng)@, *min, *max)
                    &&& *min <= v <= *max
                    &&& final(rng)@ == rng::after_draw(old(rng)@)
                },
            },
            old(rng).wf() ==> final(rng).wf(),
    {
        match self {
            TipMode::Off => 0,
            TipMode::Fixed(v) => *v,
            TipMode::Range { min, max } => draw_between(rng, *min, *max),
        }
    }

    /// The largest tip the mode can bid.
    pub fn largest(&self) -> (v: u128)
        ensures
            v == self.spec_largest(),
    {
        match self {
            TipMode::Off => 0,
            TipMode::Fixed(v) => *v,
            TipMode::Range { max, .. } => *max,
        }
    }

    /// The largest tip the mode can bid.
    pub open spec fn spec_largest(&self) -> u128 {
        match self {
            TipMode::Off => 0,
            TipMode::Fixed(v) => *v,
            TipMode::Range { max, .. } => *max,
        }
    }
}

/// The suggested heartbeat tip, in grains: 0.0005 XUS, about 2.4 times the intrinsic
/// fee. On a chain that is nowhere near capacity any nonzero bid clears the floor
/// and orders ahead of all untipped traffic.
pub const SUGGESTED_TIP_GRAINS: u128 = 50_000;

/// Which tip the heartbeat bids: whether to exercise the blockspace auction at all.
#[derive(Clone, Copy, Debug, PartialEq, Eq, Structural)]
pub enum TipChoice {
    /// The suggested tip. The default.
    Auto,
    /// The operator's own fixed or range tip.
    Manual,
    /// No tip at all: the bare action.
    NoTip,
}

impl TipChoice {
    /// The words shown for this choice.
    pub fn label(self) -> (s: &'static str)
        ensures
            s@ == match self {
                TipChoice::Auto => "Auto tip"@,
                TipChoice::Manual => "Manual tip"@,
                TipChoice::NoTip => "No tip"@,
            },
    {
        match self {
            TipChoice::Auto => "Auto tip",
            TipChoice::Manual => "Manual tip",
            TipChoice::NoTip => "No tip",
        }
    }

    /// An honest one-line consequence of the choice.
    pub fn consequence(self) -> (s: &'static str)
        ensures
            s@ == match self {
                TipChoice::Auto =>
                    "Bids the suggested tip (0.0005 XUS) — exercises the blockspace auction and lands in the next block or two."@,
                TipChoice::Manual =>
                    "Bids exactly what you configure in section 3 — set it above, at or below the floor and watch what the auction does with it."@,
                TipChoice::NoTip =>
                    "Bare action, no Tipped envelope: the auction is NOT exercised. Under contention an untipped transaction can wait below the floor for a long time — submitted and landed are reported separately so waiting never looks like a fault."@,
            },
    {
        match self {
            TipChoice::Auto =>
                "Bids the suggested tip (0.0005 XUS) — exercises the blockspace auction and lands in the next block or two.",
            TipChoice::Manual =>
                "Bids exactly what you configure in section 3 — set it above, at or below the floor and watch what the auction does with it.",
            TipChoice::NoTip =>
                "Bare action, no Tipped envelope: the auction is NOT exercised. Under contention an untipped transaction can wait below the floor for a long time — submitted and landed are reported separately so waiting never looks like a fault.",
        }
    }
}

/// The bid a choice resolves to.
pub open spec fn resolved(choice: TipChoice, manual: TipMode) -> TipMode {
    match choice {
        TipChoice::Auto => TipMode::Fixed(SUGGESTED_TIP_GRAINS),
        TipChoice::Manual => manual,
        TipChoice::NoTip => TipMode::Off,
    }
}

/// Resolve the heartbeat's [`TipMode`] from the operator's three-way choice and the
/// manually configured tip. This is only the bid; whether it becomes an envelope is
/// decided against the node's live auction state.
pub fn heartbeat_tip_mode(choice: TipChoice, manual: TipMode) -> (m: TipMode)
    ensures
        m == resolved(choice, manual),
{
    match choice {
        TipChoice::Auto => TipMode::Fixed(SUGGESTED_TIP_GRAINS),
        TipChoice::Manual => manual,
        TipChoice::NoTip => TipMode::Off,
    }
}

/// Resolve both sides' bids of a duel through the same resolver the heartbeat uses.
pub fn duel_bids(a: (TipChoice, TipMode), b: (TipChoice, TipMode)) -> (r: (TipMode, TipMode))
    ensures
        r == (resolved(a.0, a.1), resolved(b.0, b.1)),
{
    (heartbeat_tip_mode(a.0, a.1), heartbeat_tip_mode(b.0, b.1))
}

/// A resolved bid in words.
pub open spec fn bid_text(m: TipMode) -> Seq<char> {
    match m {
        TipMode::Off => "no tip — bare action"@,
        TipMode::Fixed(v) => xus::display_text(v as nat) + " XUS"@,
        TipMode::Range { min, max } => xus::display_text(min as nat) + "–"@ + xus::display_text(
            max as nat,
        ) + " XUS"@,
    }
}

/// A resolved bid in words, for the side panels and the frozen run record.
pub fn duel_bid_label(m: TipMode) -> (s: String)
    ensures
        s@ == bid_text(m),
{
    match m {
        TipMode::Off => owned("no tip — bare action"),
        TipMode::Fixed(v) => {
            let mut s = fmt_xus(v);
            s.append(" XUS");
            s
        },
        TipMode::Range { min, max } => {
            let mut s = fmt_xus(min);
            s.append("–");
            s.append(fmt_xus(max).as_str());
            s.append(" XUS");
            s
        },
    }
}

/// The honest caveat when the two sides are not actually bidding differently: the
/// run is then a null experiment and cannot show what a higher bid buys.
pub fn duel_bid_note(a: TipMode, b: TipMode) -> (r: Option<&'static str>)
    ensures
        r is Some <==> a == b,
        r matches Some(s) ==> s@
            == "both sides are bidding the SAME — this is a null (control) run: it can show that two identical sides behave alike, not what a higher bid buys."@,
{
    if a == b {
        Some(
            "both sides are bidding the SAME — this is a null (control) run: it can show that two identical sides behave alike, not what a higher bid buys.",
        )
    } else {
        None
    }
}

/// Both ends of a range are in it, and what is drawn from it is the whole draw, reduced to
/// the range's width, above its lower end: every value of the range can come, and no other.
pub proof fn law_a_range_is_drawn_whole(state: u64, min: u128, max: u128)
    requires
        min <= max,
    ensures
        min <= drawn_between(state, min, max) <= max,
        drawn_between(state, min, max) - min == rng::wide_draw(state) % ((max - min + 1) as nat),
        min == max ==> drawn_between(state, min, max) == min,
{
    let n = (max - min + 1) as nat;
    assert(0 <= rng::wide_draw(state) % n < n);
}

/// A mode is refused exactly where it could only send nothing, or its range runs backwards;
/// and its largest amount is the largest that it sends.
pub proof fn law_the_largest_amount_bounds_every_pick(m: AmountMode, state: u64)
    ensures
        m matches AmountMode::Fixed(v) ==> (m.valid() <==> v > 0) && m.spec_largest() == v,
        m matches AmountMode::Range { min, max } ==> {
            &&& m.valid() <==> min <= max && max > 0
            &&& m.spec_largest() == max
            &&& min <= max ==> drawn_between(state, min, max) <= m.spec_largest()
        },
{
    if let AmountMode::Range { min, max } = m {
        if min <= max {
            law_a_range_is_drawn_whole(state, min, max);
        }
    }
}

/// The largest bid of a mode is the largest that it makes.
pub proof fn law_the_largest_tip_bounds_every_pick(m: TipMode, state: u64)
    ensures
        m is Off ==> m.spec_largest() == 0,
        m matches TipMode::Fixed(v) ==> m.spec_largest() == v,
        m matches TipMode::Range { min, max } ==> m.spec_largest() == max && (min <= max
            ==> drawn_between(state, min, max) <= max),
{
    if let TipMode::Range { min, max } = m {
        if min <= max {
            law_a_range_is_drawn_whole(state, min, max);
        }
    }
}

/// The operator's choice decides the bid: the suggested tip whatever was configured, what
/// was configured as it stands, or none.
pub proof fn law_the_choice_decides_the_bid(choice: TipChoice, manual: TipMode)
    ensures
        choice == TipChoice::Auto ==> resolved(choice, manual) == TipMode::Fixed(
            SUGGESTED_TIP_GRAINS,
        ),
        choice == TipChoice::Manual ==> resolved(choice, manual) == manual,
        choice == TipChoice::NoTip ==> resolved(choice, manual) == TipMode::Off,
{
}

/// A bid is labelled with what it bids, both ends of a range in order.
pub proof fn law_a_label_gives_the_bid(v: u128, min: u128, max: u128)
    ensures
        bid_text(TipMode::Off) == "no tip — bare action"@,
        bid_text(TipMode::Fixed(v)) == xus::display_text(v as nat) + " XUS"@,
        bid_text(TipMode::Range { min, max }) == xus::display_text(min as nat) + "–"@
            + xus::display_text(max as nat) + " XUS"@,
{
}

/// An amount is usable where every draw of it moves something or can: a fixed one above zero,
/// a range in order whose upper end is. A tip may also be nothing.
pub proof fn law_a_usable_amount_can_move_something(m: AmountMode)
    ensures
        m matches AmountMode::Fixed(v) ==> (m.valid() <==> v > 0),
        m matches AmountMode::Range { min, max } ==> (m.valid() <==> min <= max && 0 < max),
{
}

} // verus!
