//! Presentation decisions: axis ceilings, pool pressure, readiness and elapsed time.

use crate::double;
use crate::double::percent_of;
use crate::text;
use crate::text::{owned, push_decimal};
use crate::xus;
use crate::xus::push_padded;
use vstd::prelude::*;

verus! {

/// Width of the mempool scope's time axis, in seconds. The axis is fixed at this
/// width and right-anchored on "now".
pub const SCOPE_WINDOW_SECS: u64 = 300;

/// Consecutive samples further apart than this are a data gap, not a trend: the
/// scope breaks its trace there.
pub const SCOPE_GAP_MS: u64 = 4_000;

/// A value of the 1-2-5 ladder: one, two or five times a power of ten.
pub open spec fn on_ladder(c: nat) -> bool {
    exists|k: nat|
        #![trigger xus::ten_to(k)]
        c == xus::ten_to(k) || c == 2 * xus::ten_to(k) || c == 5 * xus::ten_to(k)
}

/// The depth an axis has to reach: the peak, and never less than a hundred.
pub open spec fn axis_reach(peak: u64) -> u64 {
    if peak < 100 {
        100
    } else {
        peak
    }
}

proof fn lemma_ten_to_monotonic(i: nat, j: nat)
    requires
        i <= j,
    ensures
        xus::ten_to(i) <= xus::ten_to(j),
        xus::ten_to(i) >= 1,
    decreases j,
{
    if j > 0 {
        if i < j {
            lemma_ten_to_monotonic(i, (j - 1) as nat);
        } else {
            lemma_ten_to_monotonic((i - 1) as nat, (j - 1) as nat);
        }
    }
}

/// A ladder value that reaches `p` is one, two or five times the largest power of
/// ten not above `p`, or at least the next power.
proof fn lemma_ladder_above(c: nat, p: nat, k: nat)
    requires
        on_ladder(c),
        xus::ten_to(k) <= p < xus::ten_to(k + 1),
        c >= p,
    ensures
        c == xus::ten_to(k) || c == 2 * xus::ten_to(k) || c == 5 * xus::ten_to(k) || c
            >= xus::ten_to(k + 1),
{
    let j = choose|j: nat|
        #![trigger xus::ten_to(j)]
        c == xus::ten_to(j) || c == 2 * xus::ten_to(j) || c == 5 * xus::ten_to(j);
    if j < k {
        lemma_ten_to_monotonic(j, (k - 1) as nat);
        assert(xus::ten_to(k) == 10 * xus::ten_to((k - 1) as nat));
        assert(xus::ten_to((k - 1) as nat) >= 1);
    } else if j > k {
        lemma_ten_to_monotonic(k + 1, j);
    }
}

/// Round a peak depth up to a readable axis ceiling on the 1-2-5 ladder.
///
/// The floor of a hundred matters for honesty: with a ceiling that hugs the data, a
/// pool holding three transactions would read as saturated. Never zero, and the
/// largest value where no ladder value that reaches the peak fits.
pub fn nice_ceiling(peak: u64) -> (c: u64)
    ensures
        c >= axis_reach(peak),
        on_ladder(c as nat) || c == u64::MAX,
        forall|x: nat| #[trigger] on_ladder(x) && x >= axis_reach(peak) ==> c <= x,
        !on_ladder(c as nat) ==> forall|x: nat| #[trigger]
            on_ladder(x) && x >= axis_reach(peak) ==> x > u64::MAX,
{
    let p: u64 = if peak < 100 {
        100
    } else {
        peak
    };
    let mut mag: u64 = 1;
    let ghost mut k: nat = 0;
    assert(xus::ten_to(0) == 1);
    while mag <= p / 10
        invariant
            mag == xus::ten_to(k),
            mag >= 1,
            mag <= p,
            p >= 100,
        decreases p - mag,
    {
        mag = mag * 10;
        proof {
            k = k + 1;
        }
    }
    assert(xus::ten_to(k + 1) == 10 * xus::ten_to(k));
    assert(mag <= p < 10 * mag);
    proof {
        assert forall|x: nat| #[trigger] on_ladder(x) && x >= p implies x == mag || x == 2 * mag
            || x == 5 * mag || x >= 10 * mag by {
            lemma_ladder_above(x, p as nat, k);
        }
        assert(on_ladder(mag as nat));
        assert(on_ladder((2 * mag) as nat));
        assert(on_ladder((5 * mag) as nat));
        assert(xus::ten_to(k + 1) == (10 * mag) as nat);
        assert(on_ladder((10 * mag) as nat));
    }
    if p <= mag {
        return mag;
    }
    match mag.checked_mul(2) {
        Some(c) => {
            if p <= c {
                return c;
            }
        },
        None => {
            return u64::MAX;
        },
    }
    match mag.checked_mul(5) {
        Some(c) => {
            if p <= c {
                return c;
            }
        },
        None => {
            return u64::MAX;
        },
    }
    match mag.checked_mul(10) {
        Some(c) => c,
        None => u64::MAX,
    }
}

/// How loaded the mempool is. Rendered as a word and a distinct glyph as well as a
/// color.
#[derive(Clone, Copy, Debug, PartialEq, Eq, Structural)]
pub enum Pressure {
    /// Nothing pooled.
    Empty,
    /// Under a quarter full.
    Light,
    /// Filling, under 60%.
    Building,
    /// Under the saturation line of 95%.
    Heavy,
    /// At or above the saturation line.
    Saturated,
}

/// The pressure of a depth against a capacity. A zero capacity is unknown.
pub open spec fn pressure_of(depth: u64, cap: u64) -> Pressure {
    if depth == 0 {
        Pressure::Empty
    } else if cap == 0 {
        Pressure::Building
    } else if 100 * depth >= 95 * cap {
        Pressure::Saturated
    } else if 100 * depth >= 60 * cap {
        Pressure::Heavy
    } else if 100 * depth >= 25 * cap {
        Pressure::Building
    } else {
        Pressure::Light
    }
}

impl Pressure {
    /// Bucket a depth against the pool capacity. An unknown (zero) capacity reads as
    /// empty at depth 0 and building otherwise, never as a fabricated percentage.
    pub fn of(depth: u64, cap: u64) -> (p: Self)
        ensures
            p == pressure_of(depth, cap),
    {
        if depth == 0 {
            return Pressure::Empty;
        }
        if cap == 0 {
            return Pressure::Building;
        }
        let d: u128 = 100 * (depth as u128);
        let c: u128 = cap as u128;
        if d >= 95 * c {
            Pressure::Saturated
        } else if d >= 60 * c {
            Pressure::Heavy
        } else if d >= 25 * c {
            Pressure::Building
        } else {
            Pressure::Light
        }
    }

    /// The word an operator reads.
    pub fn label(self) -> (s: &'static str)
        ensures
            s@ == match self {
                Pressure::Empty => "EMPTY"@,
                Pressure::Light => "LIGHT"@,
                Pressure::Building => "BUILDING"@,
                Pressure::Heavy => "HEAVY"@,
                Pressure::Saturated => "SATURATED"@,
            },
    {
        match self {
            Pressure::Empty => "EMPTY",
            Pressure::Light => "LIGHT",
            Pressure::Building => "BUILDING",
            Pressure::Heavy => "HEAVY",
            Pressure::Saturated => "SATURATED",
        }
    }

    /// A shape that differs between levels independently of color.
    pub fn glyph(self) -> (s: &'static str)
        ensures
            s@ == match self {
                Pressure::Empty => "○"@,
                Pressure::Light => "◔"@,
                Pressure::Building => "◑"@,
                Pressure::Heavy => "◕"@,
                Pressure::Saturated => "●"@,
            },
    {
        match self {
            Pressure::Empty => "○",
            Pressure::Light => "◔",
            Pressure::Building => "◑",
            Pressure::Heavy => "◕",
            Pressure::Saturated => "●",
        }
    }

    /// The levels in order, as numbers.
    pub open spec fn level(self) -> int {
        match self {
            Pressure::Empty => 0,
            Pressure::Light => 1,
            Pressure::Building => 2,
            Pressure::Heavy => 3,
            Pressure::Saturated => 4,
        }
    }
}

/// A fuller pool never reads as less loaded.
pub proof fn law_pressure_grows_with_depth(a: u64, b: u64, cap: u64)
    requires
        a <= b,
    ensures
        pressure_of(a, cap).level() <= pressure_of(b, cap).level(),
{
}

/// What is stopping a run from starting. Only one is reported, the first thing the
/// operator has to fix.
#[derive(Clone, Copy, Debug, PartialEq, Eq, Structural)]
pub enum Blocker {
    /// No wallets unlocked yet.
    UnlockWallet,
    /// Wallets are unlocked but none is checked.
    SelectWallet,
    /// Not one usable destination address.
    AddDestination,
}

impl Blocker {
    /// The imperative the operator should act on.
    pub fn message(self) -> (s: &'static str)
        ensures
            s@ == match self {
                Blocker::UnlockWallet => "Unlock a wallet to arm the cannon"@,
                Blocker::SelectWallet => "Check at least one wallet to fire from"@,
                Blocker::AddDestination => "Add at least one destination address"@,
            },
    {
        match self {
            Blocker::UnlockWallet => "Unlock a wallet to arm the cannon",
            Blocker::SelectWallet => "Check at least one wallet to fire from",
            Blocker::AddDestination => "Add at least one destination address",
        }
    }
}

/// The first unmet precondition for firing.
pub open spec fn blocker_of(wallets: usize, selected: usize, destinations: usize) -> Option<
    Blocker,
> {
    if wallets == 0 {
        Some(Blocker::UnlockWallet)
    } else if selected == 0 {
        Some(Blocker::SelectWallet)
    } else if destinations == 0 {
        Some(Blocker::AddDestination)
    } else {
        None
    }
}

/// The first unmet precondition for firing, if any.
///
/// Node reachability is deliberately not a blocker: the workers retry a dead node
/// and recover by themselves.
pub fn first_blocker(wallets: usize, selected: usize, destinations: usize) -> (b: Option<Blocker>)
    ensures
        b == blocker_of(wallets, selected, destinations),
{
    if wallets == 0 {
        Some(Blocker::UnlockWallet)
    } else if selected == 0 {
        Some(Blocker::SelectWallet)
    } else if destinations == 0 {
        Some(Blocker::AddDestination)
    } else {
        None
    }
}

/// Compact elapsed time.
pub open spec fn elapsed_text(secs: nat) -> Seq<char> {
    if secs < 60 {
        text::decimal(secs) + "s"@
    } else if secs < 3_600 {
        text::decimal(secs / 60) + "m "@ + text::decimal_padded(secs % 60, 2) + "s"@
    } else {
        text::decimal(secs / 3_600) + "h "@ + text::decimal_padded((secs % 3_600) / 60, 2) + "m"@
    }
}

/// Compact elapsed time: `12s`, `4m 07s`, `2h 13m`.
pub fn fmt_elapsed(secs: u64) -> (s: String)
    ensures
        s@ == elapsed_text(secs as nat),
{
    let mut s = String::new();
    proof {
        reveal_with_fuel(xus::ten_to, 3);
        assert(Seq::<char>::empty() + text::decimal(secs as nat) =~= text::decimal(secs as nat));
        assert(Seq::<char>::empty() + text::decimal((secs / 60) as nat) =~= text::decimal(
            (secs / 60) as nat,
        ));
        assert(Seq::<char>::empty() + text::decimal((secs / 3_600) as nat) =~= text::decimal(
            (secs / 3_600) as nat,
        ));
    }
    if secs < 60 {
        push_decimal(&mut s, secs as u128);
        s.append("s");
    } else if secs < 3_600 {
        push_decimal(&mut s, (secs / 60) as u128);
        s.append("m ");
        push_padded(&mut s, (secs % 60) as u128, 2);
        s.append("s");
    } else {
        push_decimal(&mut s, (secs / 3_600) as u128);
        s.append("h ");
        push_padded(&mut s, ((secs % 3_600) / 60) as u128, 2);
        s.append("m");
    }
    s
}

/// A share of a whole in words.
pub open spec fn pct_text(part: u64, whole: u64) -> Seq<char> {
    if whole == 0 {
        "—"@
    } else {
        text::decimal(double::percentage(part, whole)) + "%"@
    }
}

/// A percentage of `whole`, clamped to a hundred and rendered with no decimals. A zero
/// `whole` is unknown, not zero percent: it renders as a dash.
pub fn fmt_pct(part: u64, whole: u64) -> (s: String)
    ensures
        s@ == pct_text(part, whole),
{
    if whole == 0 {
        return owned("—");
    }
    let mut s = text::decimal_string(percent_of(part, whole) as u128);
    s.append("%");
    s
}

/// The levels have sharp edges: a quarter, three fifths, and nineteen twentieths of the
/// capacity. Nothing pooled is empty whatever the capacity, and without a known capacity no
/// share is claimed.
pub proof fn law_pressure_has_sharp_edges(depth: u64, cap: u64)
    ensures
        pressure_of(depth, cap) == Pressure::Empty <==> depth == 0,
        depth > 0 && cap == 0 ==> pressure_of(depth, cap) == Pressure::Building,
        depth > 0 && cap > 0 ==> {
            &&& pressure_of(depth, cap) == Pressure::Light <==> 4 * depth < cap
            &&& pressure_of(depth, cap) == Pressure::Building <==> 4 * depth >= cap && 5 * depth
                < 3 * cap
            &&& pressure_of(depth, cap) == Pressure::Heavy <==> 5 * depth >= 3 * cap && 20 * depth
                < 19 * cap
            &&& pressure_of(depth, cap) == Pressure::Saturated <==> 20 * depth >= 19 * cap
        },
{
}

/// Nothing blocks exactly where there is a wallet, one is selected and there is somewhere to
/// send; what is reported is the first of these that is missing.
pub proof fn law_the_first_thing_missing_blocks(
    wallets: usize,
    selected: usize,
    destinations: usize,
)
    ensures
        blocker_of(wallets, selected, destinations) is None <==> wallets > 0 && selected > 0
            && destinations > 0,
        blocker_of(wallets, selected, destinations) == Some(Blocker::UnlockWallet) <==> wallets
            == 0,
        blocker_of(wallets, selected, destinations) == Some(Blocker::SelectWallet) <==> wallets > 0
            && selected == 0,
        blocker_of(wallets, selected, destinations) == Some(Blocker::AddDestination) <==> wallets
            > 0 && selected > 0 && destinations == 0,
{
}

/// The axis reaches the peak, and a hundred at least.
pub proof fn law_the_axis_reaches_the_peak(peak: u64)
    ensures
        axis_reach(peak) >= peak,
        axis_reach(peak) >= 100,
        axis_reach(peak) == peak || axis_reach(peak) == 100,
{
}

/// What is shown of an elapsed time adds up to it: seconds alone, minutes and seconds to the
/// second, or hours and minutes to the minute.
pub proof fn law_elapsed_time_adds_up(secs: nat, h: nat, m: nat, s: nat)
    requires
        m < 60,
        s < 60,
        secs == 3_600 * h + 60 * m + s,
    ensures
        h == 0 && m == 0 ==> elapsed_text(secs) == text::decimal(s) + "s"@,
        h == 0 && m > 0 ==> elapsed_text(secs) == text::decimal(m) + "m "@ + text::decimal_padded(
            s,
            2,
        ) + "s"@,
        h > 0 ==> elapsed_text(secs) == text::decimal(h) + "h "@ + text::decimal_padded(m, 2)
            + "m"@,
{
}

/// The ladder is one, two and five, and every ten times one of its values; nothing else.
pub proof fn law_the_ladder_is_one_two_five(c: nat)
    ensures
        c < 10 ==> (on_ladder(c) <==> c == 1 || c == 2 || c == 5),
        c >= 10 ==> (on_ladder(c) <==> c % 10 == 0 && on_ladder(c / 10)),
{
    assert(xus::ten_to(0) == 1);
    if on_ladder(c) {
        let k = choose|k: nat|
            #![trigger xus::ten_to(k)]
            c == xus::ten_to(k) || c == 2 * xus::ten_to(k) || c == 5 * xus::ten_to(k);
        if k > 0 {
            lemma_ten_to_monotonic(0, (k - 1) as nat);
            let t = xus::ten_to((k - 1) as nat);
            assert(xus::ten_to(k) == 10 * t);
            assert(c / 10 == t || c / 10 == 2 * t || c / 10 == 5 * t);
        }
    }
    if c >= 10 && c % 10 == 0 && on_ladder(c / 10) {
        let k = choose|k: nat|
            #![trigger xus::ten_to(k)]
            c / 10 == xus::ten_to(k) || c / 10 == 2 * xus::ten_to(k) || c / 10 == 5 * xus::ten_to(
                k,
            );
        assert(xus::ten_to(k + 1) == 10 * xus::ten_to(k));
        assert(c == xus::ten_to(k + 1) || c == 2 * xus::ten_to(k + 1) || c == 5 * xus::ten_to(
            k + 1,
        ));
    }
}

/// Only an unknown whole has no percentage.
pub proof fn law_an_unknown_whole_is_a_dash(part: u64, whole: u64)
    ensures
        whole == 0 ==> pct_text(part, whole) == "—"@,
        whole > 0 ==> pct_text(part, whole) == text::decimal(double::percentage(part, whole))
            + "%"@,
{
}

} // verus!
