//! Shares of a whole as binary64 arithmetic rounds them, in integers.
//!
//! A gauge's percentage has to agree, digit for digit, with figures that are divided in
//! double precision. Every such figure is an integer of at most fifty-three bits times a
//! power of two, so the rounding of each operation can be done exactly.

use vstd::prelude::*;

verus! {

/// The smallest significand of a double.
pub const LEAST: u128 = 0x10_0000_0000_0000;

/// One above the largest significand of a double.
pub const BEYOND: u128 = 0x20_0000_0000_0000;

/// The number `m` times two to the power `e`.
pub struct Double {
    pub m: nat,
    pub e: int,
}

/// A quotient rounded to the nearest integer, a tie to the even one.
pub open spec fn half_even(n: nat, d: nat) -> nat {
    let (q, r) = (n / d, n % d);
    if 2 * r > d || (2 * r == d && q % 2 == 1) {
        q + 1
    } else {
        q
    }
}

/// A quotient scaled down to a significand: the divisor doubles until the quotient fits.
pub open spec fn lowered(n: nat, d: nat, e: int) -> (nat, int)
    decreases n - d,
{
    if d > 0 && n / d >= BEYOND {
        proof {
            vstd::arithmetic::div_mod::lemma_fundamental_div_mod(n as int, d as int);
            assert(d * (n / d) >= 2 * d) by (nonlinear_arith)
                requires
                    n / d >= 2,
                    d > 0,
            ;
        }
        lowered(n, 2 * d, e + 1)
    } else {
        (d, e)
    }
}

/// A quotient scaled up to a significand: the dividend doubles until the quotient is full.
pub open spec fn raised(n: nat, d: nat, e: int) -> (nat, int)
    decreases (if n < d * LEAST { d * LEAST - n } else { 0 }),
{
    if n > 0 && d > 0 && n / d < LEAST {
        proof {
            lemma_below(n, d, LEAST as nat);
        }
        raised(2 * n, d, e - 1)
    } else {
        (n, e)
    }
}

/// A quotient below a bound has a dividend below so many divisors.
pub proof fn lemma_below(n: nat, d: nat, bound: nat)
    requires
        d > 0,
        n / d < bound,
    ensures
        n < d * bound,
{
    vstd::arithmetic::div_mod::lemma_fundamental_div_mod(n as int, d as int);
    let q = n / d;
    assert(d * q + d <= d * bound) by (nonlinear_arith)
        requires
            q + 1 <= bound,
            d > 0,
    ;
}

/// The double nearest to a quotient.
pub open spec fn nearest(n: nat, d: nat) -> Double {
    if n == 0 {
        Double { m: 0, e: 0 }
    } else {
        let (low, up) = lowered(n, d, 0);
        let (high, e) = raised(n, low, up);
        Double { m: half_even(high, low), e }
    }
}

/// The double nearest to the quotient of two doubles.
pub open spec fn divided(a: Double, b: Double) -> Double {
    let q = nearest(a.m, b.m);
    Double { m: q.m, e: q.e + a.e - b.e }
}

/// The double nearest to a hundred times a double.
pub open spec fn hundredfold(a: Double) -> Double {
    let p = nearest(100 * a.m, 1);
    Double { m: p.m, e: p.e + a.e }
}

/// A double rounded to the nearest integer, a half up, and held at a hundred.
pub open spec fn whole_percent(a: Double) -> nat {
    if a.m == 0 {
        0
    } else if a.e >= 0 {
        100
    } else {
        let k = (-a.e) as nat;
        let r = (2 * a.m + vstd::arithmetic::power2::pow2(k)) / (2 * vstd::arithmetic::power2::pow2(k));
        if r > 100 {
            100
        } else {
            r
        }
    }
}

/// The percentage that `part` is of `whole`, each step rounded as doubles are.
pub open spec fn percentage(part: u64, whole: u64) -> nat {
    let a = nearest(part as nat, 1);
    let b = nearest(whole as nat, 1);
    whole_percent(hundredfold(divided(a, b)))
}

/// The number `m` times two to the power `e`, as it is computed.
struct Figure {
    m: u128,
    e: i128,
}

impl Figure {
    spec fn view(&self) -> Double {
        Double { m: self.m as nat, e: self.e as int }
    }
}

/// Two to the power sixty-four.
const WORD: u128 = 0x1_0000_0000_0000_0000;

fn round_half_even(n: u128, d: u128) -> (q: u128)
    requires
        0 < d < WORD * WORD / 4,
        n < WORD * WORD / 4,
    ensures
        q == half_even(n as nat, d as nat),
{
    let q: u128 = n / d;
    let r: u128 = n % d;
    if 2 * r > d || (2 * r == d && q % 2 == 1) {
        q + 1
    } else {
        q
    }
}

proof fn lemma_quotient_bounds(n: nat, d: nat)
    requires
        d > 0,
    ensures
        n / d >= 2 ==> n >= 2 * d,
        n < BEYOND * d ==> n / d < BEYOND,
        n / d <= n,
{
    vstd::arithmetic::div_mod::lemma_fundamental_div_mod(n as int, d as int);
    let q = n / d;
    assert(q >= 2 ==> d * q >= 2 * d) by (nonlinear_arith)
        requires
            d > 0,
    ;
    assert(q >= BEYOND ==> d * q >= BEYOND * d) by (nonlinear_arith)
        requires
            d > 0,
    ;
    assert(d * q >= q) by (nonlinear_arith)
        requires
            d > 0,
            q >= 0,
    ;
}

fn nearest_figure(n: u128, d: u128) -> (f: Figure)
    requires
        n < WORD,
        0 < d < WORD,
    ensures
        f@ == nearest(n as nat, d as nat),
        f.m <= BEYOND,
        n > 0 ==> f.m >= LEAST,
        -(WORD * BEYOND) <= f.e < WORD,
{
    if n == 0 {
        return Figure { m: 0, e: 0 };
    }
    let mut low: u128 = d;
    let mut e: i128 = 0;
    while n / low >= BEYOND
        invariant
            0 < n < WORD,
            0 < low < WORD,
            0 <= e < low,
            lowered(n as nat, d as nat, 0) == lowered(n as nat, low as nat, e as int),
        decreases n - low,
    {
        proof {
            lemma_quotient_bounds(n as nat, low as nat);
        }
        low = 2 * low;
        e = e + 1;
    }
    let ghost up = e as int;
    assert(lowered(n as nat, d as nat, 0) == (low as nat, up));
    let mut high: u128 = n;
    proof {
        lemma_below(high as nat, low as nat, BEYOND as nat);
    }
    while high / low < LEAST
        invariant
            0 < high,
            0 < low < WORD,
            high < low * BEYOND,
            low * BEYOND < WORD * BEYOND,
            high / low < BEYOND,
            up - high < e <= up,
            0 <= up < WORD,
            raised(n as nat, low as nat, up) == raised(high as nat, low as nat, e as int),
        decreases (if high < low * LEAST { low * LEAST - high } else { 0 }),
    {
        proof {
            lemma_below(high as nat, low as nat, LEAST as nat);
            lemma_quotient_bounds((2 * high) as nat, low as nat);
        }
        high = 2 * high;
        e = e - 1;
    }
    Figure { m: round_half_even(high, low), e }
}

/// A figure rounded to a whole percentage.
fn to_percent(f: Figure) -> (r: u64)
    requires
        f.m <= BEYOND,
        f.e > i128::MIN,
    ensures
        r == whole_percent(f@),
        r <= 100,
{
    if f.m == 0 {
        return 0;
    }
    if f.e >= 0 {
        return 100;
    }
    let k: i128 = -f.e;
    if k > 64 {
        proof {
            vstd::arithmetic::power2::lemma2_to64();
            vstd::arithmetic::power2::lemma_pow2_strictly_increases(64, k as nat);
            let t = vstd::arithmetic::power2::pow2(k as nat);
            vstd::arithmetic::div_mod::lemma_basic_div((2 * f.m + t) as int, (2 * t) as int);
        }
        return 0;
    }
    let mut t: u128 = 1;
    let mut i: i128 = 0;
    proof {
        vstd::arithmetic::power2::lemma2_to64();
    }
    while i < k
        invariant
            0 <= i <= k <= 64,
            t == vstd::arithmetic::power2::pow2(i as nat),
            0 < t <= WORD,
        decreases k - i,
    {
        proof {
            vstd::arithmetic::power2::lemma_pow2_unfold((i + 1) as nat);
            vstd::arithmetic::power2::lemma2_to64();
            if i + 1 < 64 {
                vstd::arithmetic::power2::lemma_pow2_strictly_increases((i + 1) as nat, 64);
            }
        }
        t = 2 * t;
        i = i + 1;
    }
    let r: u128 = (2 * f.m + t) / (2 * t);
    if r > 100 {
        100
    } else {
        r as u64
    }
}

/// The percentage that `part` is of `whole`, at most a hundred.
pub fn percent_of(part: u64, whole: u64) -> (r: u64)
    requires
        whole > 0,
    ensures
        r == percentage(part, whole),
        r <= 100,
{
    let a = nearest_figure(part as u128, 1);
    let b = nearest_figure(whole as u128, 1);
    let q = nearest_figure(a.m, b.m);
    let share = Figure { m: q.m, e: q.e + a.e - b.e };
    let p = nearest_figure(100 * share.m, 1);
    to_percent(Figure { m: p.m, e: p.e + share.e })
}

/// Scaling up doubles the dividend until the quotient is full, and no further.
proof fn lemma_raised(n: nat, d: nat, e: int) -> (j: nat)
    requires
        n > 0,
        d > 0,
    ensures
        raised(n, d, e) == (n * vstd::arithmetic::power2::pow2(j), e - j),
        (n * vstd::arithmetic::power2::pow2(j)) / d >= LEAST,
        j > 0 ==> n * vstd::arithmetic::power2::pow2(j) < 2 * (d * LEAST),
        n / d >= LEAST ==> j == 0,
    decreases (if n < d * LEAST { d * LEAST - n } else { 0 }),
{
    vstd::arithmetic::power2::lemma2_to64();
    if n / d < LEAST {
        lemma_below(n, d, LEAST as nat);
        let i = lemma_raised(2 * n, d, e - 1);
        let j = i + 1;
        vstd::arithmetic::power2::lemma_pow2_unfold(j);
        let (t, u) = (vstd::arithmetic::power2::pow2(i), vstd::arithmetic::power2::pow2(j));
        assert((2 * n) * t == n * u) by (nonlinear_arith)
            requires
                u == 2 * t,
        ;
        assert(raised(n, d, e) == raised(2 * n, d, e - 1));
        assert(n * u < 2 * (d * LEAST)) by {
            if i == 0 {
                assert(n * u == 2 * n) by (nonlinear_arith)
                    requires
                        u == 2,
                ;
            }
        }
        j
    } else {
        assert(n * vstd::arithmetic::power2::pow2(0) == n);
        0
    }
}

/// Scaling down doubles a divisor of one until the quotient fits, and no further.
proof fn lemma_lowered(n: nat, d: nat, e: int) -> (k: nat)
    requires
        n > 0,
        d > 0,
    ensures
        lowered(n, d, e) == (d * vstd::arithmetic::power2::pow2(k), e + k),
        n / (d * vstd::arithmetic::power2::pow2(k)) < BEYOND,
        k > 0 ==> n / (d * vstd::arithmetic::power2::pow2(k)) >= LEAST,
        n / d < BEYOND ==> k == 0,
    decreases n - d,
{
    vstd::arithmetic::power2::lemma2_to64();
    if n / d >= BEYOND {
        vstd::arithmetic::div_mod::lemma_fundamental_div_mod(n as int, d as int);
        assert(d * (n / d) >= 2 * d) by (nonlinear_arith)
            requires
                n / d >= 2,
                d > 0,
        ;
        let i = lemma_lowered(n, 2 * d, e + 1);
        let k = i + 1;
        vstd::arithmetic::power2::lemma_pow2_unfold(k);
        let (t, u) = (vstd::arithmetic::power2::pow2(i), vstd::arithmetic::power2::pow2(k));
        assert((2 * d) * t == d * u) by (nonlinear_arith)
            requires
                u == 2 * t,
        ;
        assert(lowered(n, d, e) == lowered(n, 2 * d, e + 1));
        if i == 0 {
            assert(d * u == 2 * d) by (nonlinear_arith)
                requires
                    u == 2,
            ;
            vstd::arithmetic::div_mod::lemma_div_denominator(n as int, d as int, 2);
            assert(n / (2 * d) == (n / d) / 2) by {
                assert(2 * d == d * 2);
            }
        }
        k
    } else {
        assert(d * vstd::arithmetic::power2::pow2(0) == d);
        0
    }
}

/// Rounding moves a quotient by at most half, and keeps it at or above a whole bound.
proof fn lemma_half_even(n: nat, d: nat)
    requires
        d > 0,
    ensures
        -(d as int) <= 2 * (half_even(n, d) * d) - 2 * n <= d,
        half_even(n, d) >= n / d,
        half_even(n, 1) == n,
{
    vstd::arithmetic::div_mod::lemma_fundamental_div_mod(n as int, d as int);
    let (q, r) = (n / d, n % d);
    assert((q + 1) * d == d * q + d && q * d == d * q) by (nonlinear_arith);
}

/// A whole number that a double can hold is held exactly.
proof fn lemma_exact(n: nat) -> (j: nat)
    requires
        0 < n < LEAST,
    ensures
        nearest(n, 1) == (Double { m: n * vstd::arithmetic::power2::pow2(j), e: -(j as int) }),
        LEAST <= n * vstd::arithmetic::power2::pow2(j) < BEYOND,
{
    let k = lemma_lowered(n, 1, 0);
    vstd::arithmetic::power2::lemma2_to64();
    assert(n / 1 == n);
    assert(lowered(n, 1, 0) == (1nat, 0int));
    let j = lemma_raised(n, 1, 0);
    let h = n * vstd::arithmetic::power2::pow2(j);
    lemma_half_even(h, 1);
    assert(h / 1 == h);
    if j == 0 {
        let one = vstd::arithmetic::power2::pow2(j);
        assert(h == n) by (nonlinear_arith)
            requires
                h == n * one,
                one == 1,
        ;
    }
    j
}

/// How far the two roundings can carry a share from where it is: by less than half of what
/// the last place is worth, and the hundredfold of that of the quotient.
proof fn lemma_share_error(
    part: int,
    whole: int,
    pa: int,
    pb: int,
    pq: int,
    pk: int,
    mq: int,
    mp: int,
)
    requires
        part > 0,
        whole > 0,
        pa > 0,
        pb > 0,
        pq > 0,
        pk > 0,
        -(whole * pb) <= 2 * (mq * (whole * pb)) - 2 * ((part * pa) * pq) <= whole * pb,
        -pk <= 2 * (mp * pk) - 2 * (100 * mq) <= pk,
    ensures
        -((whole * pb) * (pk + 100)) <= 2 * ((mp * pk) * (whole * pb)) - 200 * ((part * pa) * pq)
            <= (whole * pb) * (pk + 100),
{
    let (w, u, v) = (whole * pb, mp * pk, (part * pa) * pq);
    assert(w > 0) by (nonlinear_arith)
        requires
            w == whole * pb,
            whole > 0,
            pb > 0,
    ;
    assert(-(pk * w) <= 2 * (u * w) - 200 * (mq * w) <= pk * w) by (nonlinear_arith)
        requires
            -pk <= 2 * u - 200 * mq <= pk,
            w > 0,
    ;
    assert(w * (pk + 100) == pk * w + 100 * w) by (nonlinear_arith);
}

/// What the percentage of a share is rounded from: a full significand, off by less than three
/// of its last places. It has a fractional part wherever the share is at most the whole.
proof fn lemma_share(part: u64, whole: u64) -> (x: (int, int))
    requires
        0 < part < LEAST,
        0 < whole < LEAST,
    ensures
        ({
            let (mp, e) = x;
            let t = vstd::arithmetic::power2::pow2((-e) as nat);
            &&& mp >= LEAST
            &&& percentage(part, whole) == whole_percent(Double { m: mp as nat, e })
            &&& part <= whole ==> e < 0
            &&& e < 0 ==> -(3 * whole) <= 2 * (mp * whole) - 200 * (part * t) <= 3 * whole
        }),
{
    let ja = lemma_exact(part as nat);
    let jb = lemma_exact(whole as nat);
    let (pa, pb) = (vstd::arithmetic::power2::pow2(ja), vstd::arithmetic::power2::pow2(jb));
    let (ma, mb) = (part as nat * pa, whole as nat * pb);
    // the quotient
    lemma_quotient_bounds(ma, mb);
    let none = lemma_lowered(ma, mb, 0);
    vstd::arithmetic::power2::lemma2_to64();
    assert(lowered(ma, mb, 0) == (mb, 0int));
    let jq = lemma_raised(ma, mb, 0);
    let pq = vstd::arithmetic::power2::pow2(jq);
    lemma_half_even(ma * pq, mb);
    let mq = half_even(ma * pq, mb);
    assert(nearest(ma, mb) == (Double { m: mq, e: -(jq as int) }));
    // the hundredfold
    let h = 100 * mq;
    let k = lemma_lowered(h, 1, 0);
    let pk = vstd::arithmetic::power2::pow2(k);
    assert(1 * pk == pk);
    assert(h / 1 == h);
    assert(k > 0);
    assert(lowered(h, 1, 0) == (pk, k as int));
    vstd::arithmetic::power2::lemma_pow2_pos(k);
    let still = lemma_raised(h, pk, k as int);
    assert(h * vstd::arithmetic::power2::pow2(0) == h);
    assert(raised(h, pk, k as int) == (h, k as int));
    lemma_half_even(h, pk);
    let mp = half_even(h, pk);
    assert(nearest(h, 1) == (Double { m: mp, e: k as int }));
    let e = k - jq - ja + jb;
    assert(percentage(part, whole) == whole_percent(Double { m: mp, e }));
    assert(mp >= LEAST);
    lemma_below(h, pk, BEYOND as nat);
    assert(pk > 50) by (nonlinear_arith)
        requires
            100 * LEAST <= h,
            h < pk * BEYOND,
            BEYOND == 2 * LEAST,
            LEAST > 0,
    ;
    vstd::arithmetic::power2::lemma_pow2_pos(ja);
    vstd::arithmetic::power2::lemma_pow2_pos(jb);
    vstd::arithmetic::power2::lemma_pow2_pos(jq);
    lemma_share_error(
        part as int,
        whole as int,
        pa as int,
        pb as int,
        pq as int,
        pk as int,
        mq as int,
        mp as int,
    );
    vstd::arithmetic::power2::lemma_pow2_adds(ja, jq);
    vstd::arithmetic::power2::lemma_pow2_adds(k, jb);
    if e >= 0 {
        vstd::arithmetic::power2::lemma_pow2_adds(ja + jq, e as nat);
        vstd::arithmetic::power2::lemma_pow2_pos(e as nat);
        vstd::arithmetic::power2::lemma_pow2_pos(ja + jq);
        if part <= whole {
            lemma_no_whole_double(
                part as int,
                whole as int,
                pa as int,
                pb as int,
                pq as int,
                pk as int,
                vstd::arithmetic::power2::pow2(e as nat) as int,
                mp as int,
            );
        }
    } else {
        vstd::arithmetic::power2::lemma_pow2_adds(k + jb, (-e) as nat);
        lemma_share_in_places(
            part as int,
            whole as int,
            pa as int,
            pb as int,
            pq as int,
            pk as int,
            vstd::arithmetic::power2::pow2((-e) as nat) as int,
            mp as int,
        );
    }
    (mp as int, e)
}

/// A percentage is the nearest one: between half a point too little and half a point too
/// much, for any share of anything that can be counted in forty bits.
pub proof fn law_a_percentage_is_the_nearest(part: u64, whole: u64)
    requires
        0 < part <= whole,
        whole <= 0x100_0000_0000,
    ensures
        ({
            let p = percentage(part, whole);
            &&& (2 * p - 1) * whole <= 200 * part
            &&& 200 * part <= (2 * p + 1) * whole
        }),
{
    let (mp, e) = lemma_share(part, whole);
    let t = vstd::arithmetic::power2::pow2((-e) as nat);
    vstd::arithmetic::power2::lemma_pow2_pos((-e) as nat);
    let r = (2 * mp + t) / (2 * t as int);
    vstd::arithmetic::div_mod::lemma_fundamental_div_mod(2 * mp + t, 2 * t as int);
    lemma_rounded_share(part as int, whole as int, t as int, mp, r);
}

/// The whole is a hundred per cent, and so is anything above it.
pub proof fn law_a_full_share_is_a_hundred(part: u64, whole: u64)
    requires
        0 < whole <= part < LEAST,
    ensures
        percentage(part, whole) == 100,
{
    let (mp, e) = lemma_share(part, whole);
    if e < 0 {
        let t = vstd::arithmetic::power2::pow2((-e) as nat) as int;
        vstd::arithmetic::power2::lemma_pow2_pos((-e) as nat);
        let r = (2 * mp + t) / (2 * t);
        vstd::arithmetic::div_mod::lemma_fundamental_div_mod(2 * mp + t, 2 * t);
        assert(2 * mp >= 200 * t - 3) by (nonlinear_arith)
            requires
                2 * (mp * whole) - 200 * (part * t) >= -(3 * whole),
                0 < whole <= part,
                t > 0,
        ;
        assert(r >= 100) by (nonlinear_arith)
            requires
                2 * mp + t == (2 * t) * r + (2 * mp + t) % (2 * t),
                (2 * mp + t) % (2 * t) < 2 * t,
                2 * mp >= 200 * t - 3,
                mp >= 1_000,
                t > 0,
        ;
    }
}

/// A share of at most the whole is no whole double: its significand would be too small.
proof fn lemma_no_whole_double(
    part: int,
    whole: int,
    pa: int,
    pb: int,
    pq: int,
    pk: int,
    s: int,
    mp: int,
)
    requires
        0 < part <= whole,
        pb > 0,
        pk > 50,
        s > 0,
        pa * pq > 0,
        (pa * pq) * s == pk * pb,
        2 * ((mp * pk) * (whole * pb)) - 200 * ((part * pa) * pq) <= (whole * pb) * (pk + 100),
    ensures
        mp < LEAST,
{
    let z = pa * pq;
    let c = pk * pb;
    assert((part * pa) * pq == part * z) by (nonlinear_arith)
        requires
            z == pa * pq,
    ;
    assert(part * z <= whole * c) by (nonlinear_arith)
        requires
            0 < part <= whole,
            z > 0,
            s > 0,
            z * s == c,
    ;
    assert((mp * pk) * (whole * pb) == mp * (whole * c)) by (nonlinear_arith)
        requires
            c == pk * pb,
    ;
    assert((whole * pb) * (pk + 100) <= 3 * (whole * c)) by (nonlinear_arith)
        requires
            c == pk * pb,
            pk > 50,
            whole > 0,
            pb > 0,
    ;
    assert(whole * c > 0) by (nonlinear_arith)
        requires
            c == pk * pb,
            pk > 50,
            whole > 0,
            pb > 0,
    ;
    let w = whole * c;
    assert(mp <= 101) by (nonlinear_arith)
        requires
            2 * (mp * w) <= 203 * w,
            w > 0,
    ;
}

/// The error of a share in units of its last place: less than three of them.
proof fn lemma_share_in_places(
    part: int,
    whole: int,
    pa: int,
    pb: int,
    pq: int,
    pk: int,
    t: int,
    mp: int,
)
    requires
        whole > 0,
        pb > 0,
        pk > 50,
        pa * pq == (pk * pb) * t,
        -((whole * pb) * (pk + 100)) <= 2 * ((mp * pk) * (whole * pb)) - 200 * ((part * pa) * pq)
            <= (whole * pb) * (pk + 100),
    ensures
        -(3 * whole) <= 2 * (mp * whole) - 200 * (part * t) <= 3 * whole,
{
    // everything in units of `pb`
    let x = 2 * ((mp * pk) * whole) - 200 * (part * (pk * t));
    let y = whole * (pk + 100);
    let (u, v) = ((mp * pk) * whole, part * (pk * t));
    assert((mp * pk) * (whole * pb) == u * pb) by (nonlinear_arith)
        requires
            u == (mp * pk) * whole,
    ;
    assert((part * pa) * pq == part * (pa * pq)) by (nonlinear_arith);
    assert(part * ((pk * pb) * t) == v * pb) by (nonlinear_arith)
        requires
            v == part * (pk * t),
    ;
    assert(x * pb == 2 * (u * pb) - 200 * (v * pb)) by (nonlinear_arith)
        requires
            x == 2 * u - 200 * v,
    ;
    assert((whole * pb) * (pk + 100) == y * pb) by (nonlinear_arith)
        requires
            y == whole * (pk + 100),
    ;
    assert(-y <= x <= y) by (nonlinear_arith)
        requires
            -(y * pb) <= x * pb <= y * pb,
            pb > 0,
    ;
    assert(y <= 3 * (whole * pk)) by (nonlinear_arith)
        requires
            y == whole * (pk + 100),
            pk > 50,
            whole > 0,
    ;
    // everything in units of `pk`
    let z = 2 * (mp * whole) - 200 * (part * t);
    assert(x == z * pk) by (nonlinear_arith)
        requires
            x == 2 * ((mp * pk) * whole) - 200 * (part * (pk * t)),
            z == 2 * (mp * whole) - 200 * (part * t),
    ;
    assert(-(3 * whole) <= z <= 3 * whole) by (nonlinear_arith)
        requires
            -(3 * (whole * pk)) <= z * pk <= 3 * (whole * pk),
            pk > 0,
    ;
}

/// A share rounded to a whole point is the nearest whole point.
proof fn lemma_rounded_share(part: int, whole: int, t: int, mp: int, r: int)
    requires
        0 < part <= whole <= 0x100_0000_0000,
        t > 0,
        mp >= LEAST,
        -(3 * whole) <= 2 * (mp * whole) - 200 * (part * t) <= 3 * whole,
        2 * mp + t == (2 * t) * r + (2 * mp + t) % (2 * t),
        0 <= (2 * mp + t) % (2 * t) < 2 * t,
    ensures
        (2 * r - 1) * whole <= 200 * part <= (2 * r + 1) * whole,
        0 <= r <= 100,
{
    let z = 2 * (mp * whole) - 200 * (part * t);
    // the last place is worth little
    assert(2 * (mp * whole) <= 200 * (whole * t) + 3 * whole) by (nonlinear_arith)
        requires
            2 * (mp * whole) - 200 * (part * t) <= 3 * whole,
            part <= whole,
            t > 0,
    ;
    assert(2 * mp <= 200 * t + 3) by (nonlinear_arith)
        requires
            2 * (mp * whole) <= 200 * (whole * t) + 3 * whole,
            whole > 0,
    ;
    assert(t > 3 * whole);
    // the nearest point
    let f = (2 * r - 1) * whole - 200 * part;
    let g = 200 * part - (2 * r + 1) * whole;
    assert(2 * mp >= (2 * r - 1) * t && 2 * mp < (2 * r + 1) * t) by (nonlinear_arith)
        requires
            2 * mp + t == (2 * t) * r + (2 * mp + t) % (2 * t),
            0 <= (2 * mp + t) % (2 * t) < 2 * t,
    ;
    assert(f * t <= z) by (nonlinear_arith)
        requires
            2 * mp >= (2 * r - 1) * t,
            whole > 0,
            f == (2 * r - 1) * whole - 200 * part,
            z == 2 * (mp * whole) - 200 * (part * t),
    ;
    assert(g * t <= -z) by (nonlinear_arith)
        requires
            2 * mp < (2 * r + 1) * t,
            whole > 0,
            g == 200 * part - (2 * r + 1) * whole,
            z == 2 * (mp * whole) - 200 * (part * t),
    ;
    assert(f <= 0) by (nonlinear_arith)
        requires
            f * t <= 3 * whole,
            t > 3 * whole,
            whole > 0,
    ;
    assert(g <= 0) by (nonlinear_arith)
        requires
            g * t <= 3 * whole,
            t > 3 * whole,
            whole > 0,
    ;
    assert(r <= 100) by (nonlinear_arith)
        requires
            (2 * r - 1) * whole <= 200 * part,
            part <= whole,
            whole > 0,
    ;
    assert(r >= 0) by (nonlinear_arith)
        requires
            200 * part <= (2 * r + 1) * whole,
            part > 0,
            whole > 0,
    ;
}

/// Nothing is no share of anything, and no share shows as more than a hundred.
pub proof fn law_a_share_is_from_zero_to_a_hundred(part: u64, whole: u64)
    ensures
        percentage(0, whole) == 0,
        percentage(part, whole) <= 100,
{
    let b = nearest(whole as nat, 1);
    assert(nearest(0, 1) == (Double { m: 0, e: 0 }));
    assert(nearest(0, b.m) == (Double { m: 0, e: 0 }));
}

} // verus!
