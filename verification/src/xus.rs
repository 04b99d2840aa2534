//! Amounts of XUS as text. One XUS is 100,000,000 grains.

use crate::text;
use crate::text::chars_of;
use crate::text::decimal_digit;
use crate::text::push_decimal;
use crate::text::trim_chars;
use vstd::prelude::*;

verus! {

/// Grains in one XUS.
pub const GRAINS_PER_XUS: u128 = 100_000_000;

/// Every character is a decimal digit.
pub open spec fn all_digits(s: Seq<char>) -> bool {
    forall|i: int| 0 <= i < s.len() ==> '0' <= #[trigger] s[i] <= '9'
}

/// The number a sequence of decimal digits writes.
pub open spec fn number(s: Seq<char>) -> nat
    decreases s.len(),
{
    if s.len() == 0 {
        0
    } else {
        number(s.drop_last()) * 10 + ((s.last() as u32 - '0' as u32) as nat)
    }
}

/// A power of ten.
pub open spec fn ten_to(n: nat) -> nat
    decreases n,
{
    if n == 0 {
        1
    } else {
        10 * ten_to((n - 1) as nat)
    }
}

/// The index of the first decimal point; the length where there is none.
pub open spec fn point_at(s: Seq<char>) -> nat
    decreases s.len(),
{
    if s.len() == 0 || s[0] == '.' {
        0
    } else {
        1 + point_at(s.drop_first())
    }
}

/// The part before the first decimal point.
pub open spec fn whole_part(s: Seq<char>) -> Seq<char> {
    s.take(point_at(s) as int)
}

/// The part after the first decimal point, empty where there is none.
pub open spec fn fraction_part(s: Seq<char>) -> Seq<char> {
    if point_at(s) < s.len() {
        s.skip(point_at(s) as int + 1)
    } else {
        Seq::empty()
    }
}

/// A decimal amount: digits, and after an optional point at most eight more.
pub open spec fn is_amount(s: Seq<char>) -> bool {
    &&& whole_part(s).len() > 0
    &&& all_digits(whole_part(s))
    &&& all_digits(fraction_part(s))
    &&& fraction_part(s).len() <= 8
}

/// The grains a decimal amount stands for.
pub open spec fn amount_grains(s: Seq<char>) -> nat {
    number(whole_part(s)) * 100_000_000 + number(fraction_part(s)) * ten_to(
        (8 - fraction_part(s).len()) as nat,
    )
}

/// The grains a text stands for, white space around it ignored: a decimal amount
/// that fits, or nothing.
pub open spec fn parsed(s: Seq<char>) -> Option<u128> {
    let t = text::trim(s);
    if is_amount(t) && amount_grains(t) <= u128::MAX {
        Some(amount_grains(t) as u128)
    } else {
        None
    }
}

pub proof fn lemma_point_at(s: Seq<char>)
    ensures
        point_at(s) <= s.len(),
        forall|i: int| 0 <= i < point_at(s) ==> #[trigger] s[i] != '.',
        point_at(s) < s.len() ==> s[point_at(s) as int] == '.',
    decreases s.len(),
{
    if s.len() > 0 && s[0] != '.' {
        let d = s.drop_first();
        lemma_point_at(d);
        assert forall|i: int| 0 <= i < point_at(s) implies #[trigger] s[i] != '.' by {
            if i > 0 {
                assert(d[i - 1] == s[i]);
            }
        }
    }
}

proof fn lemma_point_unique(s: Seq<char>, at: int)
    requires
        0 <= at <= s.len(),
        forall|i: int| 0 <= i < at ==> #[trigger] s[i] != '.',
        at < s.len() ==> s[at] == '.',
    ensures
        point_at(s) == at,
{
    lemma_point_at(s);
    if point_at(s) < at {
        assert(s[point_at(s) as int] != '.');
    }
}

proof fn lemma_number_prefix(s: Seq<char>, i: int, j: int)
    requires
        0 <= i <= j <= s.len(),
    ensures
        number(s.take(i)) <= number(s.take(j)),
    decreases j - i,
{
    if i < j {
        lemma_number_prefix(s, i, j - 1);
        assert(s.take(j).drop_last() =~= s.take(j - 1));
    }
}

/// The number that digits `from..to` of a vector write, or `None` where they are not
/// all digits or the number does not fit.
pub fn digits_value(v: &Vec<char>, from: usize, to: usize) -> (r: Option<u128>)
    requires
        from <= to <= v@.len(),
    ensures
        r == if all_digits(v@.subrange(from as int, to as int)) && number(
            v@.subrange(from as int, to as int),
        ) <= u128::MAX {
            Some(number(v@.subrange(from as int, to as int)) as u128)
        } else {
            None
        },
{
    let ghost s = v@.subrange(from as int, to as int);
    let mut n: u128 = 0;
    let mut i: usize = from;
    assert(s.take(0) =~= Seq::<char>::empty());
    while i < to
        invariant
            from <= i <= to <= v@.len(),
            s == v@.subrange(from as int, to as int),
            n == number(s.take(i - from)),
            forall|k: int| 0 <= k < i - from ==> '0' <= #[trigger] s[k] <= '9',
        decreases to - i,
    {
        let ghost next = s.take(i - from + 1);
        proof {
            assert(next.drop_last() =~= s.take(i - from));
            assert(next.last() == v@[i as int]);
            assert(s[i - from] == v@[i as int]);
        }
        match decimal_digit(v[i]) {
            Some(d) => {
                match n.checked_mul(10) {
                    Some(m) => match m.checked_add(d as u128) {
                        Some(k) => {
                            n = k;
                        },
                        None => {
                            proof {
                                lemma_number_prefix(s, i - from + 1, s.len() as int);
                                assert(s.take(s.len() as int) =~= s);
                            }
                            return None;
                        },
                    },
                    None => {
                        proof {
                            lemma_number_prefix(s, i - from + 1, s.len() as int);
                            assert(s.take(s.len() as int) =~= s);
                        }
                        return None;
                    },
                }
            },
            None => {
                assert(!all_digits(s));
                return None;
            },
        }
        i = i + 1;
    }
    assert(s.take(i - from) =~= s);
    Some(n)
}

proof fn lemma_ten_to_values()
    ensures
        ten_to(0) == 1,
        ten_to(1) == 10,
        ten_to(2) == 100,
        ten_to(3) == 1_000,
        ten_to(4) == 10_000,
        ten_to(5) == 100_000,
        ten_to(6) == 1_000_000,
        ten_to(7) == 10_000_000,
        ten_to(8) == 100_000_000,
{
    reveal_with_fuel(ten_to, 9);
}

/// What a fraction of so many digits is multiplied by to count grains.
fn fraction_scale(digits: usize) -> (f: u128)
    requires
        digits <= 8,
    ensures
        f == ten_to((8 - digits) as nat),
{
    proof {
        lemma_ten_to_values();
    }
    match digits {
        0 => 100_000_000,
        1 => 10_000_000,
        2 => 1_000_000,
        3 => 100_000,
        4 => 10_000,
        5 => 1_000,
        6 => 100,
        7 => 10,
        _ => 1,
    }
}

/// A digit string of `k` digits writes a number below `10^k`.
pub proof fn lemma_number_bound(s: Seq<char>)
    requires
        all_digits(s),
    ensures
        number(s) < ten_to(s.len()),
    decreases s.len(),
{
    if s.len() > 0 {
        let d = s.drop_last();
        assert forall|i: int| 0 <= i < d.len() implies '0' <= #[trigger] d[i] <= '9' by {
            assert(d[i] == s[i]);
        }
        lemma_number_bound(d);
        assert('0' <= s[s.len() - 1] <= '9');
    }
}

/// Parse a decimal XUS amount ("1.5") into grains.
pub fn parse_xus(s: &str) -> (r: Option<u128>)
    ensures
        r == parsed(s@),
{
    let all = chars_of(s);
    let v = trim_chars(&all);
    let ghost t = text::trim(s@);
    let n: usize = v.len();
    let mut at: usize = 0;
    while at < n && v[at] != '.'
        invariant
            at <= n == v@.len(),
            forall|i: int| 0 <= i < at ==> #[trigger] v@[i] != '.',
        decreases n - at,
    {
        at = at + 1;
    }
    proof {
        lemma_point_unique(t, at as int);
        assert(t.subrange(0, at as int) =~= whole_part(t));
    }
    let from: usize = if at < n {
        at + 1
    } else {
        n
    };
    assert(t.subrange(from as int, n as int) =~= fraction_part(t));
    let digits: usize = n - from;
    if digits > 8 || at == 0 {
        return None;
    }
    let whole = match digits_value(&v, 0, at) {
        Some(w) => w,
        None => {
            return None;
        },
    };
    let fraction = match digits_value(&v, from, n) {
        Some(f) => f,
        None => {
            proof {
                lemma_ten_to_values();
                if all_digits(fraction_part(t)) {
                    lemma_number_bound(fraction_part(t));
                    lemma_ten_to_small(fraction_part(t).len());
                }
            }
            return None;
        },
    };
    let scale: u128 = fraction_scale(digits);
    proof {
        lemma_number_bound(fraction_part(t));
        lemma_scaled_fraction(number(fraction_part(t)), digits as nat);
    }
    let grains_of_fraction: u128 = fraction * scale;
    match whole.checked_mul(GRAINS_PER_XUS) {
        Some(g) => g.checked_add(grains_of_fraction),
        None => None,
    }
}

proof fn lemma_ten_to_small(n: nat)
    requires
        n <= 8,
    ensures
        ten_to(n) <= 100_000_000,
{
    lemma_ten_to_values();
}

/// A fraction of at most eight digits counts for less than one XUS.
proof fn lemma_scaled_fraction(f: nat, digits: nat)
    requires
        digits <= 8,
        f < ten_to(digits),
    ensures
        f * ten_to((8 - digits) as nat) < 100_000_000,
{
    lemma_ten_to_values();
    let scale = ten_to((8 - digits) as nat);
    let top = ten_to(digits);
    assert(f * scale < top * scale) by (nonlinear_arith)
        requires
            f < top,
            scale > 0,
    ;
    assert(top * scale == 100_000_000) by (nonlinear_arith)
        requires
            (top == 1 && scale == 100_000_000) || (top == 10 && scale == 10_000_000) || (top == 100
                && scale == 1_000_000) || (top == 1_000 && scale == 100_000) || (top == 10_000
                && scale == 10_000) || (top == 100_000 && scale == 1_000) || (top == 1_000_000
                && scale == 100) || (top == 10_000_000 && scale == 10) || (top == 100_000_000
                && scale == 1),
    ;
}

/// Digits without their trailing zeros.
pub open spec fn without_zeros(s: Seq<char>) -> Seq<char>
    decreases s.len(),
{
    if s.len() > 0 && s.last() == '0' {
        without_zeros(s.drop_last())
    } else {
        s
    }
}

/// Eight digits of a number below one hundred million.
pub open spec fn eight_digits(n: nat) -> Seq<char> {
    text::decimal_padded(n, 8)
}

/// The fraction part of an amount as it is written: a point and the digits up to
/// the last that is not zero, or nothing for a whole amount.
pub open spec fn fraction_text(grains: nat) -> Seq<char> {
    let f = grains % 100_000_000;
    if f == 0 {
        Seq::empty()
    } else {
        "."@ + without_zeros(eight_digits(f))
    }
}

/// A plain decimal amount.
pub open spec fn plain_text(grains: nat) -> Seq<char> {
    text::decimal(grains / 100_000_000) + fraction_text(grains)
}

/// A number with a separator between groups of three digits.
pub open spec fn grouped(n: nat) -> Seq<char>
    decreases n,
{
    if n < 1000 {
        text::decimal(n)
    } else {
        grouped(n / 1000) + ","@ + text::decimal_padded(n % 1000, 3)
    }
}

/// The digits of `n` at the given number of places, most significant first.
pub open spec fn fixed_digits(n: nat, places: nat) -> Seq<char>
    decreases places,
{
    if places == 0 {
        Seq::empty()
    } else {
        fixed_digits(n / 10, (places - 1) as nat).push(text::digits()[(n % 10) as int])
    }
}

/// Padding with zeros is writing a fixed number of places.
pub proof fn lemma_fixed_digits(n: nat, places: nat)
    requires
        n < ten_to(places),
        places > 0,
    ensures
        fixed_digits(n, places) == text::decimal_padded(n, places),
        text::decimal(n).len() <= places,
    decreases places,
{
    if n < 10 {
        lemma_zero_places((places - 1) as nat);
        assert(n / 10 == 0);
        let d = text::decimal(n);
        assert(fixed_digits(n, places) =~= Seq::new((places - 1) as nat, |i: int| '0') + d);
        if places == 1 {
            assert(Seq::new(0, |i: int| '0') + d =~= d);
        }
    } else {
        if places == 1 {
            lemma_ten_to_values();
            assert(false);
        }
        assert(n / 10 < ten_to((places - 1) as nat));
        lemma_fixed_digits(n / 10, (places - 1) as nat);
        let h = text::decimal(n / 10);
        let d = text::decimal(n);
        let last = text::digits()[(n % 10) as int];
        assert(d == h.push(last));
        let pad = Seq::new((places - d.len()) as nat, |i: int| '0');
        assert(pad + h.push(last) =~= (pad + h).push(last));
        assert(text::decimal_padded(n, places) =~= fixed_digits(n, places));
    }
}

proof fn lemma_zero_places(places: nat)
    ensures
        fixed_digits(0, places) == Seq::new(places, |i: int| '0'),
    decreases places,
{
    if places > 0 {
        lemma_zero_places((places - 1) as nat);
        assert(fixed_digits(0, places) =~= Seq::new(places, |i: int| '0'));
    } else {
        assert(fixed_digits(0, places) =~= Seq::new(places, |i: int| '0'));
    }
}

/// Append the digits of `n` at a fixed number of places.
pub fn push_fixed(out: &mut String, n: u128, places: usize)
    ensures
        final(out)@ == old(out)@ + fixed_digits(n as nat, places as nat),
    decreases places,
{
    if places > 0 {
        push_fixed(out, n / 10, places - 1);
        out.push(text::digit_char((n % 10) as u8));
        assert(out@ =~= old(out)@ + fixed_digits(n as nat, places as nat));
    } else {
        assert(out@ =~= old(out)@ + fixed_digits(n as nat, 0));
    }
}

/// Append a number padded with zeros to a width it fits in.
pub fn push_padded(out: &mut String, n: u128, places: usize)
    requires
        places > 0,
        n < ten_to(places as nat),
    ensures
        final(out)@ == old(out)@ + text::decimal_padded(n as nat, places as nat),
{
    proof {
        lemma_fixed_digits(n as nat, places as nat);
    }
    push_fixed(out, n, places);
}

/// Append a number with a separator between groups of three digits.
pub fn push_grouped(out: &mut String, n: u128)
    ensures
        final(out)@ == old(out)@ + grouped(n as nat),
    decreases n,
{
    if n < 1000 {
        push_decimal(out, n);
    } else {
        push_grouped(out, n / 1000);
        out.append(",");
        proof {
            lemma_ten_to_values();
        }
        push_padded(out, n % 1000, 3);
        assert(out@ =~= old(out)@ + grouped(n as nat));
    }
}

/// Group a count with thousands separators, so 16384 reads as 16,384.
pub fn fmt_count(n: u64) -> (s: String)
    ensures
        s@ == grouped(n as nat),
{
    let mut s = String::new();
    push_grouped(&mut s, n as u128);
    assert(s@ =~= grouped(n as nat));
    s
}

/// The digits of a fraction up to the last that is not zero.
proof fn lemma_without_zeros_step(n: nat, places: nat)
    requires
        places > 0,
    ensures
        n % 10 == 0 ==> without_zeros(fixed_digits(n, places)) == without_zeros(
            fixed_digits(n / 10, (places - 1) as nat),
        ),
        n % 10 != 0 ==> without_zeros(fixed_digits(n, places)) == fixed_digits(n, places),
{
    let s = fixed_digits(n, places);
    let d = text::digits();
    assert(s.drop_last() =~= fixed_digits(n / 10, (places - 1) as nat));
    assert(s.last() == d[(n % 10) as int]);
    assert(d[0] == '0' && d[1] != '0' && d[2] != '0' && d[3] != '0' && d[4] != '0' && d[5] != '0'
        && d[6] != '0' && d[7] != '0' && d[8] != '0' && d[9] != '0');
}

/// Append the fraction part of an amount.
fn push_fraction(out: &mut String, grains: u128)
    ensures
        final(out)@ == old(out)@ + fraction_text(grains as nat),
{
    let f: u128 = grains % GRAINS_PER_XUS;
    if f == 0 {
        assert(out@ =~= old(out)@ + fraction_text(grains as nat));
        return ;
    }
    out.append(".");
    let mut n: u128 = f;
    let mut places: usize = 8;
    proof {
        lemma_ten_to_values();
        lemma_fixed_digits(f as nat, 8);
    }
    while n % 10 == 0
        invariant
            n > 0,
            n < ten_to(places as nat),
            places <= 8,
            without_zeros(fixed_digits(n as nat, places as nat)) == without_zeros(
                eight_digits(f as nat),
            ),
        decreases n,
    {
        proof {
            if places == 0 {
                assert(ten_to(0) == 1);
                assert(false);
            }
            lemma_without_zeros_step(n as nat, places as nat);
            assert(ten_to(places as nat) == 10 * ten_to((places - 1) as nat));
        }
        n = n / 10;
        places = places - 1;
    }
    proof {
        if places == 0 {
            assert(ten_to(0) == 1);
            assert(false);
        }
        lemma_without_zeros_step(n as nat, places as nat);
    }
    push_fixed(out, n, places);
    assert(out@ =~= old(out)@ + fraction_text(grains as nat));
}

/// Format grains as a plain decimal XUS string, without separators.
pub fn grains_to_xus(grains: u128) -> (s: String)
    ensures
        s@ == plain_text(grains as nat),
{
    let mut s = String::new();
    push_decimal(&mut s, grains / GRAINS_PER_XUS);
    push_fraction(&mut s, grains);
    assert(s@ =~= plain_text(grains as nat));
    s
}

/// The whole part that is displayed: it stops at the largest 64-bit value.
pub open spec fn displayed_whole(grains: nat) -> nat {
    let w = grains / 100_000_000;
    if w > u64::MAX {
        u64::MAX as nat
    } else {
        w
    }
}

/// An amount for display: the whole part grouped, the fraction as in the plain form.
pub open spec fn display_text(grains: nat) -> Seq<char> {
    grouped(displayed_whole(grains)) + fraction_text(grains)
}

/// Format grains as XUS for display: thousands-separated whole part, trailing zeros
/// trimmed. This is the one formatter every on-screen XUS figure goes through.
pub fn fmt_xus(grains: u128) -> (s: String)
    ensures
        s@ == display_text(grains as nat),
{
    let whole: u128 = grains / GRAINS_PER_XUS;
    let shown: u128 = if whole > u64::MAX as u128 {
        u64::MAX as u128
    } else {
        whole
    };
    let mut s = String::new();
    push_grouped(&mut s, shown);
    push_fraction(&mut s, grains);
    assert(s@ =~= display_text(grains as nat));
    s
}

/// A number written in decimal reads back as itself.
pub proof fn lemma_number_of_decimal(n: nat)
    ensures
        number(text::decimal(n)) == n,
        all_digits(text::decimal(n)),
        text::decimal(n).len() > 0,
    decreases n,
{
    let d = text::digits();
    let s = text::decimal(n);
    assert(d[0] == '0' && d[1] == '1' && d[2] == '2' && d[3] == '3' && d[4] == '4' && d[5] == '5'
        && d[6] == '6' && d[7] == '7' && d[8] == '8' && d[9] == '9');
    if n < 10 {
        assert(s.drop_last() =~= Seq::<char>::empty());
        assert(s.last() == d[n as int]);
        assert(number(s.drop_last()) == 0);
    } else {
        lemma_number_of_decimal(n / 10);
        assert(s.drop_last() =~= text::decimal(n / 10));
        assert(s.last() == d[(n % 10) as int]);
        assert forall|i: int| 0 <= i < s.len() implies '0' <= #[trigger] s[i] <= '9' by {
            if i < s.len() - 1 {
                assert(s.drop_last()[i] == s[i]);
            }
        }
    }
}

/// The places of a number read back as the number, scaled by those left out.
proof fn lemma_number_of_fixed(n: nat, places: nat)
    requires
        n < ten_to(places),
    ensures
        number(fixed_digits(n, places)) == n,
        all_digits(fixed_digits(n, places)),
        fixed_digits(n, places).len() == places,
    decreases places,
{
    if places > 0 {
        let d = text::digits();
        let s = fixed_digits(n, places);
        assert(d[0] == '0' && d[1] == '1' && d[2] == '2' && d[3] == '3' && d[4] == '4' && d[5]
            == '5' && d[6] == '6' && d[7] == '7' && d[8] == '8' && d[9] == '9');
        assert(n / 10 < ten_to((places - 1) as nat));
        lemma_number_of_fixed(n / 10, (places - 1) as nat);
        assert(s.drop_last() =~= fixed_digits(n / 10, (places - 1) as nat));
        assert(s.last() == d[(n % 10) as int]);
        assert forall|i: int| 0 <= i < s.len() implies '0' <= #[trigger] s[i] <= '9' by {
            if i < s.len() - 1 {
                assert(s.drop_last()[i] == s[i]);
            }
        }
    }
}

/// Leaving trailing zeros out of a fraction does not change what it counts for.
proof fn lemma_trimmed_fraction(n: nat, places: nat)
    requires
        0 < n < ten_to(places),
        places <= 8,
    ensures
        ({
            let t = without_zeros(fixed_digits(n, places));
            &&& 0 < t.len() <= places
            &&& all_digits(t)
            &&& number(t) * ten_to((8 - t.len()) as nat) == n * ten_to((8 - places) as nat)
        }),
    decreases places,
{
    if places == 0 {
        assert(ten_to(0) == 1);
        assert(false);
    }
    lemma_without_zeros_step(n, places);
    lemma_number_of_fixed(n, places);
    if n % 10 == 0 {
        assert(n / 10 < ten_to((places - 1) as nat));
        lemma_trimmed_fraction(n / 10, (places - 1) as nat);
        let k = (8 - places) as nat;
        assert(ten_to((8 - (places - 1)) as nat) == 10 * ten_to(k));
        assert((n / 10) * (10 * ten_to(k)) == n * ten_to(k)) by (nonlinear_arith)
            requires
                n % 10 == 0,
        ;
    }
}

/// Text of digits and points has no white space to trim.
proof fn lemma_nothing_to_trim(s: Seq<char>)
    requires
        forall|i: int| 0 <= i < s.len() ==> '0' <= #[trigger] s[i] <= '9' || s[i] == '.',
    ensures
        text::trim(s) == s,
{
    if s.len() > 0 {
        assert('0' <= s[0] <= '9' || s[0] == '.');
        assert('0' <= s[s.len() - 1] <= '9' || s[s.len() - 1] == '.');
        assert(!text::is_space(s[0]));
        assert(!text::is_space(s.last()));
    }
}

/// The plain form of an amount parses back to the amount, for every amount.
pub proof fn law_plain_amounts_parse_back(grains: u128)
    ensures
        parsed(plain_text(grains as nat)) == Some(grains),
{
    let w = text::decimal((grains / 100_000_000) as nat);
    let f = (grains % 100_000_000) as nat;
    let s = plain_text(grains as nat);
    lemma_number_of_decimal((grains / 100_000_000) as nat);
    lemma_ten_to_values();
    reveal_strlit(".");
    if f == 0 {
        assert(s =~= w);
        assert forall|i: int| 0 <= i < s.len() implies '0' <= #[trigger] s[i] <= '9' || s[i]
            == '.' by {}
        lemma_nothing_to_trim(s);
        lemma_point_unique(s, s.len() as int);
        assert(whole_part(s) =~= w);
        assert(fraction_part(s) =~= Seq::<char>::empty());
        assert(number(fraction_part(s)) == 0);
        assert(0 * ten_to(8) == 0);
    } else {
        lemma_fixed_digits(f, 8);
        lemma_trimmed_fraction(f, 8);
        let t = without_zeros(eight_digits(f));
        assert("."@ =~= seq!['.']);
        assert(s =~= w + (seq!['.'] + t));
        assert forall|i: int| 0 <= i < s.len() implies '0' <= #[trigger] s[i] <= '9' || s[i]
            == '.' by {
            if i < w.len() {
                assert(s[i] == w[i]);
            } else if i > w.len() {
                assert(s[i] == t[i - w.len() - 1]);
            }
        }
        lemma_nothing_to_trim(s);
        assert forall|i: int| 0 <= i < w.len() implies #[trigger] s[i] != '.' by {
            assert(s[i] == w[i]);
        }
        lemma_point_unique(s, w.len() as int);
        assert(whole_part(s) =~= w);
        assert(fraction_part(s) =~= t);
        let unit = ten_to(0);
        assert(f * unit == f) by (nonlinear_arith)
            requires
                unit == 1,
        ;
        assert(amount_grains(s) == (grains / 100_000_000) * 100_000_000 + f);
    }
}

/// A text without the separators between its groups of digits.
pub open spec fn without_separators(s: Seq<char>) -> Seq<char> {
    s.filter(|c: char| c != ',')
}

proof fn lemma_no_separators(s: Seq<char>)
    requires
        forall|i: int| 0 <= i < s.len() ==> #[trigger] s[i] != ',',
    ensures
        without_separators(s) == s,
    decreases s.len(),
{
    reveal(Seq::filter);
    if s.len() > 0 {
        let d = s.drop_last();
        assert forall|i: int| 0 <= i < d.len() implies #[trigger] d[i] != ',' by {
            assert(d[i] == s[i]);
        }
        lemma_no_separators(d);
        assert(s[s.len() - 1] != ',');
        assert(d.push(s.last()) =~= s);
    }
}

proof fn lemma_separators_between(high: Seq<char>, low: Seq<char>)
    ensures
        without_separators(high + ","@ + low) == without_separators(high) + without_separators(
            low,
        ),
{
    let f = |c: char| c != ',';
    let sep = ","@;
    assert(sep.filter(f) =~= Seq::<char>::empty()) by {
        reveal_with_fuel(Seq::filter, 2);
        reveal_strlit(",");
        assert(sep.last() == ',');
        assert(sep.drop_last() =~= Seq::<char>::empty());
    }
    Seq::filter_distributes_over_add(high + sep, low, f);
    Seq::filter_distributes_over_add(high, sep, f);
    assert(high.filter(f) + sep.filter(f) =~= high.filter(f));
}

/// Grouping adds separators and nothing else: without them the digits of the number are left.
pub proof fn law_grouping_only_adds_separators(n: nat)
    ensures
        without_separators(grouped(n)) == text::decimal(n),
    decreases n,
{
    if n < 1000 {
        lemma_number_of_decimal(n);
        lemma_no_separators(text::decimal(n));
    } else {
        let (q, r) = (n / 1000, n % 1000);
        law_grouping_only_adds_separators(q);
        lemma_ten_to_values();
        lemma_fixed_digits(r, 3);
        lemma_number_of_fixed(r, 3);
        let low = fixed_digits(r, 3);
        lemma_no_separators(low);
        lemma_separators_between(grouped(q), low);
        lemma_last_places(n);
    }
}

/// The last three places of a number stand behind the rest of it.
proof fn lemma_last_places(n: nat)
    requires
        n >= 1000,
    ensures
        text::decimal(n) == text::decimal(n / 1000) + fixed_digits(n % 1000, 3),
{
    let (q, r) = (n / 1000, n % 1000);
    assert(n / 10 / 10 / 10 == q);
    assert(n / 10 / 10 % 10 == r / 10 / 10 % 10);
    assert(n / 10 % 10 == r / 10 % 10);
    assert(n % 10 == r % 10);
    reveal_with_fuel(text::decimal, 4);
    reveal_with_fuel(fixed_digits, 4);
    assert(text::decimal(n) =~= text::decimal(q) + fixed_digits(r, 3));
}

/// Without its separators an amount on display is the whole part that is displayed and the
/// fraction. That is the plain form wherever the whole part fits in 64 bits; a larger one
/// stops there.
pub proof fn law_display_only_adds_separators(grains: nat)
    ensures
        without_separators(display_text(grains)) == text::decimal(displayed_whole(grains))
            + fraction_text(grains),
        grains / 100_000_000 <= u64::MAX ==> without_separators(display_text(grains))
            == plain_text(grains),
{
    law_grouping_only_adds_separators(displayed_whole(grains));
    let rest = fraction_text(grains);
    let f = (grains % 100_000_000) as nat;
    if f > 0 {
        lemma_ten_to_values();
        lemma_fixed_digits(f, 8);
        lemma_trimmed_fraction(f, 8);
        reveal_strlit(".");
        let t = without_zeros(eight_digits(f));
        assert("."@ =~= seq!['.']);
        assert forall|i: int| 0 <= i < rest.len() implies #[trigger] rest[i] != ',' by {
            if i > 0 {
                assert(rest[i] == t[i - 1]);
            }
        }
    }
    lemma_no_separators(rest);
    Seq::filter_distributes_over_add(
        grouped(displayed_whole(grains)),
        rest,
        |c: char| c != ',',
    );
}

/// Digits are read place after place, ten times what came before and the digit.
pub proof fn law_digits_are_read_place_after_place(s: Seq<char>, c: char, n: nat)
    requires
        '0' <= c <= '9',
    ensures
        number(Seq::empty()) == 0,
        number(s.push(c)) == 10 * number(s) + (c as u32 - '0' as u32),
        ten_to(0) == 1,
        ten_to(n + 1) == 10 * ten_to(n),
{
    assert(s.push(c).drop_last() =~= s);
}

/// A text of digits and at most one point among them parses as the amount it writes: the
/// digits before the point count XUS, and up to eight after it count its parts, whether or
/// not some of them are idle zeros. Only what does not fit is refused.
pub proof fn law_an_amount_is_its_digits(w: Seq<char>, f: Seq<char>)
    requires
        w.len() > 0,
        all_digits(w),
        all_digits(f),
        f.len() <= 8,
    ensures
        ({
            let n = number(w) * 100_000_000 + number(f) * ten_to((8 - f.len()) as nat);
            &&& parsed(w + seq!['.'] + f) == if n <= u128::MAX {
                Some(n as u128)
            } else {
                None
            }
        }),
        parsed(w) == if number(w) * 100_000_000 <= u128::MAX {
            Some((number(w) * 100_000_000) as u128)
        } else {
            None
        },
{
    let s = w + seq!['.'] + f;
    assert forall|i: int| 0 <= i < s.len() implies '0' <= #[trigger] s[i] <= '9' || s[i] == '.' by {
        if i < w.len() {
            assert(s[i] == w[i]);
        } else if i > w.len() {
            assert(s[i] == f[i - w.len() - 1]);
        }
    }
    lemma_nothing_to_trim(s);
    assert forall|i: int| 0 <= i < w.len() implies #[trigger] s[i] != '.' by {
        assert(s[i] == w[i]);
    }
    lemma_point_unique(s, w.len() as int);
    assert(whole_part(s) =~= w);
    assert(fraction_part(s) =~= f);
    lemma_nothing_to_trim(w);
    lemma_point_unique(w, w.len() as int);
    assert(whole_part(w) =~= w);
    assert(fraction_part(w) =~= Seq::<char>::empty());
    assert(number(Seq::<char>::empty()) == 0);
    assert(0 * ten_to(8) == 0) by (nonlinear_arith);
}

/// Nothing else parses: a text that does is, without the white space around it, digits
/// alone, or digits, a point, and at most eight digits.
pub proof fn law_only_amounts_parse(s: Seq<char>)
    requires
        parsed(s) is Some,
    ensures
        ({
            let t = text::trim(s);
            &&& t.len() > 0
            &&& '0' <= t[0] <= '9'
            &&& all_digits(t) || exists|at: int|
                {
                    &&& 0 < at < t.len() <= at + 9
                    &&& t[at] == '.'
                    &&& all_digits(#[trigger] t.take(at))
                    &&& all_digits(t.skip(at + 1))
                }
        }),
{
    let t = text::trim(s);
    lemma_point_at(t);
    let at = point_at(t) as int;
    assert(whole_part(t)[0] == t[0]);
    if at < t.len() {
        assert(all_digits(t.take(at)));
    } else {
        assert(t.take(at) =~= t);
    }
}

/// The plain form of an amount has no idle zero: a whole amount is digits alone, and any
/// other ends in a digit that is not zero, behind a point and at most eight places.
pub proof fn law_the_plain_form_has_no_idle_zero(grains: nat)
    ensures
        grains % 100_000_000 == 0 ==> all_digits(plain_text(grains)),
        grains % 100_000_000 != 0 ==> {
            let s = plain_text(grains);
            let n = text::decimal(grains / 100_000_000).len();
            &&& s.last() != '0'
            &&& n < s.len() - 1 <= n + 8
            &&& s[n as int] == '.'
        },
        grains >= 1_000_000_000 ==> plain_text(grains)[0] != '0',
{
    let w = text::decimal(grains / 100_000_000);
    let f = (grains % 100_000_000) as nat;
    lemma_number_of_decimal(grains / 100_000_000);
    if f == 0 {
        assert(plain_text(grains) =~= w);
    } else {
        lemma_ten_to_values();
        lemma_fixed_digits(f, 8);
        lemma_trimmed_fraction(f, 8);
        reveal_strlit(".");
        assert("."@ =~= seq!['.']);
        let t = without_zeros(eight_digits(f));
        lemma_without_zeros_last(eight_digits(f));
        assert(plain_text(grains).last() == t.last());
    }
    lemma_decimal_leads(grains / 100_000_000);
    assert(plain_text(grains)[0] == w[0]);
}

proof fn lemma_without_zeros_last(s: Seq<char>)
    ensures
        without_zeros(s).len() > 0 ==> without_zeros(s).last() != '0',
    decreases s.len(),
{
    if s.len() > 0 && s.last() == '0' {
        lemma_without_zeros_last(s.drop_last());
    }
}

proof fn lemma_decimal_leads(n: nat)
    ensures
        text::decimal(n).len() > 0,
        n > 0 ==> text::decimal(n)[0] != '0',
    decreases n,
{
    let d = text::digits();
    assert(d[0] == '0' && d[1] != '0' && d[2] != '0' && d[3] != '0' && d[4] != '0' && d[5] != '0'
        && d[6] != '0' && d[7] != '0' && d[8] != '0' && d[9] != '0');
    if n >= 10 {
        lemma_decimal_leads(n / 10);
        assert(text::decimal(n)[0] == text::decimal(n / 10)[0]);
    }
}

/// The separators stand before every third digit, counted from the end, and nowhere else.
pub proof fn law_separators_stand_every_third_digit(n: nat, i: int)
    requires
        0 <= i < grouped(n).len(),
    ensures
        grouped(n)[grouped(n).len() - 1 - i] == ',' <==> i % 4 == 3,
    decreases n,
{
    let g = grouped(n);
    if n < 1000 {
        lemma_number_of_decimal(n);
        lemma_ten_to_values();
        lemma_fixed_digits(n, 3);
        assert('0' <= g[g.len() - 1 - i] <= '9');
    } else {
        let h = grouped(n / 1000);
        let low = text::decimal_padded(n % 1000, 3);
        lemma_ten_to_values();
        lemma_fixed_digits(n % 1000, 3);
        lemma_number_of_fixed(n % 1000, 3);
        reveal_strlit(",");
        assert(","@ =~= seq![',']);
        assert(low.len() == 3);
        if i < 3 {
            assert(g[g.len() - 1 - i] == low[2 - i]);
            assert('0' <= low[2 - i] <= '9');
        } else if i == 3 {
            assert(g[g.len() - 1 - i] == ',');
        } else {
            law_separators_stand_every_third_digit(n / 1000, i - 4);
            assert(g[g.len() - 1 - i] == h[h.len() - 1 - (i - 4)]);
        }
    }
}

/// What is displayed is the whole part, held at the largest 64-bit number.
pub proof fn law_the_displayed_whole_is_held(grains: nat)
    ensures
        displayed_whole(grains) <= u64::MAX,
        displayed_whole(grains) * 100_000_000 <= grains,
        grains < (u64::MAX as nat + 1) * 100_000_000 ==> grains < (displayed_whole(grains) + 1)
            * 100_000_000,
        grains >= (u64::MAX as nat) * 100_000_000 ==> displayed_whole(grains) == u64::MAX,
{
}

/// White space around an amount changes nothing.
pub proof fn law_white_space_around_an_amount_is_ignored(s: Seq<char>)
    ensures
        parsed(s) == parsed(text::trim(s)),
{
    text::law_trimming_again_takes_nothing(s);
}

} // verus!
