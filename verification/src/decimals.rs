//! Numbers as text with a fixed count of decimals.

use crate::double;
use crate::double::Double;
use crate::text;
use vstd::arithmetic::div_mod::*;
use vstd::arithmetic::power2::*;
use vstd::prelude::*;
use vstd::string::*;

verus! {

/// Ten to the power of `places`.
pub open spec fn tens(places: nat) -> nat
    decreases places,
{
    if places == 0 {
        1
    } else {
        10 * tens((places - 1) as nat)
    }
}

/// The last `width` decimal digits of `n`, zeros among them.
pub open spec fn padded(n: nat, width: nat) -> Seq<char>
    decreases width,
{
    if width == 0 {
        seq![]
    } else {
        padded(n / 10, (width - 1) as nat).push(text::digit((n % 10) as int))
    }
}

/// The number of which `n` counts the parts, `tens(places)` of them to one, with that many decimals.
pub open spec fn with_decimals(n: nat, places: nat) -> Seq<char> {
    text::decimal(n / tens(places)) + "."@ + padded(n % tens(places), places)
}

/// How many parts a number has, `tens(places)` of them to one, to the nearest; of two counts that
/// are as near, the even one. The sign is left out.
pub open spec fn parts(d: Double, places: nat) -> nat {
    let v = d.significand() * tens(places);
    if d.exponent() >= 0 {
        v * pow2(d.exponent() as nat)
    } else {
        double::nearest_quotient(v, pow2((-d.exponent()) as nat))
    }
}

/// A number with the given count of decimals, to the nearest such number.
pub open spec fn fixed(d: Double, places: nat) -> Seq<char> {
    if d.is_nan() {
        "NaN"@
    } else {
        (if d.negative() {
            "-"@
        } else {
            seq![]
        }) + (if d.is_infinite() {
            "inf"@
        } else {
            with_decimals(parts(d, places), places)
        })
    }
}

/// What is written with decimals can be read back from its digits: those before the point and those
/// behind it, side by side, spell the count of parts.
pub proof fn law_decimals_lose_nothing(n: nat, places: nat)
    ensures
        padded(n % tens(places), places).len() == places,
        text::digits_value(
            text::decimal(n / tens(places)) + padded(n % tens(places), places),
            10,
        ) == Some(n as int),
{
    let unit = tens(places);
    lemma_tens_are_positive(places);
    text::lemma_numeral_value(n / unit);
    lemma_fundamental_div_mod(n as int, unit as int);
    lemma_padded(text::decimal(n / unit), n / unit, n % unit, places);
    assert((n / unit) * unit == unit * (n / unit)) by (nonlinear_arith);
}

proof fn lemma_tens_are_positive(places: nat)
    ensures
        tens(places) >= 1,
    decreases places,
{
    if places > 0 {
        lemma_tens_are_positive((places - 1) as nat);
    }
}

/// Digits behind others spell what those spell, moved up, and what they spell themselves.
proof fn lemma_padded(front: Seq<char>, high: nat, n: nat, width: nat)
    requires
        text::digits_value(front, 10) == Some(high as int),
        n < tens(width),
    ensures
        padded(n, width).len() == width,
        text::digits_value(front + padded(n, width), 10) == Some((high * tens(width) + n) as int),
    decreases width,
{
    let all = front + padded(n, width);
    if width == 0 {
        assert(all =~= front);
        assert(high * tens(0) == high) by (nonlinear_arith)
            requires
                tens(0) == 1,
        ;
    } else {
        let less = (width - 1) as nat;
        let t = tens(less);
        let last = text::digit((n % 10) as int);
        lemma_padded(front, high, n / 10, less);
        assert(all.drop_last() =~= front + padded(n / 10, less));
        assert(all.last() == last);
        assert(text::digit_value(last, 10) == Some((n % 10) as int));
        assert((high * t + n / 10) * 10 + n % 10 == high * (10 * t) + n) by (nonlinear_arith)
            requires
                n == 10 * (n / 10) + n % 10,
        ;
    }
}

/// Appends the last `width` decimal digits of `n`.
fn push_padded(out: &mut String, n: u64, width: u64)
    ensures
        final(out)@ == old(out)@ + padded(n as nat, width as nat),
    decreases width,
{
    if width > 0 {
        push_padded(out, n / 10, width - 1);
        let d: u8 = (n % 10) as u8;
        out.push((48u8 + d) as char);
    }
    assert(out@ =~= old(out)@ + padded(n as nat, width as nat));
}

/// Appends milliseconds as seconds with three decimals.
pub fn push_millis(out: &mut String, ms: u64)
    ensures
        final(out)@ == old(out)@ + with_decimals(ms as nat, 3),
{
    proof {
        reveal_with_fuel(tens, 4);
        assert(tens(3) == 1000);
    }
    text::push_decimal(out, ms / 1000);
    out.append(".");
    push_padded(out, ms % 1000, 3);
    assert(out@ =~= old(out)@ + with_decimals(ms as nat, 3));
}

/// The values of the decimal digits of `n`.
spec fn numeral(n: nat) -> Seq<u8>
    decreases n,
{
    if n < 10 {
        seq![n as u8]
    } else {
        numeral(n / 10).push((n % 10) as u8)
    }
}

fn numeral_of(n: u64) -> (digits: Vec<u8>)
    ensures
        digits@ == numeral(n as nat),
    decreases n,
{
    let mut digits: Vec<u8> = if n < 10 {
        Vec::new()
    } else {
        numeral_of(n / 10)
    };
    digits.push((n % 10) as u8);
    assert(digits@ =~= numeral(n as nat));
    digits
}

proof fn lemma_numeral(n: nat)
    ensures
        numeral(n).len() > 0,
        numeral(n).last() == n % 10,
        n >= 10 ==> numeral(n).drop_last() == numeral(n / 10),
        n < 10 <==> numeral(n).len() == 1,
    decreases n,
{
    if n >= 10 {
        lemma_numeral(n / 10);
        assert(numeral(n).drop_last() =~= numeral(n / 10));
    }
}

/// Appends the digits of twice `n` and `carry` more, `n` being what the first `len` digits spell.
fn push_twice(out: &mut Vec<u8>, digits: &Vec<u8>, len: usize, carry: u8, Ghost(n): Ghost<nat>)
    requires
        len <= digits@.len(),
        digits@.take(len as int) == numeral(n),
        carry <= 1,
    ensures
        final(out)@ == old(out)@ + numeral(2 * n + carry as nat),
    decreases len,
{
    proof {
        lemma_numeral(n);
        assert(digits@.take(len as int).drop_last() =~= digits@.take(len - 1));
        assert(digits@.take(len as int).last() == digits@[len - 1]);
    }
    let twice: u8 = 2 * digits[len - 1] + carry;
    let ghost m: nat = 2 * n + carry as nat;
    if len > 1 {
        push_twice(out, digits, len - 1, twice / 10, Ghost(n / 10));
        proof {
            assert(m / 10 == 2 * (n / 10) + (twice / 10) as nat);
            assert(m % 10 == twice % 10);
            assert(m >= 10);
        }
    } else if twice >= 10 {
        out.push(twice / 10);
        assert(m == twice);
        assert(numeral(m / 10) =~= seq![(m / 10) as u8]);
    }
    out.push(twice % 10);
    assert(out@ =~= old(out)@ + numeral(m));
}

/// Appends the numeral that `digits` begins with.
fn push_numeral(out: &mut String, digits: &Vec<u8>, len: usize, Ghost(n): Ghost<nat>)
    requires
        len <= digits@.len(),
        digits@.take(len as int) == numeral(n),
    ensures
        final(out)@ == old(out)@ + text::decimal(n),
    decreases len,
{
    proof {
        lemma_numeral(n);
        assert(digits@.take(len as int).drop_last() =~= digits@.take(len - 1));
        assert(digits@.take(len as int).last() == digits@[len - 1]);
    }
    if len > 1 {
        push_numeral(out, digits, len - 1, Ghost(n / 10));
    }
    out.push((48u8 + digits[len - 1]) as char);
    assert(out@ =~= old(out)@ + text::decimal(n));
}

/// Appends the numeral of `n` times two to the power of `times`.
fn push_shifted(out: &mut String, n: u64, times: u64)
    ensures
        final(out)@ == old(out)@ + text::decimal(n as nat * pow2(times as nat)),
{
    let mut digits: Vec<u8> = numeral_of(n);
    let ghost mut v: nat = n as nat;
    let mut i: u64 = 0;
    proof {
        lemma2_to64();
    }
    while i < times
        invariant
            i <= times,
            v == n as nat * pow2(i as nat),
            digits@ == numeral(v),
        decreases times - i,
    {
        let mut next: Vec<u8> = Vec::new();
        assert(digits@.take(digits@.len() as int) =~= digits@);
        push_twice(&mut next, &digits, digits.len(), 0, Ghost(v));
        proof {
            lemma_pow2_unfold((i + 1) as nat);
            assert(n as nat * (2 * pow2(i as nat)) == 2 * (n as nat * pow2(i as nat)))
                by (nonlinear_arith);
            v = 2 * v;
            assert(next@ =~= numeral(v));
        }
        digits = next;
        i += 1;
    }
    assert(digits@.take(digits@.len() as int) =~= digits@);
    push_numeral(out, &digits, digits.len(), Ghost(v));
}

/// Powers of ten up to the 19th fit in 64 bits.
proof fn lemma_tens(places: nat)
    requires
        places <= 19,
    ensures
        1 <= tens(places) <= 10_000_000_000_000_000_000,
{
    reveal_with_fuel(tens, 20);
}

fn ten_to(places: u64) -> (power: u64)
    requires
        places <= 19,
    ensures
        power == tens(places as nat),
    decreases places,
{
    proof {
        lemma_tens(places as nat);
    }
    if places == 0 {
        1
    } else {
        10 * ten_to(places - 1)
    }
}

/// Two to the power of `times`.
fn two_to(times: u64) -> (power: u128)
    requires
        times < 120,
    ensures
        power == pow2(times as nat),
        power <= 0x80_0000_0000_0000_0000_0000_0000_0000,
    decreases times,
{
    proof {
        lemma2_to64();
    }
    if times == 0 {
        1
    } else {
        let half: u128 = two_to(times - 1);
        proof {
            lemma_pow2_unfold(times as nat);
            double::lemma_pow2_120();
            lemma_pow2_strictly_increases(times as nat, 120);
            lemma_pow2_unfold(120);
            if times < 119 {
                lemma_pow2_strictly_increases(times as nat, 119);
            }
        }
        2 * half
    }
}

/// The integer nearest to `v` divided by two to the power of `times`.
fn round_down(v: u128, times: u64) -> (quotient: u128)
    requires
        v < 0x40_0000_0000_0000_0000_0000_0000_0000,
        times > 0,
    ensures
        quotient == double::nearest_quotient(v as nat, pow2(times as nat)),
        quotient <= v,
{
    if times >= 120 {
        proof {
            double::lemma_pow2_120();
            if times > 120 {
                lemma_pow2_strictly_increases(120, times as nat);
            }
            lemma_small_mod(v as nat, pow2(times as nat));
            lemma_basic_div(v as int, pow2(times as nat) as int);
        }
        return 0;
    }
    let unit: u128 = two_to(times);
    proof {
        lemma_pow2_pos(times as nat);
        lemma_pow2_unfold(times as nat);
        lemma_pow2_pos((times - 1) as nat);
        lemma_fundamental_div_mod(v as int, unit as int);
        assert(2 * (v as nat / unit as nat) + v as nat % unit as nat <= v) by (nonlinear_arith)
            requires
                v as nat == unit as nat * (v as nat / unit as nat) + v as nat % unit as nat,
                unit >= 2,
        ;
    }
    let below: u128 = v / unit;
    let rest: u128 = v % unit;
    if 2 * rest > unit || (2 * rest == unit && below % 2 == 1) {
        below + 1
    } else {
        below
    }
}

/// Appends a number with the given count of decimals.
pub fn push_fixed(out: &mut String, d: Double, places: u64)
    requires
        0 < places <= 19,
    ensures
        final(out)@ == old(out)@ + fixed(d, places as nat),
{
    let magnitude: u64 = d.bits % double::SIGN;
    if magnitude > double::INFINITY {
        out.append("NaN");
        return;
    }
    if d.bits >= double::SIGN {
        out.append("-");
    }
    let ghost signed = out@;
    assert(signed =~= old(out)@ + (if d.negative() {
        "-"@
    } else {
        seq![]
    }));
    if magnitude == double::INFINITY {
        out.append("inf");
        assert(out@ =~= old(out)@ + fixed(d, places as nat));
        return;
    }
    let field: u64 = magnitude / double::HIDDEN;
    let fraction: u64 = magnitude % double::HIDDEN;
    let significand: u64 = if field == 0 {
        fraction
    } else {
        fraction + double::HIDDEN
    };
    let one: u64 = ten_to(places);
    let ghost n = parts(d, places as nat);
    let ghost s = significand as nat;
    let ghost t = one as nat;
    proof {
        lemma_tens(places as nat);
        assert(s == d.significand());
    }
    if field >= 1075 {
        let times: u64 = field - 1075;
        proof {
            let p = pow2(times as nat);
            assert((s * t) * p == (s * p) * t) by (nonlinear_arith);
            lemma_div_by_multiple((s * p) as int, t as int);
            lemma_mod_multiples_basic((s * p) as int, t as int);
        }
        push_shifted(out, significand, times);
        out.append(".");
        push_padded(out, 0, places);
    } else {
        let times: u64 = if field == 0 {
            1074
        } else {
            1075 - field
        };
        proof {
            assert(s * t <= 0x20_0000_0000_0000 * 10_000_000_000_000_000_000) by (nonlinear_arith)
                requires
                    s <= 0x20_0000_0000_0000,
                    t <= 10_000_000_000_000_000_000,
            ;
        }
        let count: u128 = round_down(significand as u128 * one as u128, times);
        proof {
            lemma_div_is_ordered(count as int, (s * t) as int, t as int);
            lemma_div_by_multiple(s as int, t as int);
        }
        text::push_decimal(out, (count / one as u128) as u64);
        out.append(".");
        push_padded(out, (count % one as u128) as u64, places);
    }
    assert(out@ =~= signed + with_decimals(n, places as nat));
    assert(out@ =~= old(out)@ + fixed(d, places as nat));
}

/// The text of a finite number is that of the nearest count of parts: no other count is nearer, and
/// of two that are as near it is the even one. A number below zero has a minus sign in front.
pub proof fn law_text_is_that_of_the_nearest(d: Double, places: nat, other: nat)
    requires
        !d.is_nan(),
        !d.is_infinite(),
        d.exponent() < 0,
    ensures
        ({
            let unit = pow2((-d.exponent()) as nat) as int;
            let v = (d.significand() * tens(places)) as int;
            let n = parts(d, places);
            &&& distance(n * unit, v) <= distance(other * unit, v)
            &&& 2 * distance(n * unit, v) <= unit
            &&& 2 * distance(n * unit, v) == unit ==> n % 2 == 0
            &&& !d.negative() ==> fixed(d, places) == text::decimal(n / tens(places)) + "."@
                + padded(n % tens(places), places)
            &&& d.negative() ==> fixed(d, places) == "-"@ + (text::decimal(n / tens(places)) + "."@
                + padded(n % tens(places), places))
        }),
{
    let unit = pow2((-d.exponent()) as nat) as int;
    lemma_pow2_pos((-d.exponent()) as nat);
    let v = (d.significand() * tens(places)) as int;
    let n = parts(d, places) as int;
    lemma_nearest(v, unit, n, other as int);
    lemma_pow2_even((-d.exponent()) as nat);
    assert(Seq::<char>::empty() + with_decimals(n as nat, places) =~= with_decimals(
        n as nat,
        places,
    ));
}

/// The distance of two numbers.
pub open spec fn distance(a: int, b: int) -> int {
    if a < b {
        b - a
    } else {
        a - b
    }
}

proof fn lemma_pow2_even(k: nat)
    requires
        k > 0,
    ensures
        pow2(k) % 2 == 0,
{
    lemma_pow2_unfold(k);
}

proof fn lemma_nearest(v: int, unit: int, n: int, other: int)
    requires
        v >= 0,
        unit >= 1,
        n == double::nearest_quotient(v as nat, unit as nat),
    ensures
        distance(n * unit, v) <= distance(other * unit, v),
        2 * distance(n * unit, v) <= unit,
        2 * distance(n * unit, v) == unit ==> n % 2 == 0,
{
    let below = v / unit;
    let rest = v % unit;
    lemma_fundamental_div_mod(v, unit);
    assert((below + 1) * unit == unit * below + unit) by (nonlinear_arith);
    assert(below * unit == unit * below) by (nonlinear_arith);
    if other <= below {
        assert(other * unit <= below * unit) by (nonlinear_arith)
            requires
                other <= below,
                unit >= 1,
        ;
    } else {
        assert(other * unit >= (below + 1) * unit) by (nonlinear_arith)
            requires
                other >= below + 1,
                unit >= 1,
        ;
    }
}

/// A number without a fraction keeps all of its digits, and its decimals are zeros.
pub proof fn law_whole_number_is_kept(d: Double, places: nat)
    requires
        !d.is_nan(),
        !d.is_infinite(),
        !d.negative(),
        d.exponent() >= 0,
    ensures
        fixed(d, places) == text::decimal(d.significand() * pow2(d.exponent() as nat)) + "."@
            + padded(0, places),
{
    let s = d.significand();
    let p = pow2(d.exponent() as nat);
    let t = tens(places);
    lemma_tens_are_positive(places);
    assert((s * t) * p == (s * p) * t) by (nonlinear_arith);
    lemma_div_by_multiple((s * p) as int, t as int);
    lemma_mod_multiples_basic((s * p) as int, t as int);
    assert(Seq::<char>::empty() + with_decimals(parts(d, places), places) =~= with_decimals(
        parts(d, places),
        places,
    ));
}

/// What is no number is written as such, and infinity with its sign.
pub proof fn law_infinity_has_a_name(d: Double, places: nat)
    ensures
        d.is_nan() ==> fixed(d, places) == "NaN"@,
        d.bits == 0x7ff0_0000_0000_0000 ==> fixed(d, places) == "inf"@,
        d.bits == 0xfff0_0000_0000_0000 ==> fixed(d, places) == "-"@ + "inf"@,
{
    assert(Seq::<char>::empty() + "inf"@ =~= "inf"@);
}

/// A fixed count of digits is a fixed count of digits: zeros are in front, and the last digits of a
/// number do not depend on what is in front of them.
pub proof fn law_padding_is_zeros(n: nat, width: nat)
    ensures
        padded(n, width).len() == width,
        padded(n, width) == padded(n % tens(width), width),
        forall|i: int| 0 <= i < width ==> '0' <= #[trigger] padded(n, width)[i] <= '9',
        padded(0, width) == Seq::new(width, |i: int| '0'),
    decreases width,
{
    lemma_tens_are_positive(width);
    if width > 0 {
        let less = (width - 1) as nat;
        lemma_tens_are_positive(less);
        law_padding_is_zeros(n / 10, less);
        law_padding_is_zeros((n % tens(width)) / 10, less);
        let t = tens(less) as int;
        lemma_fundamental_div_mod(n as int, 10 * t);
        let q = n as int / (10 * t);
        let r = n as int % (10 * t);
        assert(n == 10 * (t * q) + r) by (nonlinear_arith)
            requires
                n == (10 * t) * q + r,
        ;
        assert(n as int / 10 == t * q + r / 10);
        assert(t * q + r / 10 == q * t + r / 10) by (nonlinear_arith);
        lemma_mod_multiples_vanish(q, r / 10, t);
        assert((q * t + r / 10) % t == (r / 10) % t) by {
            assert(q * t == t * q) by (nonlinear_arith);
        }
        assert(n as int % 10 == r % 10);
        assert(padded(n, width) =~= padded(n % tens(width), width));
        assert forall|i: int| 0 <= i < width implies '0' <= #[trigger] padded(n, width)[i]
            <= '9' by {
            if i < less {
                assert(padded(n, width)[i] == padded(n / 10, less)[i]);
            }
        }
        law_padding_is_zeros(0, less);
        assert(padded(0, width) =~= Seq::new(width, |i: int| '0'));
    } else {
        assert(padded(0, width) =~= Seq::new(width, |i: int| '0'));
    }
}

} // verus!
