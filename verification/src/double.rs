//! Double-precision numbers by their bit patterns.
//!
//! Sizes are scaled by factors that come from configuration files and command lines as IEEE 754
//! double-precision numbers. Such a number is held here as the 64 bits that encode it, and the few
//! operations that the scaling needs are carried out on integers.

use vstd::arithmetic::div_mod::*;
use vstd::arithmetic::mul::*;
use vstd::arithmetic::power2::*;
use vstd::prelude::*;

verus! {

/// An IEEE 754 double-precision number, given by its encoding.
#[derive(Clone, Copy, Debug, Default, PartialEq, Eq, Structural)]
pub struct Double {
    /// Sign, 11 bits of exponent and 52 bits of fraction, from the most significant bit down.
    pub bits: u64,
}

/// The encoding of one.
pub const ONE: u64 = 0x3ff0_0000_0000_0000;

/// The encoding of three tenths, as near as the format comes to it.
pub const THREE_TENTHS: u64 = 0x3fd3_3333_3333_3333;

/// The weight of the sign bit.
pub const SIGN: u64 = 0x8000_0000_0000_0000;

/// The encoding of infinity: every larger magnitude encodes no number.
pub const INFINITY: u64 = 0x7ff0_0000_0000_0000;

/// The weight of the bit that a normal number's significand has above its fraction.
pub const HIDDEN: u64 = 0x0010_0000_0000_0000;

/// Two to the power of 53: what has at most 53 bits is below it.
pub const PRECISION: u64 = 0x0020_0000_0000_0000;

impl Double {
    /// Whether the sign is minus.
    pub open spec fn negative(self) -> bool {
        self.bits >= SIGN
    }

    /// The encoding without its sign.
    pub open spec fn magnitude(self) -> int {
        self.bits as int % (SIGN as int)
    }

    /// Whether this encodes no number.
    pub open spec fn is_nan(self) -> bool {
        self.magnitude() > INFINITY
    }

    /// Whether this is one of the two infinities.
    pub open spec fn is_infinite(self) -> bool {
        self.magnitude() == INFINITY
    }

    /// The place of this number among all numbers: encodings of one sign are ordered as the
    /// integers that they are, and both zeros are at the same place.
    pub open spec fn rank(self) -> int {
        if self.negative() {
            -self.magnitude()
        } else {
            self.magnitude()
        }
    }

    /// Whether this is a number less than the number `other`.
    pub open spec fn less(self, other: Double) -> bool {
        !self.is_nan() && !other.is_nan() && self.rank() < other.rank()
    }

    /// This number brought into the range from `low` to `high`; what is no number is left alone.
    pub open spec fn clamped(self, low: Double, high: Double) -> Double {
        if self.less(low) {
            low
        } else if high.less(self) {
            high
        } else {
            self
        }
    }

    /// The number's significand: the number is this times two to the power of `exponent`.
    pub open spec fn significand(self) -> nat {
        let fraction = self.magnitude() % (HIDDEN as int);
        if self.magnitude() < HIDDEN {
            fraction as nat
        } else {
            (fraction + HIDDEN) as nat
        }
    }

    /// The power of two that the significand is scaled by.
    pub open spec fn exponent(self) -> int {
        let field = self.magnitude() / (HIDDEN as int);
        if field == 0 {
            -1074
        } else {
            field - 1075
        }
    }

    /// Whether this is a number greater than zero.
    pub fn is_positive(self) -> (yes: bool)
        ensures
            yes == (Double { bits: 0 }).less(self),
    {
        0 < self.bits && self.bits <= INFINITY
    }

    /// Whether this is a number less than the number `other`.
    pub fn less_than(self, other: Double) -> (yes: bool)
        ensures
            yes == self.less(other),
    {
        let a: u64 = self.bits % SIGN;
        let b: u64 = other.bits % SIGN;
        if a > INFINITY || b > INFINITY {
            false
        } else if self.bits >= SIGN {
            if other.bits >= SIGN {
                b < a
            } else {
                0 < a || 0 < b
            }
        } else {
            other.bits < SIGN && a < b
        }
    }

    /// This number brought into the range from `low` to `high`; what is no number is left alone.
    pub fn clamp(self, low: Double, high: Double) -> (brought: Double)
        requires
            !low.is_nan(),
            !high.is_nan(),
            low.rank() <= high.rank(),
        ensures
            brought == self.clamped(low, high),
    {
        if self.less_than(low) {
            low
        } else if high.less_than(self) {
            high
        } else {
            self
        }
    }
}

/// The distance between neighbouring numbers of 53 significant bits at the integer `v`: the
/// smallest power of two of which `v` holds less than `PRECISION`.
pub open spec fn spacing(v: nat) -> nat
    decreases v,
{
    if v < PRECISION {
        1
    } else {
        2 * spacing(v / 2)
    }
}

/// The integer that is nearest to `v` divided by `unit`; of two that are as near, the even one.
pub open spec fn nearest_quotient(v: nat, unit: nat) -> nat {
    let below = v / unit;
    let rest = v % unit;
    if 2 * rest > unit || (2 * rest == unit && below % 2 == 1) {
        below + 1
    } else {
        below
    }
}

/// The multiple of `unit` that is nearest to `v`; of two that are as near, the even multiple.
pub open spec fn nearest_multiple(v: nat, unit: nat) -> nat {
    nearest_quotient(v, unit) * unit
}

/// The integer `v` rounded to 53 significant bits, ties to even.
pub open spec fn rounded(v: nat) -> nat {
    nearest_multiple(v, spacing(v))
}

/// `n` as a double-precision number, times `factor`, cut to a whole number that is at least zero
/// and at most `usize::MAX`; zero where the product is no number.
pub open spec fn scaled(n: nat, factor: Double) -> nat {
    if factor.is_nan() || factor.negative() || n == 0 {
        0
    } else if factor.is_infinite() {
        usize::MAX as nat
    } else {
        let product = rounded(rounded(n) * factor.significand());
        let whole = if factor.exponent() >= 0 {
            product * pow2(factor.exponent() as nat)
        } else {
            product / pow2((-factor.exponent()) as nat)
        };
        if whole <= usize::MAX {
            whole
        } else {
            usize::MAX as nat
        }
    }
}

/// The even number at or just below `scaled`.
pub open spec fn scaled_even(n: nat, factor: Double) -> nat {
    (scaled(n, factor) - scaled(n, factor) % 2) as nat
}

/// Rounding moves no number beyond one that has 53 significant bits.
proof fn lemma_rounded_bound(v: nat, n: nat, k: nat)
    requires
        n <= PRECISION,
        v <= n * pow2(k),
    ensures
        rounded(v) <= n * pow2(k),
{
    lemma_spacing(v);
    lemma_spacing_divides(v, n, k);
    let unit = spacing(v);
    let top = n * pow2(k);
    let below = v / unit;
    lemma_fundamental_div_mod(v as int, unit as int);
    let most = top / unit;
    lemma_fundamental_div_mod(top as int, unit as int);
    assert(below <= most) by (nonlinear_arith)
        requires
            v == unit * below + v % unit,
            v % unit >= 0,
            v <= top,
            top == unit * most,
            unit >= 1,
    ;
    if below == most {
        assert(v % unit == 0) by (nonlinear_arith)
            requires
                v == unit * below + v % unit,
                v % unit >= 0,
                v <= top,
                top == unit * most,
                below == most,
        ;
        assert(below * unit == top) by (nonlinear_arith)
            requires
                top == unit * most,
                below == most,
        ;
    } else {
        assert((below + 1) * unit <= top) by (nonlinear_arith)
            requires
                below + 1 <= most,
                top == unit * most,
                unit >= 1,
        ;
        assert(below * unit <= (below + 1) * unit) by (nonlinear_arith)
            requires
                unit >= 1,
        ;
    }
}

/// What the spacing at `v` is.
proof fn lemma_spacing(v: nat)
    ensures
        spacing(v) >= 1,
        v < PRECISION * spacing(v),
        v >= PRECISION ==> PRECISION * spacing(v) <= 2 * v,
    decreases v,
{
    if v >= PRECISION {
        lemma_spacing(v / 2);
        if v / 2 < PRECISION {
            assert(spacing(v / 2) == 1);
        }
    }
}

/// The spacing at a number divides every larger number that has 53 significant bits.
proof fn lemma_spacing_divides(v: nat, n: nat, k: nat)
    requires
        n <= PRECISION,
        v <= n * pow2(k),
    ensures
        (n * pow2(k)) % spacing(v) == 0,
    decreases v,
{
    lemma_spacing(v);
    if v < PRECISION {
    } else if k == 0 {
        lemma2_to64();
        assert(n * pow2(0) == n) by (nonlinear_arith)
            requires
                pow2(0) == 1,
        ;
        assert(spacing(v / 2) == 1);
    } else {
        lemma_pow2_unfold(k);
        let half = n * pow2((k - 1) as nat);
        assert(n * pow2(k) == 2 * half) by (nonlinear_arith)
            requires
                pow2(k) == 2 * pow2((k - 1) as nat),
                half == n * pow2((k - 1) as nat),
        ;
        lemma_spacing_divides(v / 2, n, (k - 1) as nat);
        lemma_spacing(v / 2);
        let unit = spacing(v / 2);
        let times = half / unit;
        lemma_fundamental_div_mod(half as int, unit as int);
        assert(2 * half == times * (2 * unit)) by (nonlinear_arith)
            requires
                half == unit * times,
        ;
        lemma_mod_multiples_basic(times as int, (2 * unit) as int);
    }
}

/// The integer `v` rounded to 53 significant bits, ties to even.
fn round(v: u128) -> (r: u128)
    requires
        v <= pow2(120),
    ensures
        r == rounded(v as nat),
        r <= pow2(120),
{
    proof {
        lemma_pow2_120();
        lemma_pow2_adds(53, 67);
        lemma2_to64_rest();
        lemma_rounded_bound(v as nat, PRECISION as nat, 67);
        lemma_spacing(v as nat);
    }
    let mut unit: u128 = 1;
    let mut rest: u128 = v;
    while rest >= PRECISION as u128
        invariant
            spacing(v as nat) == unit * spacing(rest as nat),
            unit >= 1,
            rest <= v,
            v <= pow2(120),
            pow2(120) == 0x100_0000_0000_0000_0000_0000_0000_0000,
            v >= PRECISION ==> spacing(v as nat) <= v,
        decreases rest,
    {
        proof {
            lemma_spacing((rest / 2) as nat);
            assert(unit * (2 * spacing((rest / 2) as nat)) == (2 * unit) * spacing(
                (rest / 2) as nat,
            )) by (nonlinear_arith);
            assert(2 * unit <= (2 * unit) * spacing((rest / 2) as nat)) by (nonlinear_arith)
                requires
                    unit >= 1,
                    spacing((rest / 2) as nat) >= 1,
            ;
        }
        unit = unit * 2;
        rest = rest / 2;
    }
    assert(unit * 1 == unit);
    assert(unit == spacing(v as nat));
    let below: u128 = v / unit;
    let over: u128 = v % unit;
    proof {
        lemma_fundamental_div_mod(v as int, unit as int);
        assert(below * unit <= v) by (nonlinear_arith)
            requires
                v == unit * below + over,
                over >= 0,
        ;
        assert((below + 1) * unit == below * unit + unit) by (nonlinear_arith);
        assert(unit <= pow2(120) + 1);
    }
    if 2 * over > unit || (2 * over == unit && below % 2 == 1) {
        (below + 1) * unit
    } else {
        below * unit
    }
}

/// A number of 53 significant bits is its own rounding.
proof fn lemma_rounded_exact(n: nat, k: nat)
    requires
        n <= PRECISION,
    ensures
        rounded(n * pow2(k)) == n * pow2(k),
{
    let v = n * pow2(k);
    lemma_spacing_divides(v, n, k);
    lemma_spacing(v);
    lemma_fundamental_div_mod(v as int, spacing(v) as int);
    assert((v / spacing(v)) * spacing(v) == spacing(v) * (v / spacing(v))) by (nonlinear_arith);
}

/// The factor one changes no number that is exact as a double.
pub proof fn law_full_scale(n: nat)
    requires
        n <= PRECISION,
        n <= usize::MAX,
    ensures
        scaled(n, (Double { bits: ONE })) == n,
{
    let one = Double { bits: ONE };
    lemma2_to64();
    lemma2_to64_rest();
    assert(n * pow2(0) == n) by (nonlinear_arith)
        requires
            pow2(0) == 1,
    ;
    lemma_rounded_exact(n, 0);
    lemma_rounded_exact(n, 52);
    assert(one.significand() == pow2(52));
    assert(one.exponent() == -52);
    lemma_div_by_multiple(n as int, pow2(52) as int);
}

/// A factor of at most one does not enlarge a number that is exact as a double.
pub proof fn law_scaling_shrinks(n: nat, factor: Double)
    requires
        n <= PRECISION,
        !factor.is_nan(),
        !(Double { bits: ONE }).less(factor),
    ensures
        scaled(n, factor) <= n,
        scaled_even(n, factor) <= n,
{
    if !factor.negative() && n > 0 {
        lemma2_to64();
        lemma2_to64_rest();
        let k = (-factor.exponent()) as nat;
        let m = factor.significand();
        assert(m <= pow2(k)) by {
            if k > 53 {
                lemma_pow2_strictly_increases(53, k);
            }
        }
        assert(rounded(n) == n) by {
            assert(n * pow2(0) == n) by (nonlinear_arith)
                requires
                    pow2(0) == 1,
            ;
            lemma_rounded_exact(n, 0);
        }
        assert(n * m <= n * pow2(k)) by (nonlinear_arith)
            requires
                m <= pow2(k),
        ;
        lemma_rounded_bound(n * m, n, k);
        lemma_pow2_pos(k);
        let product = rounded(n * m);
        assert(product / pow2(k) <= n) by {
            lemma_div_is_ordered(product as int, (n * pow2(k)) as int, pow2(k) as int);
            lemma_div_by_multiple(n as int, pow2(k) as int);
        }
    }
}

/// What two to the power of 120 is.
pub(crate) proof fn lemma_pow2_120()
    ensures
        pow2(120) == 0x100_0000_0000_0000_0000_0000_0000_0000,
{
    lemma2_to64();
    lemma2_to64_rest();
    lemma_pow2_adds(60, 60);
    assert(pow2(60) == 0x1000_0000_0000_0000);
    assert(0x1000_0000_0000_0000 * 0x1000_0000_0000_0000
        == 0x100_0000_0000_0000_0000_0000_0000_0000int) by (nonlinear_arith);
}

/// Doubles `v` `times` times, or stops above `usize::MAX`.
fn double_up(v: u128, times: u64) -> (r: usize)
    requires
        v <= pow2(120),
    ensures
        r == if v * pow2(times as nat) <= usize::MAX {
            (v * pow2(times as nat)) as usize
        } else {
            usize::MAX
        },
{
    let mut left: u64 = times;
    let mut acc: u128 = v;
    proof {
        lemma_pow2_120();
    }
    while left > 0 && acc <= usize::MAX as u128
        invariant
            left <= times,
            acc * pow2(left as nat) == v * pow2(times as nat),
            acc <= pow2(120) || acc <= 2 * usize::MAX,
            pow2(120) == 0x100_0000_0000_0000_0000_0000_0000_0000,
        decreases left,
    {
        proof {
            lemma_pow2_unfold(left as nat);
            assert(acc * (2 * pow2((left - 1) as nat)) == (2 * acc) * pow2((left - 1) as nat))
                by (nonlinear_arith);
        }
        acc = 2 * acc;
        left = left - 1;
    }
    proof {
        lemma_pow2_pos(left as nat);
        lemma2_to64();
        if left == 0 {
            assert(pow2(left as nat) == 1);
            assert(acc * pow2(left as nat) == acc) by (nonlinear_arith)
                requires
                    pow2(left as nat) == 1,
            ;
        }
        assert(acc <= acc * pow2(left as nat)) by (nonlinear_arith)
            requires
                pow2(left as nat) >= 1,
                acc >= 0,
        ;
    }
    if acc > usize::MAX as u128 {
        usize::MAX
    } else {
        acc as usize
    }
}

/// Halves `v` `times` times, cutting what is left over.
fn halve_down(v: u128, times: u64) -> (r: u128)
    ensures
        r == v as nat / pow2(times as nat),
{
    let mut left: u64 = times;
    let mut acc: u128 = v;
    while left > 0 && acc > 0
        invariant
            left <= times,
            acc as nat / pow2(left as nat) == v as nat / pow2(times as nat),
        decreases left,
    {
        proof {
            let p = pow2((left - 1) as nat);
            lemma_pow2_unfold(left as nat);
            lemma_pow2_pos((left - 1) as nat);
            lemma_div_denominator(acc as int, 2, p as int);
        }
        acc = acc / 2;
        left = left - 1;
    }
    proof {
        lemma2_to64();
        lemma_pow2_pos(left as nat);
        if left == 0 {
            assert(acc as nat / pow2(left as nat) == acc) by (nonlinear_arith)
                requires
                    pow2(left as nat) == 1,
            ;
        } else {
            assert(acc == 0);
            lemma_div_basics(pow2(left as nat) as int);
        }
    }
    acc
}

/// `n` as a double-precision number, times `factor`, cut to a whole number.
pub fn scale(n: usize, factor: Double) -> (r: usize)
    ensures
        r == scaled(n as nat, factor),
{
    let magnitude: u64 = factor.bits % SIGN;
    if factor.bits >= SIGN || magnitude > INFINITY || n == 0 {
        return 0;
    }
    if magnitude == INFINITY {
        return usize::MAX;
    }
    let field: u64 = magnitude / HIDDEN;
    let fraction: u64 = magnitude % HIDDEN;
    let significand: u64 = if field == 0 {
        fraction
    } else {
        fraction + HIDDEN
    };
    proof {
        lemma2_to64();
        lemma2_to64_rest();
        lemma_pow2_120();
        lemma_pow2_adds(53, 11);
        lemma_rounded_bound(n as nat, PRECISION as nat, 11);
        lemma_pow2_adds(64, 53);
        lemma_pow2_strictly_increases(117, 120);
    }
    let exact: u128 = round(n as u128);
    assert(significand <= pow2(53));
    assert(exact * significand <= pow2(64) * pow2(53)) by (nonlinear_arith)
        requires
            exact <= pow2(64),
            significand <= pow2(53),
    ;
    let product: u128 = round(exact * significand as u128);
    if field >= 1075 {
        double_up(product, field - 1075)
    } else {
        let down: u64 = if field == 0 {
            1074
        } else {
            1075 - field
        };
        let whole: u128 = halve_down(product, down);
        if whole > usize::MAX as u128 {
            usize::MAX
        } else {
            whole as usize
        }
    }
}

/// The even number at or just below `n` times `factor`.
pub fn scale_even(n: usize, factor: Double) -> (r: usize)
    ensures
        r == scaled_even(n as nat, factor),
{
    let whole: usize = scale(n, factor);
    whole - whole % 2
}

/// Whether `size` is `n` times a factor that is not negative, up to less than `off`, and up to the
/// rounding of a double-precision product.
pub open spec fn is_about(size: int, off: int, n: nat, factor: Double) -> bool {
    let product = n * factor.significand();
    if factor.exponent() >= 0 {
        let unit = pow2(factor.exponent() as nat);
        &&& size * PRECISION <= product * unit * (PRECISION + 1)
        &&& product * unit * (PRECISION - 1) < (size + off) * PRECISION
    } else {
        let unit = pow2((-factor.exponent()) as nat);
        &&& size * unit * PRECISION <= product * (PRECISION + 1)
        &&& product * (PRECISION - 1) < (size + off) * unit * PRECISION
    }
}

proof fn lemma_rounding_error(v: nat)
    ensures
        rounded(v) * PRECISION <= v * (PRECISION + 1),
        v * (PRECISION - 1) <= rounded(v) * PRECISION,
{
    lemma_spacing(v);
    let unit = spacing(v) as int;
    let below = v as int / unit;
    let rest = v as int % unit;
    lemma_fundamental_div_mod(v as int, unit);
    let near = nearest_quotient(v, unit as nat) as int;
    assert(rounded(v) == near * unit);
    assert((below + 1) * unit == unit * below + unit) by (nonlinear_arith);
    assert(below * unit == unit * below) by (nonlinear_arith);
    if v < PRECISION {
        assert(unit == 1);
        assert(rounded(v) == v);
    } else {
        assert(2 * (near * unit) <= 2 * v + unit);
        assert(2 * v <= 2 * (near * unit) + unit);
    }
}

/// Scaling multiplies: the result is the number times the factor, cut to a whole number, and made
/// even where that is asked for.
pub proof fn law_scaling_is_proportional(n: nat, factor: Double)
    requires
        n <= PRECISION,
        n <= usize::MAX,
        !factor.is_nan(),
        !factor.negative(),
        !(Double { bits: ONE }).less(factor),
    ensures
        is_about(scaled(n, factor) as int, 1, n, factor),
        is_about(scaled_even(n, factor) as int, 2, n, factor),
        scaled_even(n, factor) % 2 == 0,
        scaled(n, factor) - 1 <= scaled_even(n, factor) <= scaled(n, factor),
{
    lemma2_to64();
    lemma2_to64_rest();
    law_scaling_shrinks(n, factor);
    let k = (-factor.exponent()) as nat;
    let m = factor.significand();
    let unit = pow2(k) as int;
    lemma_pow2_pos(k);
    let v = n * m;
    if n == 0 {
        assert(v == 0) by (nonlinear_arith)
            requires
                n == 0,
                v == n * m,
        ;
        assert(0 * unit * PRECISION == 0) by (nonlinear_arith);
        assert(0 < 1 * unit * PRECISION) by (nonlinear_arith)
            requires
                unit >= 1,
        ;
        assert(0 < 2 * unit * PRECISION) by (nonlinear_arith)
            requires
                unit >= 1,
        ;
    } else {
        assert(rounded(n) == n) by {
            assert(n * pow2(0) == n) by (nonlinear_arith)
                requires
                    pow2(0) == 1,
            ;
            lemma_rounded_exact(n, 0);
        }
        lemma_rounding_error(v);
        let product = rounded(v) as int;
        let s = scaled(n, factor) as int;
        let e = scaled_even(n, factor) as int;
        lemma_fundamental_div_mod(product, unit);
        let whole = product / unit;
        assert(product <= n * pow2(k)) by {
            assert(m <= pow2(k)) by {
                if k > 53 {
                    lemma_pow2_strictly_increases(53, k);
                }
            }
            assert(n * m <= n * pow2(k)) by (nonlinear_arith)
                requires
                    m <= pow2(k),
            ;
            lemma_rounded_bound(v, n, k);
        }
        assert(whole <= n) by {
            lemma_div_is_ordered(product, (n * pow2(k)) as int, unit);
            lemma_div_by_multiple(n as int, unit);
        }
        if factor.exponent() == 0 {
            assert(unit == 1);
            assert(product / 1 == product && product * 1 == product);
        }
        assert(s == whole);
        assert(whole * unit <= product && product < (whole + 1) * unit) by (nonlinear_arith)
            requires
                product == unit * whole + product % unit,
                0 <= product % unit < unit,
        ;
        assert(s * unit * PRECISION <= product * PRECISION) by (nonlinear_arith)
            requires
                s * unit <= product,
        ;
        assert(product * PRECISION < (s + 1) * unit * PRECISION) by (nonlinear_arith)
            requires
                product < (s + 1) * unit,
        ;
        assert(e * unit * PRECISION <= s * unit * PRECISION) by (nonlinear_arith)
            requires
                e <= s,
                unit >= 1,
        ;
        assert((s + 1) * unit * PRECISION <= (e + 2) * unit * PRECISION) by (nonlinear_arith)
            requires
                s <= e + 1,
                unit >= 1,
        ;
    }
}

/// Clamping leaves a number within the bounds alone, and takes any other to the bound next to it.
pub proof fn law_clamping_moves_to_the_bound(d: Double, low: Double, high: Double)
    requires
        !d.is_nan(),
        !low.is_nan(),
        !high.is_nan(),
        low.rank() <= high.rank(),
    ensures
        low.rank() <= d.rank() <= high.rank() ==> d.clamped(low, high) == d,
        d.rank() < low.rank() ==> d.clamped(low, high) == low,
        d.rank() > high.rank() ==> d.clamped(low, high) == high,
{
}

/// Of two finite numbers that are not negative the one with the greater encoding is the greater: its
/// significand, at the same power of two, is greater.
pub proof fn law_order_is_that_of_the_values(a: Double, b: Double)
    requires
        a.bits < INFINITY,
        b.bits < INFINITY,
    ensures
        a.less(b) <==> a.significand() * pow2((a.exponent() + 1074) as nat) < b.significand()
            * pow2((b.exponent() + 1074) as nat),
{
    lemma2_to64();
    if a.bits < b.bits {
        lemma_value_order(a, b);
    } else if b.bits < a.bits {
        lemma_value_order(b, a);
    } else {
        assert(a == b);
    }
}

proof fn lemma_value_order(a: Double, b: Double)
    requires
        a.bits < b.bits,
        b.bits < INFINITY,
    ensures
        a.significand() * pow2((a.exponent() + 1074) as nat) < b.significand() * pow2(
            (b.exponent() + 1074) as nat,
        ),
{
    lemma2_to64();
    let ka = (a.exponent() + 1074) as nat;
    let kb = (b.exponent() + 1074) as nat;
    let ma = a.significand();
    let mb = b.significand();
    lemma_pow2_pos(ka);
    lemma_pow2_pos(kb);
    if ka == kb {
        assert(ma < mb);
        assert(ma * pow2(ka) < mb * pow2(ka)) by (nonlinear_arith)
            requires
                ma < mb,
                pow2(ka) > 0,
        ;
    } else {
        assert(ka < kb);
        lemma_pow2_unfold(kb);
        if ka < kb - 1 {
            lemma_pow2_strictly_increases(ka, (kb - 1) as nat);
        }
        let half = pow2((kb - 1) as nat);
        assert(ma * pow2(ka) < mb * pow2(kb)) by (nonlinear_arith)
            requires
                ma < 2 * HIDDEN,
                mb >= HIDDEN,
                pow2(ka) <= half,
                pow2(ka) > 0,
                pow2(kb) == 2 * half,
        ;
    }
}

} // verus!
