//! Double-precision numbers held as their 64 bits, compared and added in
//! integer arithmetic.
use vstd::arithmetic::power2::{
    lemma2_to64, lemma2_to64_rest, lemma_pow2_adds, lemma_pow2_pos, lemma_pow2_strictly_increases,
    lemma_pow2_unfold, pow2,
};
use vstd::prelude::*;

verus! {

/// How one value stands to another.
#[derive(Clone, Copy, PartialEq, Eq, Debug, Structural)]
pub enum Comparison {
    Less,
    Equal,
    Greater,
}

impl Comparison {
    pub open spec fn reverse_spec(self) -> Comparison {
        match self {
            Comparison::Less => Comparison::Greater,
            Comparison::Equal => Comparison::Equal,
            Comparison::Greater => Comparison::Less,
        }
    }

    /// How the second value stands to the first.
    pub fn reverse(self) -> (r: Comparison)
        ensures
            r == self.reverse_spec(),
    {
        match self {
            Comparison::Less => Comparison::Greater,
            Comparison::Equal => Comparison::Equal,
            Comparison::Greater => Comparison::Less,
        }
    }
}

/// The order of the integers.
pub open spec fn compare_int(a: int, b: int) -> Comparison {
    if a < b {
        Comparison::Less
    } else if a == b {
        Comparison::Equal
    } else {
        Comparison::Greater
    }
}

/// 2^52: how many fractions each exponent has.
pub const FRACTIONS: u64 = 0x10_0000_0000_0000;

/// 2^63: the sign bit.
pub const SIGN: u64 = 0x8000_0000_0000_0000;

/// The bits of positive infinity.
pub const INFINITY: u64 = 0x7ff0_0000_0000_0000;

/// The bits of the quiet not-a-number that operations produce.
pub const QUIET_NAN: u64 = 0x7ff8_0000_0000_0000;

pub open spec fn is_negative(bits: u64) -> bool {
    bits >= SIGN
}

/// The bits without the sign.
pub open spec fn magnitude(bits: u64) -> u64 {
    if bits >= SIGN {
        (bits - SIGN) as u64
    } else {
        bits
    }
}

pub open spec fn is_nan_spec(bits: u64) -> bool {
    magnitude(bits) > INFINITY
}

/// The digits of a magnitude: with the hidden bit, unless it is subnormal.
pub open spec fn significand(mag: nat) -> nat {
    if mag < FRACTIONS {
        mag
    } else {
        FRACTIONS as nat + mag % (FRACTIONS as nat)
    }
}

/// The power of two that scales the digits, in units of 2^-1074.
pub open spec fn scale(mag: nat) -> nat {
    if mag < FRACTIONS {
        0
    } else {
        (mag / (FRACTIONS as nat) - 1) as nat
    }
}

/// The size of a number in units of 2^-1074, the smallest double. Infinity
/// takes the value that its bits give it, which is above every finite one.
pub open spec fn scaled_magnitude(mag: nat) -> nat {
    significand(mag) * pow2(scale(mag))
}

/// The value of a double that is a number, in units of 2^-1074.
pub open spec fn scaled_double(bits: u64) -> int {
    if is_negative(bits) {
        -(scaled_magnitude(magnitude(bits) as nat) as int)
    } else {
        scaled_magnitude(magnitude(bits) as nat) as int
    }
}

/// The value of an integer, in units of 2^-1074.
pub open spec fn scaled_integer(n: int) -> int {
    n * pow2(1074)
}

/// The order of doubles: not-a-number first, then by value.
pub open spec fn compare_doubles_spec(a: u64, b: u64) -> Comparison {
    if is_nan_spec(a) {
        if is_nan_spec(b) {
            Comparison::Equal
        } else {
            Comparison::Less
        }
    } else if is_nan_spec(b) {
        Comparison::Greater
    } else {
        compare_int(scaled_double(a), scaled_double(b))
    }
}

/// The order of an integer and a double: by value, not-a-number first.
pub open spec fn compare_integer_double_spec(integer: i64, double: u64) -> Comparison {
    if is_nan_spec(double) {
        Comparison::Greater
    } else {
        compare_int(scaled_integer(integer as int), scaled_double(double))
    }
}

/// Whether two doubles are equal, all not-a-numbers being equal.
pub open spec fn float_equal_spec(a: u64, b: u64) -> bool {
    compare_doubles_spec(a, b) == Comparison::Equal
}

pub fn is_nan(bits: u64) -> (r: bool)
    ensures
        r == is_nan_spec(bits),
{
    let mag: u64 = if bits >= SIGN {
        bits - SIGN
    } else {
        bits
    };
    mag > INFINITY
}

pub(crate) proof fn scaled_magnitude_monotone(a: nat, b: nat)
    requires
        a < b,
    ensures
        scaled_magnitude(a) < scaled_magnitude(b),
{
    let f = FRACTIONS as nat;
    lemma_pow2_pos(scale(a));
    lemma_pow2_pos(scale(b));
    let sa = significand(a);
    let sb = significand(b);
    let pa = pow2(scale(a));
    let pb = pow2(scale(b));
    assert(sa < 2 * f);
    if scale(a) == scale(b) {
        assert(sa < sb);
        assert(sa * pa < sb * pa) by (nonlinear_arith)
            requires
                sa < sb,
                pa > 0,
        ;
    } else {
        assert(scale(a) < scale(b));
        assert(sb >= f);
        if scale(a) + 1 < scale(b) {
            lemma_pow2_strictly_increases(scale(a) + 1, scale(b));
        }
        lemma_pow2_unfold(scale(a) + 1);
        assert(2 * pa <= pb);
        assert(sa * pa < sb * pb) by (nonlinear_arith)
            requires
                sa < 2 * f,
                f <= sb,
                2 * pa <= pb,
                pa > 0,
        ;
    }
}

/// How two doubles stand to each other.
pub fn compare_doubles(a: u64, b: u64) -> (r: Comparison)
    ensures
        r == compare_doubles_spec(a, b),
{
    let nan_a = is_nan(a);
    let nan_b = is_nan(b);
    if nan_a {
        return if nan_b {
            Comparison::Equal
        } else {
            Comparison::Less
        };
    }
    if nan_b {
        return Comparison::Greater;
    }
    let neg_a = a >= SIGN;
    let neg_b = b >= SIGN;
    let mag_a: u64 = if neg_a {
        a - SIGN
    } else {
        a
    };
    let mag_b: u64 = if neg_b {
        b - SIGN
    } else {
        b
    };
    proof {
        let x = mag_a as nat;
        let y = mag_b as nat;
        if x < y {
            scaled_magnitude_monotone(x, y);
        }
        if y < x {
            scaled_magnitude_monotone(y, x);
        }
        assert(scaled_magnitude(0) == 0) by (nonlinear_arith)
            requires
                scaled_magnitude(0) == 0 * pow2(scale(0)),
        ;
        if x > 0 {
            scaled_magnitude_monotone(0, x);
        }
        if y > 0 {
            scaled_magnitude_monotone(0, y);
        }
    }
    if mag_a == 0 && mag_b == 0 {
        Comparison::Equal
    } else if neg_a && !neg_b {
        Comparison::Less
    } else if !neg_a && neg_b {
        Comparison::Greater
    } else if mag_a == mag_b {
        Comparison::Equal
    } else if (mag_a < mag_b) != neg_a {
        Comparison::Less
    } else {
        Comparison::Greater
    }
}

/// Whether two doubles are numbers of the same value.
pub open spec fn same_number_spec(a: u64, b: u64) -> bool {
    !is_nan_spec(a) && !is_nan_spec(b) && scaled_double(a) == scaled_double(b)
}

/// Whether two doubles are numbers of the same value; not-a-number equals
/// nothing, itself included.
pub fn same_number(a: u64, b: u64) -> (r: bool)
    ensures
        r == same_number_spec(a, b),
{
    !is_nan(a) && !is_nan(b) && compare_doubles(a, b) == Comparison::Equal
}

/// Whether two doubles are equal, all not-a-numbers being equal.
pub fn float_equal(a: u64, b: u64) -> (r: bool)
    ensures
        r == float_equal_spec(a, b),
{
    compare_doubles(a, b) == Comparison::Equal
}

/// 2^n as a machine word.
fn power_of_two(n: u32) -> (r: u64)
    requires
        n < 64,
    ensures
        r == pow2(n as nat),
{
    proof {
        lemma2_to64();
    }
    let mut r: u64 = 1;
    let mut i: u32 = 0;
    while i < n
        invariant
            i <= n < 64,
            r == pow2(i as nat),
        decreases n - i,
    {
        proof {
            lemma_pow2_unfold((i + 1) as nat);
            lemma2_to64();
            lemma2_to64_rest();
            if i + 1 < 63 {
                lemma_pow2_strictly_increases((i + 1) as nat, 63);
            }
        }
        r = r * 2;
        i += 1;
    }
    r
}

/// How `n` stands to the magnitude `mag`, both taken as sizes.
fn compare_sizes(n: u64, mag: u64) -> (r: Comparison)
    requires
        n <= SIGN,
        mag <= INFINITY,
    ensures
        r == compare_int(scaled_integer(n as int), scaled_magnitude(mag as nat) as int),
{
    let digits: u64 = if mag < FRACTIONS {
        mag
    } else {
        FRACTIONS + mag % FRACTIONS
    };
    let shift: u64 = if mag < FRACTIONS {
        0
    } else {
        mag / FRACTIONS - 1
    };
    assert(digits == significand(mag as nat));
    assert(shift == scale(mag as nat));
    assert(digits < 0x20_0000_0000_0000);
    proof {
        lemma2_to64();
        lemma2_to64_rest();
        lemma_pow2_pos(1074);
        lemma_pow2_pos(shift as nat);
    }
    if shift >= 1074 {
        let k: u64 = shift - 1074;
        proof {
            lemma_pow2_adds(k as nat, 1074);
            lemma_pow2_pos(k as nat);
            let d = digits as int;
            let p = pow2(k as nat) as int;
            let q = pow2(1074) as int;
            assert(d * (p * q) == (d * p) * q) by (nonlinear_arith);
            assert(pow2(shift as nat) == p * q);
            assert(scaled_magnitude(mag as nat) == (d * p) * q);
        }
        if k > 11 {
            proof {
                lemma_pow2_strictly_increases(11, k as nat);
                let d = digits as int;
                let p = pow2(k as nat) as int;
                assert(d * p > 0x10_0000_0000_0000 * 0x800) by (nonlinear_arith)
                    requires
                        d >= 0x10_0000_0000_0000,
                        p > 0x800,
                ;
                let m = n as int;
                let q = pow2(1074) as int;
                assert(m * q < (d * p) * q) by (nonlinear_arith)
                    requires
                        m < d * p,
                        q > 0,
                ;
            }
            return Comparison::Less;
        }
        let unit = power_of_two(k as u32);
        proof {
            if k < 11 {
                lemma_pow2_strictly_increases(k as nat, 11);
            }
            assert(digits * unit < 0x20_0000_0000_0000 * 0x800) by (nonlinear_arith)
                requires
                    digits < 0x20_0000_0000_0000,
                    unit <= 0x800,
            ;
        }
        let size: u64 = digits * unit;
        proof {
            let m = n as int;
            let s = size as int;
            let q = pow2(1074) as int;
            assert(scaled_magnitude(mag as nat) == s * q);
            assert(scaled_integer(m) == m * q);
            assert((m < s ==> m * q < s * q) && (s < m ==> s * q < m * q)) by (nonlinear_arith)
                requires
                    q > 0,
            ;
        }
        if n < size {
            Comparison::Less
        } else if n == size {
            Comparison::Equal
        } else {
            Comparison::Greater
        }
    } else {
        let s: u64 = 1074 - shift;
        proof {
            lemma_pow2_adds(s as nat, shift as nat);
            lemma_pow2_pos(s as nat);
            let m = n as int;
            let p = pow2(s as nat) as int;
            let q = pow2(shift as nat) as int;
            assert(m * (p * q) == (m * p) * q) by (nonlinear_arith);
            let d = digits as int;
            assert(scaled_integer(m) == (m * p) * q);
            assert(scaled_magnitude(mag as nat) == d * q);
            assert((m * p < d ==> (m * p) * q < d * q) && (d < m * p ==> d * q < (m * p) * q))
                by (nonlinear_arith)
                requires
                    q > 0,
            ;
        }
        if s >= 54 {
            if n == 0 {
                assert(scaled_integer(0) == 0) by (nonlinear_arith)
                    requires
                        scaled_integer(0) == 0 * pow2(1074),
                ;
                assert(digits > 0 ==> scaled_magnitude(mag as nat) > 0) by (nonlinear_arith)
                    requires
                        scaled_magnitude(mag as nat) == digits * pow2(shift as nat),
                        pow2(shift as nat) > 0,
                ;
                assert(digits == 0 ==> scaled_magnitude(mag as nat) == 0) by (nonlinear_arith)
                    requires
                        scaled_magnitude(mag as nat) == digits * pow2(shift as nat),
                ;
                if digits == 0 {
                    Comparison::Equal
                } else {
                    Comparison::Less
                }
            } else {
                proof {
                    if s > 54 {
                        lemma_pow2_strictly_increases(54, s as nat);
                    }
                    let m = n as int;
                    let p = pow2(s as nat) as int;
                    assert(m * p >= p) by (nonlinear_arith)
                        requires
                            m >= 1,
                            p > 0,
                    ;
                }
                Comparison::Greater
            }
        } else {
            let unit = power_of_two(s as u32);
            let whole: u64 = digits / unit;
            let rest: u64 = digits % unit;
            proof {
                let d = digits as int;
                let u = unit as int;
                let m = n as int;
                let w = whole as int;
                let r = rest as int;
                assert(u == pow2(s as nat));
                vstd::arithmetic::div_mod::lemma_fundamental_div_mod(d, u);
                assert((m < w ==> m * u < d) && (m > w ==> m * u > d) && (m == w ==> d == m * u
                    + r)) by (nonlinear_arith)
                    requires
                        d == u * w + r,
                        0 <= r < u,
                ;
            }
            if n < whole {
                Comparison::Less
            } else if n > whole {
                Comparison::Greater
            } else if rest > 0 {
                Comparison::Less
            } else {
                Comparison::Equal
            }
        }
    }
}

/// How an integer stands to a double, by their exact values.
pub fn compare_integer_double(integer: i64, double: u64) -> (r: Comparison)
    ensures
        r == compare_integer_double_spec(integer, double),
{
    if is_nan(double) {
        return Comparison::Greater;
    }
    let negative = double >= SIGN;
    let mag: u64 = if negative {
        double - SIGN
    } else {
        double
    };
    let n: u64 = if integer < 0 {
        (-(integer as i128)) as u64
    } else {
        integer as u64
    };
    let sizes = compare_sizes(n, mag);
    proof {
        lemma_pow2_pos(1074);
        let i = integer as int;
        let q = pow2(1074) as int;
        assert((-i) * q == -(i * q)) by (nonlinear_arith);
        assert((i > 0 ==> i * q > 0) && (i < 0 ==> i * q < 0) && (i == 0 ==> i * q == 0))
            by (nonlinear_arith)
            requires
                q > 0,
        ;
        assert(scaled_magnitude(0) == 0) by (nonlinear_arith)
            requires
                scaled_magnitude(0) == 0 * pow2(scale(0)),
        ;
        if mag > 0 {
            scaled_magnitude_monotone(0, mag as nat);
        }
    }
    if integer < 0 {
        if negative {
            sizes.reverse()
        } else {
            Comparison::Less
        }
    } else if negative {
        if integer == 0 && mag == 0 {
            Comparison::Equal
        } else {
            Comparison::Greater
        }
    } else {
        sizes
    }
}

/// How many binary digits a number has.
pub open spec fn bit_length(x: nat) -> nat
    decreases x,
{
    if x == 0 {
        0
    } else {
        1 + bit_length(x / 2)
    }
}

/// The magnitude of the double nearest to `x` units of 2^-1074, the even one
/// of two that are equally near, and infinity beyond the largest double.
pub open spec fn round_magnitude(x: nat) -> nat {
    let n = bit_length(x);
    let k = if n > 53 {
        (n - 53) as nat
    } else {
        0
    };
    let q = x / pow2(k);
    let r = x % pow2(k);
    let up = 2 * r > pow2(k) || (2 * r == pow2(k) && q % 2 == 1);
    let mag = k * (FRACTIONS as nat) + q + if up {
        1nat
    } else {
        0nat
    };
    if mag <= INFINITY {
        mag
    } else {
        INFINITY as nat
    }
}

/// The double nearest to a value in units of 2^-1074 that is not zero.
pub open spec fn nearest_double(x: int) -> u64 {
    if x >= 0 {
        round_magnitude(x as nat) as u64
    } else {
        (SIGN + round_magnitude((-x) as nat)) as u64
    }
}

pub open spec fn is_infinite(bits: u64) -> bool {
    magnitude(bits) == INFINITY
}

/// The sum of two doubles: the double nearest to their exact sum, with the
/// usual rules for signed zeros, infinities and not-a-number.
pub open spec fn sum_spec(a: u64, b: u64) -> u64 {
    if is_nan_spec(a) || is_nan_spec(b) {
        QUIET_NAN
    } else if is_infinite(a) && is_infinite(b) && is_negative(a) != is_negative(b) {
        QUIET_NAN
    } else if is_infinite(a) {
        a
    } else if is_infinite(b) {
        b
    } else {
        let exact = scaled_double(a) + scaled_double(b);
        if exact == 0 {
            if is_negative(a) && is_negative(b) {
                SIGN
            } else {
                0
            }
        } else {
            nearest_double(exact)
        }
    }
}

/// The double nearest to an integer.
pub open spec fn double_of_integer_spec(n: i64) -> u64 {
    if n == 0 {
        0
    } else {
        nearest_double(scaled_integer(n as int))
    }
}

proof fn bit_length_is(x: nat, n: nat)
    requires
        n >= 1,
        pow2((n - 1) as nat) <= x < pow2(n),
    ensures
        bit_length(x) == n,
    decreases n,
{
    lemma_pow2_unfold(n);
    lemma2_to64();
    lemma_pow2_pos((n - 1) as nat);
    if n == 1 {
        assert(x == 1);
        assert(bit_length(0) == 0);
        assert(bit_length(x / 2) == 0);
    } else {
        lemma_pow2_unfold((n - 1) as nat);
        bit_length_is(x / 2, (n - 1) as nat);
    }
}

pub(crate) proof fn bit_length_bounds(x: nat)
    requires
        x > 0,
    ensures
        bit_length(x) >= 1,
        pow2((bit_length(x) - 1) as nat) <= x < pow2(bit_length(x)),
    decreases x,
{
    lemma2_to64();
    if x == 1 {
        assert(bit_length(x / 2) == 0);
    } else {
        bit_length_bounds(x / 2);
        lemma_pow2_unfold(bit_length(x));
        lemma_pow2_unfold((bit_length(x) - 1) as nat);
    }
}

pub(crate) proof fn bit_length_scaled(x: nat, e: nat)
    requires
        x > 0,
    ensures
        bit_length(x * pow2(e)) == bit_length(x) + e,
{
    let n = bit_length(x);
    bit_length_bounds(x);
    lemma_pow2_adds((n - 1) as nat, e);
    lemma_pow2_adds(n, e);
    lemma_pow2_pos(e);
    let lo = pow2((n - 1) as nat);
    let hi = pow2(n);
    let p = pow2(e);
    assert(lo * p <= x * p && x * p < hi * p) by (nonlinear_arith)
        requires
            lo <= x < hi,
            p > 0,
    ;
    assert((n - 1) as nat + e == (n + e - 1) as nat);
    bit_length_is(x * p, n + e);
}

/// Rounding ignores an addend below a quarter of the last digit's unit.
proof fn round_near(d: nat, s: nat, delta: int)
    requires
        FRACTIONS <= d < 2 * FRACTIONS,
        s >= 2,
        4 * delta < pow2(s),
        -4 * delta < pow2(s),
        s * FRACTIONS + d <= INFINITY,
    ensures
        d * pow2(s) + delta > 0,
        round_magnitude((d * pow2(s) + delta) as nat) == s * FRACTIONS + d,
{
    lemma2_to64();
    lemma2_to64_rest();
    let p = pow2(s) as int;
    let f = FRACTIONS as int;
    lemma_pow2_unfold(s);
    lemma_pow2_unfold((s - 1) as nat);
    lemma_pow2_pos((s - 2) as nat);
    let h = pow2((s - 1) as nat) as int;
    lemma_pow2_adds(52, s);
    lemma_pow2_adds(53, s);
    lemma_pow2_adds(51, s);
    let x = d * p + delta;
    assert(d * p >= f * p) by (nonlinear_arith)
        requires
            d >= f,
            p > 0,
    ;
    assert(d * p + p <= 2 * f * p) by (nonlinear_arith)
        requires
            d + 1 <= 2 * f,
            p > 0,
    ;
    if delta >= 0 {
        bit_length_is(x as nat, 53 + s);
        assert(d * p + delta == p * d + delta) by (nonlinear_arith);
        vstd::arithmetic::div_mod::lemma_fundamental_div_mod_converse(x, p, d as int, delta);
    } else if d > FRACTIONS {
        assert(d * p >= (f + 1) * p) by (nonlinear_arith)
            requires
                d >= f + 1,
                p > 0,
        ;
        assert((f + 1) * p == f * p + p) by (nonlinear_arith);
        bit_length_is(x as nat, 53 + s);
        assert(d * p + delta == p * (d - 1) + (p + delta)) by (nonlinear_arith);
        vstd::arithmetic::div_mod::lemma_fundamental_div_mod_converse(
            x,
            p,
            d - 1,
            p + delta,
        );
    } else {
        assert(52 + s == 53 + (s - 1) as nat);
        assert(51 + s == (52 + s - 1) as nat);
        assert(f * p == (2 * f) * h) by (nonlinear_arith)
            requires
                p == 2 * h,
        ;
        bit_length_is(x as nat, 52 + s);
        assert((2 * f) * h + delta == h * (2 * f - 1) + (h + delta)) by (nonlinear_arith);
        vstd::arithmetic::div_mod::lemma_fundamental_div_mod_converse(
            x,
            h,
            2 * f - 1,
            h + delta,
        );
        assert(((s - 1) as nat) * (FRACTIONS as nat) == s * FRACTIONS - FRACTIONS)
            by (nonlinear_arith)
            requires
                s >= 1,
        ;
    }
}

/// 2^n as a wide word.
fn wide_power_of_two(n: u32) -> (r: u128)
    requires
        n <= 120,
    ensures
        r == pow2(n as nat),
        r > 0,
{
    let low: u32 = if n > 60 {
        60
    } else {
        n
    };
    let a: u64 = power_of_two(low);
    let b: u64 = power_of_two(n - low);
    proof {
        lemma_pow2_adds(low as nat, (n - low) as nat);
        lemma_pow2_pos(n as nat);
        lemma2_to64_rest();
        lemma_pow2_strictly_increases(low as nat, 61);
        lemma_pow2_strictly_increases((n - low) as nat, 61);
        assert(a * b < 0x2000000000000000 * 0x2000000000000000) by (nonlinear_arith)
            requires
                a < 0x2000000000000000,
                b < 0x2000000000000000,
        ;
    }
    (a as u128) * (b as u128)
}

/// How many binary digits `x` has.
fn count_bits(x: u128) -> (r: u32)
    requires
        x < pow2(120),
    ensures
        r == bit_length(x as nat),
        r <= 120,
    decreases x,
{
    if x == 0 {
        0
    } else {
        proof {
            bit_length_bounds(x as nat);
            if bit_length(x as nat) > 120 {
                if bit_length(x as nat) > 121 {
                    lemma_pow2_strictly_increases(120, (bit_length(x as nat) - 1) as nat);
                }
            }
        }
        1 + count_bits(x / 2)
    }
}

/// The magnitude of the double nearest to `s * 2^e` units.
fn round_scaled(s: u128, e: u64) -> (r: u64)
    requires
        0 < s < pow2(120),
        e <= 2046,
    ensures
        r == round_magnitude((s * pow2(e as nat)) as nat),
        r <= INFINITY,
{
    let n: u32 = count_bits(s);
    let ghost x = (s * pow2(e as nat)) as nat;
    let ghost pe = pow2(e as nat) as int;
    proof {
        bit_length_scaled(s as nat, e as nat);
        bit_length_bounds(s as nat);
        lemma_pow2_pos(e as nat);
        lemma2_to64();
        lemma2_to64_rest();
    }
    if n as u64 + e <= 53 {
        let unit = power_of_two(e as u32);
        proof {
            bit_length_bounds(x);
            if n + e < 53 {
                lemma_pow2_strictly_increases((n + e) as nat, 53);
            }
            assert(s <= s * pe) by (nonlinear_arith)
                requires
                    pe >= 1,
                    s > 0,
            ;
        }
        let mag: u64 = (s as u64) * unit;
        return mag;
    }
    let k: u64 = n as u64 + e - 53;
    let ghost pk = pow2(k as nat) as int;
    proof {
        lemma_pow2_pos(k as nat);
        assert(k * FRACTIONS <= 3000 * FRACTIONS) by (nonlinear_arith)
            requires
                k <= 3000,
        ;
    }
    let base: u64 = k * FRACTIONS;
    let mut q: u64;
    if n <= 53 {
        let unit = power_of_two(53 - n);
        let ghost u = unit as int;
        proof {
            // k + (53 - n) == e, so the digits divide out exactly.
            lemma_pow2_adds(k as nat, (53 - n) as nat);
            assert(s * pe == pk * (s * u)) by (nonlinear_arith)
                requires
                    pe == pk * u,
            ;
            lemma_pow2_adds(n as nat, (53 - n) as nat);
            assert(s * u < pow2(n as nat) * u) by (nonlinear_arith)
                requires
                    s < pow2(n as nat),
                    u > 0,
            ;
            lemma_pow2_pos((53 - n) as nat);
            assert(s <= s * u) by (nonlinear_arith)
                requires
                    u >= 1,
                    s > 0,
            ;
            vstd::arithmetic::div_mod::lemma_fundamental_div_mod_converse(x as int, pk, s * u, 0);
        }
        q = (s as u64) * unit;
    } else {
        let j: u32 = n - 53;
        let unit = wide_power_of_two(j);
        let ghost u = unit as int;
        let whole: u128 = s / unit;
        let rest: u128 = s % unit;
        proof {
            lemma_pow2_adds(e as nat, j as nat);
            let w = whole as int;
            let t = rest as int;
            vstd::arithmetic::div_mod::lemma_fundamental_div_mod(s as int, u);
            assert(s * pe == pk * w + t * pe) by (nonlinear_arith)
                requires
                    s == u * w + t,
                    pk == pe * u,
            ;
            assert(0 <= t * pe < pk) by (nonlinear_arith)
                requires
                    0 <= t < u,
                    pk == pe * u,
                    pe > 0,
            ;
            vstd::arithmetic::div_mod::lemma_fundamental_div_mod_converse(x as int, pk, w, t * pe);
            assert((2 * t > u) == (2 * (t * pe) > pk) && (2 * t == u) == (2 * (t * pe) == pk))
                by (nonlinear_arith)
                requires
                    pk == pe * u,
                    pe > 0,
            ;
            lemma_pow2_adds(53, j as nat);
            assert(w < pow2(53)) by (nonlinear_arith)
                requires
                    s == u * w + t,
                    t >= 0,
                    s < pow2(53) * u,
                    u > 0,
            ;
            lemma_pow2_strictly_increases(j as nat, 120);
            lemma_pow2_adds(60, 60);
        }
        q = whole as u64;
        if rest > unit - rest || (rest == unit - rest && q % 2 == 1) {
            q = q + 1;
        }
    }
    let mag: u64 = base + q;
    if mag <= INFINITY {
        mag
    } else {
        INFINITY
    }
}

/// The magnitude of the sum of two finite magnitudes, or of their difference,
/// the first being the larger one.
fn combine(a: u64, b: u64, subtract: bool) -> (r: u64)
    requires
        b <= a < INFINITY,
        subtract ==> b < a,
        a > 0,
    ensures
        r == round_magnitude(
            if subtract {
                (scaled_magnitude(a as nat) - scaled_magnitude(b as nat)) as nat
            } else {
                scaled_magnitude(a as nat) + scaled_magnitude(b as nat)
            },
        ),
        r <= INFINITY,
{
    let digits_a: u64 = if a < FRACTIONS {
        a
    } else {
        FRACTIONS + a % FRACTIONS
    };
    let shift_a: u64 = if a < FRACTIONS {
        0
    } else {
        a / FRACTIONS - 1
    };
    let digits_b: u64 = if b < FRACTIONS {
        b
    } else {
        FRACTIONS + b % FRACTIONS
    };
    let shift_b: u64 = if b < FRACTIONS {
        0
    } else {
        b / FRACTIONS - 1
    };
    assert(digits_a == significand(a as nat) && shift_a == scale(a as nat));
    assert(digits_b == significand(b as nat) && shift_b == scale(b as nat));
    let d: u64 = shift_a - shift_b;
    let ghost da = digits_a as int;
    let ghost db = digits_b as int;
    let ghost pb = pow2(shift_b as nat) as int;
    proof {
        lemma2_to64();
        lemma2_to64_rest();
        lemma_pow2_adds(d as nat, shift_b as nat);
        lemma_pow2_pos(shift_b as nat);
        if b < a {
            scaled_magnitude_monotone(b as nat, a as nat);
        }
    }
    if d > 64 {
        proof {
            let pa = pow2(shift_a as nat) as int;
            let pd = pow2(d as nat) as int;
            lemma_pow2_strictly_increases(64, d as nat);
            assert(pa == pd * pb);
            assert(4 * (db * pb) < pa) by (nonlinear_arith)
                requires
                    db < 0x20_0000_0000_0000,
                    pd > 0x1_0000_0000_0000_0000,
                    pa == pd * pb,
                    pb > 0,
            ;
            assert(0 <= db * pb) by (nonlinear_arith)
                requires
                    db >= 0,
                    pb > 0,
            ;
            let delta = if subtract {
                -(db * pb)
            } else {
                db * pb
            };
            assert(shift_a * FRACTIONS + digits_a == a) by {
                vstd::arithmetic::div_mod::lemma_fundamental_div_mod(
                    a as int,
                    FRACTIONS as int,
                );
                assert((a / FRACTIONS - 1) * FRACTIONS == FRACTIONS * (a / FRACTIONS) - FRACTIONS)
                    by (nonlinear_arith);
            }
            round_near(digits_a as nat, shift_a as nat, delta);
            assert(scaled_magnitude(a as nat) == da * pa);
            assert(scaled_magnitude(b as nat) == db * pb);
        }
        return a;
    }
    let unit = wide_power_of_two(d as u32);
    let ghost u = unit as int;
    proof {
        if d < 64 {
            lemma_pow2_strictly_increases(d as nat, 64);
        }
        assert(da * u < 0x20_0000_0000_0000 * 0x1_0000_0000_0000_0001) by (nonlinear_arith)
            requires
                0 <= da < 0x20_0000_0000_0000,
                u <= 0x1_0000_0000_0000_0000,
        ;
        assert(da * (u * pb) == (da * u) * pb) by (nonlinear_arith);
        assert(scaled_magnitude(a as nat) == (da * u) * pb);
        assert(scaled_magnitude(b as nat) == db * pb);
        let w = da * u;
        assert(w * pb + db * pb == (w + db) * pb) by (nonlinear_arith);
        assert(w * pb - db * pb == (w - db) * pb) by (nonlinear_arith);
        assert(w * pb > db * pb ==> w > db) by (nonlinear_arith)
            requires
                pb > 0,
        ;
        assert(da > 0 && u > 0);
        assert(w > 0) by (nonlinear_arith)
            requires
                w == da * u,
                da > 0,
                u > 0,
        ;
        lemma_pow2_adds(60, 60);
    }
    let wide: u128 = (digits_a as u128) * unit;
    let exact: u128 = if subtract {
        wide - digits_b as u128
    } else {
        wide + digits_b as u128
    };
    round_scaled(exact, shift_b)
}

/// The sum of two doubles.
pub fn sum(a: u64, b: u64) -> (r: u64)
    ensures
        r == sum_spec(a, b),
{
    if is_nan(a) || is_nan(b) {
        return QUIET_NAN;
    }
    let neg_a = a >= SIGN;
    let neg_b = b >= SIGN;
    let mag_a: u64 = if neg_a {
        a - SIGN
    } else {
        a
    };
    let mag_b: u64 = if neg_b {
        b - SIGN
    } else {
        b
    };
    if mag_a == INFINITY {
        return if mag_b == INFINITY && neg_a != neg_b {
            QUIET_NAN
        } else {
            a
        };
    }
    if mag_b == INFINITY {
        return b;
    }
    proof {
        assert(scaled_magnitude(0) == 0) by (nonlinear_arith)
            requires
                scaled_magnitude(0) == 0 * pow2(scale(0)),
        ;
        if mag_a > 0 {
            scaled_magnitude_monotone(0, mag_a as nat);
        }
        if mag_b > 0 {
            scaled_magnitude_monotone(0, mag_b as nat);
        }
        if mag_a < mag_b {
            scaled_magnitude_monotone(mag_a as nat, mag_b as nat);
        }
        if mag_b < mag_a {
            scaled_magnitude_monotone(mag_b as nat, mag_a as nat);
        }
    }
    if (mag_a == 0 && mag_b == 0) || (mag_a == mag_b && neg_a != neg_b) {
        return if neg_a && neg_b {
            SIGN
        } else {
            0
        };
    }
    let (mag, negative) = if mag_a >= mag_b {
        (combine(mag_a, mag_b, neg_a != neg_b), neg_a)
    } else {
        (combine(mag_b, mag_a, neg_a != neg_b), neg_b)
    };
    if negative {
        SIGN + mag
    } else {
        mag
    }
}

/// The double nearest to an integer.
pub fn double_of_integer(n: i64) -> (r: u64)
    ensures
        r == double_of_integer_spec(n),
{
    if n == 0 {
        return 0;
    }
    let size: u64 = if n < 0 {
        (-(n as i128)) as u64
    } else {
        n as u64
    };
    proof {
        lemma2_to64();
        lemma2_to64_rest();
        lemma_pow2_strictly_increases(64, 120);
        lemma_pow2_pos(1074);
        let i = n as int;
        let q = pow2(1074) as int;
        assert((-i) * q == -(i * q)) by (nonlinear_arith);
        assert((i > 0 ==> i * q > 0) && (i < 0 ==> i * q < 0)) by (nonlinear_arith)
            requires
                q > 0,
        ;
    }
    let mag = round_scaled(size as u128, 1074);
    if n < 0 {
        SIGN + mag
    } else {
        mag
    }
}

/// The double nearest to an unsigned integer.
pub open spec fn double_of_unsigned_spec(n: u64) -> u64 {
    if n == 0 {
        0
    } else {
        nearest_double(scaled_integer(n as int))
    }
}

/// The double nearest to an unsigned integer.
pub fn double_of_unsigned(n: u64) -> (r: u64)
    ensures
        r == double_of_unsigned_spec(n),
{
    if n == 0 {
        return 0;
    }
    proof {
        lemma2_to64();
        lemma_pow2_strictly_increases(64, 120);
        lemma_pow2_pos(1074);
        let i = n as int;
        let q = pow2(1074) as int;
        assert(i * q > 0) by (nonlinear_arith)
            requires
                i > 0,
                q > 0,
        ;
    }
    round_scaled(n as u128, 1074)
}

/// Scaling keeps the order of the integers.
pub proof fn scaled_integer_order(a: int, b: int)
    ensures
        compare_int(scaled_integer(a), scaled_integer(b)) == compare_int(a, b),
{
    lemma_pow2_pos(1074);
    let q = pow2(1074) as int;
    assert((a < b ==> a * q < b * q) && (b < a ==> b * q < a * q)) by (nonlinear_arith)
        requires
            q > 0,
    ;
}

} // verus!
