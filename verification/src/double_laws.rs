//! What doubles are compared, added and rounded to, in terms of their values.
use crate::double::{
    bit_length, bit_length_bounds, bit_length_scaled, compare_doubles_spec, compare_int,
    compare_integer_double_spec, double_of_integer_spec, is_infinite, is_nan_spec, is_negative,
    magnitude, nearest_double, round_magnitude, same_number_spec, scaled_double, scaled_integer,
    scaled_magnitude, scaled_magnitude_monotone, significand, scale, sum_spec, Comparison,
    FRACTIONS, INFINITY, SIGN,
};
use vstd::arithmetic::power2::{
    lemma2_to64, lemma2_to64_rest, lemma_pow2_adds, lemma_pow2_pos, pow2,
};
use vstd::prelude::*;

verus! {

proof fn zero_is_zero()
    ensures
        scaled_magnitude(0) == 0,
{
    let p = pow2(scale(0));
    assert(0 * p == 0) by (nonlinear_arith);
}

/// Doubles that are numbers compare as their bits do where both are positive,
/// the other way round where both are negative; a negative number other than
/// zero is below every positive one. Not-a-number stands below every number.
pub proof fn doubles_compare_by_their_bits(a: u64, b: u64)
    ensures
        !is_nan_spec(a) && !is_nan_spec(b) && a < SIGN && b < SIGN ==> compare_doubles_spec(a, b)
            == compare_int(a as int, b as int),
        !is_nan_spec(a) && !is_nan_spec(b) && a >= SIGN && b >= SIGN ==> compare_doubles_spec(a, b)
            == compare_int(b as int, a as int),
        !is_nan_spec(a) && !is_nan_spec(b) && a > SIGN && b < SIGN ==> compare_doubles_spec(a, b)
            == Comparison::Less,
        is_nan_spec(a) && !is_nan_spec(b) ==> compare_doubles_spec(a, b) == Comparison::Less
            && compare_doubles_spec(b, a) == Comparison::Greater,
        is_nan_spec(a) && is_nan_spec(b) ==> compare_doubles_spec(a, b) == Comparison::Equal,
        compare_doubles_spec(SIGN, 0) == Comparison::Equal,
{
    let x = magnitude(a) as nat;
    let y = magnitude(b) as nat;
    zero_is_zero();
    if x < y {
        scaled_magnitude_monotone(x, y);
    }
    if y < x {
        scaled_magnitude_monotone(y, x);
    }
    if x > 0 {
        scaled_magnitude_monotone(0, x);
    }
}

/// An integer and a double that is the same number compare as two integers, and
/// every integer is above not-a-number.
pub proof fn integers_compare_with_doubles(n: i64, m: i64, double: u64)
    requires
        !is_nan_spec(double) ==> scaled_double(double) == scaled_integer(m as int),
    ensures
        !is_nan_spec(double) ==> compare_integer_double_spec(n, double) == compare_int(
            n as int,
            m as int,
        ),
        is_nan_spec(double) ==> compare_integer_double_spec(n, double) == Comparison::Greater,
{
    crate::double::scaled_integer_order(n as int, m as int);
}

/// How far two values are apart.
pub open spec fn distance(a: int, b: int) -> int {
    if a <= b {
        b - a
    } else {
        a - b
    }
}

proof fn scaled_parts(k: nat, q: nat)
    requires
        k > 0 ==> FRACTIONS <= q,
        q <= 2 * FRACTIONS,
    ensures
        scaled_magnitude((k * FRACTIONS + q) as nat) == q * pow2(k),
{
    let f = FRACTIONS as nat;
    let mag = (k * FRACTIONS + q) as nat;
    lemma2_to64();
    if q < f {
        assert(k == 0);
        assert(mag == q);
    } else if q < 2 * f {
        assert(mag == (k + 1) * f + (q - f)) by (nonlinear_arith)
            requires
                mag == k * f + q,
                q >= f,
        ;
        vstd::arithmetic::div_mod::lemma_fundamental_div_mod_converse(
            mag as int,
            f as int,
            k as int + 1,
            q - f,
        );
        assert(significand(mag) == q);
        assert(scale(mag) == k);
    } else {
        assert(mag == (k + 2) * f) by (nonlinear_arith)
            requires
                mag == k * f + q,
                q == 2 * f,
        ;
        vstd::arithmetic::div_mod::lemma_fundamental_div_mod_converse(
            mag as int,
            f as int,
            k as int + 2,
            0,
        );
        assert(significand(mag) == f);
        assert(scale(mag) == k + 1);
        lemma_pow2_adds(1, k);
        let p = pow2(k);
        assert(f * (2 * p) == (2 * f) * p) by (nonlinear_arith);
    }
}

proof fn rounding(x: nat) -> (kq: (nat, nat))
    requires
        x > 0,
    ensures
        ({
            let (k, q) = kq;
            let p = pow2(k);
            let r = x - q * p;
            let up = 2 * r > p || (2 * r == p && q % 2 == 1);
            let low = (k * FRACTIONS + q) as nat;
            let raw = if up {
                low + 1
            } else {
                low
            };
            &&& p > 0
            &&& 0 <= r < p
            &&& k > 0 ==> FRACTIONS <= q
            &&& q < 2 * FRACTIONS
            &&& scaled_magnitude(low) == q * p
            &&& scaled_magnitude(low + 1) == (q + 1) * p
            &&& round_magnitude(x) == if raw <= INFINITY {
                raw
            } else {
                INFINITY as nat
            }
        }),
{
    let n = bit_length(x);
    let k = if n > 53 {
        (n - 53) as nat
    } else {
        0
    };
    let p = pow2(k);
    let q = x / p;
    lemma_pow2_pos(k);
    lemma2_to64();
    lemma2_to64_rest();
    bit_length_bounds(x);
    vstd::arithmetic::div_mod::lemma_fundamental_div_mod(x as int, p as int);
    let r = x % p;
    assert(x - q * p == r) by (nonlinear_arith)
        requires
            x == p * q + r,
    ;
    if n > 53 {
        lemma_pow2_adds(52, k);
        lemma_pow2_adds(53, k);
        let f = FRACTIONS as nat;
        assert(pow2(52) == f);
        assert(pow2((n - 1) as nat) == f * p);
        assert(pow2(n) == (2 * f) * p);
        assert(q >= f) by (nonlinear_arith)
            requires
                x == p * q + r,
                r < p,
                x >= f * p,
                p > 0,
        ;
        assert(q < 2 * f) by (nonlinear_arith)
            requires
                x == p * q + r,
                r >= 0,
                x < (2 * f) * p,
                p > 0,
        ;
    } else {
        assert(p == 1);
        if n < 53 {
            vstd::arithmetic::power2::lemma_pow2_strictly_increases(n, 53);
        }
        assert(q == x) by (nonlinear_arith)
            requires
                q == x / p,
                p == 1,
        ;
    }
    scaled_parts(k, q);
    scaled_parts(k, q + 1);
    (k, q)
}

proof fn not_above(a: nat, b: nat)
    requires
        a <= b,
    ensures
        scaled_magnitude(a) <= scaled_magnitude(b),
{
    if a < b {
        scaled_magnitude_monotone(a, b);
    }
}

/// A value is rounded to the magnitude nearest to it, and to the even one of
/// two that are equally near.
pub proof fn rounding_takes_the_nearest(x: nat, m: nat)
    requires
        x > 0,
        m <= INFINITY,
    ensures
        round_magnitude(x) <= INFINITY,
        distance(scaled_magnitude(round_magnitude(x)) as int, x as int) <= distance(
            scaled_magnitude(m) as int,
            x as int,
        ),
        distance(scaled_magnitude(round_magnitude(x)) as int, x as int) == distance(
            scaled_magnitude(m) as int,
            x as int,
        ) && m != round_magnitude(x) ==> round_magnitude(x) % 2 == 0,
{
    let (k, q) = rounding(x);
    let p = pow2(k);
    let low = (k * FRACTIONS + q) as nat;
    let r = x - q * p;
    assert((q + 1) * p == q * p + p) by (nonlinear_arith);
    assert(low % 2 == q % 2) by {
        let f = FRACTIONS as nat;
        let half = 0x8_0000_0000_0000nat;
        assert(k * f == 2 * (k * half)) by (nonlinear_arith)
            requires
                f == 2 * half,
        ;
    }
    if m <= low {
        not_above(m, low);
        if m < low {
            scaled_magnitude_monotone(m, low);
        }
    } else {
        not_above(low + 1, m);
        if low + 1 < m {
            scaled_magnitude_monotone(low + 1, m);
        }
    }
    if round_magnitude(x) == INFINITY && low >= INFINITY {
        not_above(INFINITY as nat, low);
        not_above(m, INFINITY as nat);
        if m < INFINITY {
            scaled_magnitude_monotone(m, INFINITY as nat);
        }
    }
}

proof fn nearest_is_nearest(x: int, c: u64)
    requires
        x != 0,
        !is_nan_spec(c),
    ensures
        !is_nan_spec(nearest_double(x)),
        is_negative(nearest_double(x)) == (x < 0),
        distance(scaled_double(nearest_double(x)), x) <= distance(scaled_double(c), x),
{
    let size = if x > 0 {
        x as nat
    } else {
        (-x) as nat
    };
    rounding_takes_the_nearest(size, magnitude(c) as nat);
    rounding_takes_the_nearest(size, 0);
    zero_is_zero();
}

/// The sum of two finite numbers is, of all numbers, one that is nearest to
/// their exact sum, whatever their order. With not-a-number the sum is
/// not-a-number, as it is of the two infinities; with one infinity it is that.
pub proof fn sums_are_nearest(a: u64, b: u64, c: u64)
    requires
        !is_nan_spec(c),
    ensures
        !is_nan_spec(a) && !is_nan_spec(b) && !is_infinite(a) && !is_infinite(b) ==> distance(
            scaled_double(sum_spec(a, b)),
            scaled_double(a) + scaled_double(b),
        ) <= distance(scaled_double(c), scaled_double(a) + scaled_double(b)) && !is_nan_spec(
            sum_spec(a, b),
        ),
        is_nan_spec(a) || is_nan_spec(b) ==> is_nan_spec(sum_spec(a, b)),
        is_infinite(a) && is_infinite(b) && is_negative(a) != is_negative(b) ==> is_nan_spec(
            sum_spec(a, b),
        ),
        is_infinite(a) && !is_nan_spec(b) && !is_infinite(b) ==> sum_spec(a, b) == a && sum_spec(
            b,
            a,
        ) == a,
        is_infinite(a) ==> sum_spec(a, a) == a,
        sum_spec(a, b) == sum_spec(b, a),
{
    let exact = scaled_double(a) + scaled_double(b);
    if exact != 0 {
        nearest_is_nearest(exact, c);
    } else {
        zero_is_zero();
    }
    assert(is_infinite(a) && is_infinite(b) && is_negative(a) == is_negative(b) ==> a == b);
}

/// A sum that is a number itself is exact: what is added to a number, where no
/// digit is lost, gives the double of the sum.
pub proof fn exact_sums_are_exact(a: u64, b: u64, c: u64)
    requires
        !is_nan_spec(a) && !is_nan_spec(b) && !is_infinite(a) && !is_infinite(b),
        !is_nan_spec(c),
        scaled_double(c) == scaled_double(a) + scaled_double(b),
    ensures
        same_number_spec(sum_spec(a, b), c),
{
    sums_are_nearest(a, b, c);
}

/// An integer of at most fifty-three binary digits becomes the double of the
/// same value, and any other the one nearest to it.
pub proof fn integers_become_doubles(n: i64, c: u64)
    requires
        !is_nan_spec(c),
    ensures
        !is_nan_spec(double_of_integer_spec(n)),
        distance(scaled_double(double_of_integer_spec(n)), scaled_integer(n as int)) <= distance(
            scaled_double(c),
            scaled_integer(n as int),
        ),
        -0x20_0000_0000_0000 < n < 0x20_0000_0000_0000 ==> scaled_double(double_of_integer_spec(n))
            == scaled_integer(n as int),
{
    lemma2_to64();
    lemma2_to64_rest();
    zero_is_zero();
    let p = pow2(1074);
    lemma_pow2_pos(1074);
    if n == 0 {
        assert(0 * p == 0) by (nonlinear_arith);
    } else {
        let x = scaled_integer(n as int);
        assert(x != 0 && (n > 0 ==> x > 0) && (n < 0 ==> x < 0)) by (nonlinear_arith)
            requires
                x == n * p,
                p > 0,
                n != 0,
        ;
        nearest_is_nearest(x, c);
        if -0x20_0000_0000_0000 < n < 0x20_0000_0000_0000 {
            let size = if n > 0 {
                n as nat
            } else {
                (-n) as nat
            };
            let bits = bit_length(size);
            bit_length_bounds(size);
            assert(bits <= 53) by {
                if bits > 53 {
                    if bits > 54 {
                        vstd::arithmetic::power2::lemma_pow2_strictly_increases(
                            53,
                            (bits - 1) as nat,
                        );
                    }
                }
            }
            let up = (53 - bits) as nat;
            let k = (1074 - up) as nat;
            let q = size * pow2(up);
            bit_length_scaled(size, up);
            lemma_pow2_pos(up);
            assert(q > 0) by (nonlinear_arith)
                requires
                    q == size * pow2(up),
                    size > 0,
                    pow2(up) > 0,
            ;
            bit_length_bounds(q);
            scaled_parts(k, q);
            lemma_pow2_adds(up, k);
            assert(q * pow2(k) == size * p) by (nonlinear_arith)
                requires
                    q == size * pow2(up),
                    p == pow2(up) * pow2(k),
            ;
            let mag = (k * FRACTIONS + q) as nat;
            assert(mag <= INFINITY);
            let same = if n > 0 {
                mag as u64
            } else {
                (SIGN + mag) as u64
            };
            assert(scaled_double(same) == x) by {
                if n < 0 {
                    assert(-(size * p) == n * p) by (nonlinear_arith)
                        requires
                            size == -n,
                    ;
                }
            }
            nearest_is_nearest(x, same);
        }
    }
}

} // verus!
