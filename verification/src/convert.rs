use crate::number::Number;
use crate::number::is_nan_bits;
use crate::number::magnitude;
use crate::number::normalized;
use crate::number::sign;
use crate::number::INFINITY_BITS;
use vstd::arithmetic::div_mod::lemma_div_by_multiple;
use vstd::arithmetic::div_mod::lemma_div_denominator;
use vstd::arithmetic::div_mod::lemma_mod_multiples_basic;
use vstd::arithmetic::power2::lemma_pow2_adds;
use vstd::arithmetic::power2::lemma_pow2_pos;
use vstd::arithmetic::power2::lemma2_to64;
use vstd::arithmetic::power2::lemma2_to64_rest;
use vstd::arithmetic::power2::lemma_pow2_strictly_increases;
use vstd::arithmetic::power2::lemma_pow2_unfold;
use vstd::arithmetic::power2::pow2;
use vstd::prelude::*;

verus! {

/// 2 to the power 52: the weight of the hidden bit of a binary64 significand.
pub const TWO_52: u64 = 0x10_0000_0000_0000;

/// 2 to the power 53: up to here every natural number is a binary64 number.
pub const TWO_53: u64 = 0x20_0000_0000_0000;

/// The exponent field of a number whose significand counts units of 1.
pub const UNIT_EXPONENT: u64 = 1075;

/// How often a positive number below 2^52 is doubled until it reaches 2^52.
pub open spec fn doublings(n: nat) -> nat
    decreases
            (if n < TWO_52 {
                TWO_52 - n
            } else {
                0
            }),
{
    if 0 < n < TWO_52 {
        1 + doublings(2 * n)
    } else {
        0
    }
}

/// How often a number is halved until it is below 2^53.
pub open spec fn halvings(n: nat) -> nat
    decreases n,
{
    if n >= TWO_53 {
        1 + halvings(n / 2)
    } else {
        0
    }
}

/// `n / unit`, rounded to the nearest whole number, and to the even one
/// where two are equally near.
pub open spec fn round_half_even(n: nat, unit: nat) -> nat {
    let q = n / unit;
    let r = n % unit;
    if 2 * r > unit || (2 * r == unit && q % 2 == 1) {
        q + 1
    } else {
        q
    }
}

/// The binary64 bit pattern of the number nearest to a natural number
/// below 2^128.
///
/// Below 2^53 that number is `n` itself: its significand is `n`, doubled
/// until the hidden bit is set, and the exponent is lowered once for each
/// doubling. From 2^53 on the significand is `n` in units of
/// `pow2(halvings(n))`, rounded half to even, and the exponent is raised
/// once for each halving; a significand that rounding takes to 2^53 carries
/// into the exponent.
pub open spec fn nat_bits(n: nat) -> u64 {
    if n == 0 {
        0
    } else if n < TWO_53 {
        let k = doublings(n);
        ((UNIT_EXPONENT - k) * TWO_52 + (n * pow2(k) - TWO_52)) as u64
    } else {
        let s = halvings(n);
        ((UNIT_EXPONENT + s) * TWO_52 + (round_half_even(n, pow2(s)) - TWO_52)) as u64
    }
}

/// The binary64 bit pattern of the number nearest to a whole number
/// between -2^127 and 2^128: that of its size, with the sign bit set where
/// it is negative.
pub open spec fn int_bits(n: int) -> u64 {
    if n < 0 {
        (0x8000_0000_0000_0000 + nat_bits((-n) as nat)) as u64
    } else {
        nat_bits(n as nat)
    }
}

impl Number {
    /// The number nearest to `n`, ties going to the even significand.
    pub fn from_u64(n: u64) -> (r: Number)
        ensures
            r@ == nat_bits(n as nat),
            integer_of(r@) == Some(nearest(n as nat) as int),
            !sign(r@),
    {
        proof {
            lemma_nat_bits_nearest(n as nat);
            lemma_nat_bits_plain(n as nat);
        }
        if n == 0 {
            return Number::new(0);
        }
        proof {
            lemma2_to64();
            lemma2_to64_rest();
        }
        if n < TWO_53 {
            let mut m: u64 = n;
            let mut e: u64 = UNIT_EXPONENT;
            let ghost mut k: nat = 0;
            while m < TWO_52
                invariant
                    0 < n < TWO_53,
                    0 < m < TWO_53,
                    m == n * pow2(k),
                    e == UNIT_EXPONENT - k,
                    k <= 52,
                    doublings(n as nat) == k + doublings(m as nat),
                decreases TWO_53 - m,
            {
                proof {
                    lemma_pow2_unfold(k + 1);
                    lemma2_to64();
                    lemma2_to64_rest();
                    assert(n * pow2(k) >= pow2(k)) by (nonlinear_arith)
                        requires
                            n >= 1,
                    ;
                    assert(k < 52) by {
                        if k > 52 {
                            lemma_pow2_strictly_increases(52, k);
                        }
                    }
                    assert(n * (2 * pow2(k)) == 2 * (n * pow2(k))) by (nonlinear_arith);
                }
                m = m * 2;
                e = e - 1;
                proof {
                    k = k + 1;
                }
            }
            Number::new(e * TWO_52 + (m - TWO_52))
        } else {
            let mut q: u64 = n;
            let mut unit: u64 = 1;
            let mut e: u64 = UNIT_EXPONENT;
            let ghost mut s: nat = 0;
            while q >= TWO_53
                invariant
                    n >= TWO_53,
                    q == n / unit,
                    q >= TWO_52,
                    0 < unit <= 2048,
                    unit == pow2(s),
                    e == UNIT_EXPONENT + s,
                    s <= 11,
                    halvings(n as nat) == s + halvings(q as nat),
                decreases q,
            {
                proof {
                    lemma_pow2_unfold(s + 1);
                    lemma2_to64();
                    lemma2_to64_rest();
                    lemma_div_denominator(n as int, unit as int, 2);
                    assert(s < 11) by {
                        if s == 11 {
                            assert(unit == 2048);
                            assert(n as int / 2048 < TWO_53);
                        }
                    }
                    if s + 1 < 11 {
                        lemma_pow2_strictly_increases(s + 1, 11);
                    }
                }
                q = q / 2;
                unit = unit * 2;
                e = e + 1;
                proof {
                    s = s + 1;
                }
            }
            let r: u64 = n % unit;
            let up: bool = 2 * r > unit || (2 * r == unit && q % 2 == 1);
            let m: u64 = if up {
                q + 1
            } else {
                q
            };
            Number::new(e * TWO_52 + (m - TWO_52))
        }
    }

    /// The number nearest to `n`, ties going to the even significand.
    pub fn from_i64(n: i64) -> (r: Number)
        ensures
            r@ == int_bits(n as int),
            integer_of(r@) == Some(
                if n < 0 {
                    -(nearest((-n) as nat) as int)
                } else {
                    nearest(n as nat) as int
                },
            ),
    {
        if n < 0 {
            let size: u64 = if n == i64::MIN {
                0x8000_0000_0000_0000
            } else {
                (-n) as u64
            };
            let positive = Number::from_u64(size);
            proof {
                lemma_nat_bits_plain(size as nat);
            }
            Number::new(positive.to_bits() + 0x8000_0000_0000_0000)
        } else {
            Number::from_u64(n as u64)
        }
    }

    /// The number nearest to `n`, ties going to the even significand.
    pub fn from_u128(n: u128) -> (r: Number)
        ensures
            r@ == nat_bits(n as nat),
            integer_of(r@) == Some(nearest(n as nat) as int),
            !sign(r@),
    {
        proof {
            lemma_nat_bits_nearest(n as nat);
            lemma_nat_bits_plain(n as nat);
        }
        if n <= 0xffff_ffff_ffff_ffff {
            return Number::from_u64(n as u64);
        }
        proof {
            lemma2_to64();
            lemma2_to64_rest();
            lemma_pow2_wide();
        }
        let mut q: u128 = n;
        let mut unit: u128 = 1;
        let mut e: u64 = UNIT_EXPONENT;
        let ghost mut s: nat = 0;
        while q >= 0x20_0000_0000_0000
            invariant
                n >= TWO_53,
                q == n / unit,
                q >= TWO_52,
                0 < unit <= 0x800_0000_0000_0000_0000,
                unit == pow2(s),
                e == UNIT_EXPONENT + s,
                s <= 75,
                halvings(n as nat) == s + halvings(q as nat),
            decreases q,
        {
            proof {
                lemma_pow2_unfold(s + 1);
                lemma2_to64();
                lemma_pow2_wide();
                lemma_div_denominator(n as int, unit as int, 2);
                assert(s < 75) by {
                    if s == 75 {
                        assert(unit == 0x800_0000_0000_0000_0000);
                        assert(n as int / 0x800_0000_0000_0000_0000 < TWO_53);
                    }
                }
                if s + 1 < 75 {
                    lemma_pow2_strictly_increases(s + 1, 75);
                }
            }
            q = q / 2;
            unit = unit * 2;
            e = e + 1;
            proof {
                s = s + 1;
            }
        }
        let r: u128 = n % unit;
        let up: bool = 2 * r > unit || (2 * r == unit && q % 2 == 1);
        let m: u64 = if up {
            (q + 1) as u64
        } else {
            q as u64
        };
        Number::new(e * TWO_52 + (m - TWO_52))
    }

    /// The number nearest to `n`, ties going to the even significand.
    pub fn from_i128(n: i128) -> (r: Number)
        ensures
            r@ == int_bits(n as int),
            integer_of(r@) == Some(
                if n < 0 {
                    -(nearest((-n) as nat) as int)
                } else {
                    nearest(n as nat) as int
                },
            ),
    {
        if n < 0 {
            let size: u128 = if n == i128::MIN {
                0x8000_0000_0000_0000_0000_0000_0000_0000
            } else {
                (-n) as u128
            };
            let positive = Number::from_u128(size);
            proof {
                lemma_nat_bits_plain(size as nat);
            }
            Number::new(positive.to_bits() + 0x8000_0000_0000_0000)
        } else {
            Number::from_u128(n as u128)
        }
    }

    /// The number nearest to `n`, ties going to the even significand.
    pub fn from_usize(n: usize) -> (r: Number)
        ensures
            r@ == nat_bits(n as nat),
            integer_of(r@) == Some(nearest(n as nat) as int),
            !sign(r@),
    {
        Number::from_u64(n as u64)
    }
}

/// The whole number that a bit pattern stands for, if it stands for one.
///
/// A number with exponent field `e` between 1 and 2046 and fraction field
/// `f` has the value `(2^52 + f) * 2^(e - 1075)`, negated where the sign
/// bit is set. That is a whole number where the exponent is not negative,
/// and where the significand is a multiple of `2^(1075 - e)`. The zeros
/// stand for 0. The numbers with exponent field 0 are smaller than 1, and
/// those with exponent field 2047 are the infinities and NaN.
pub open spec fn integer_of(bits: u64) -> Option<int> {
    let e = magnitude(bits) / TWO_52;
    let m = TWO_52 + magnitude(bits) % TWO_52;
    let whole: Option<int> = if magnitude(bits) == 0 {
        Some(0)
    } else if e == 0 || e == 2047 {
        None
    } else if e >= UNIT_EXPONENT {
        Some(m * pow2((e - UNIT_EXPONENT) as nat))
    } else if m % (pow2((UNIT_EXPONENT - e) as nat) as int) == 0 {
        Some(m / (pow2((UNIT_EXPONENT - e) as nat) as int))
    } else {
        None
    };
    match whole {
        Some(w) => Some(
            if sign(bits) {
                -w
            } else {
                w
            },
        ),
        None => None,
    }
}

/// Doubling a positive number below 2^53 as often as `doublings` says
/// takes it to at least 2^52 and keeps it below 2^53.
pub proof fn lemma_doublings(n: nat)
    requires
        0 < n < TWO_53,
    ensures
        doublings(n) <= 52,
        TWO_52 <= n * pow2(doublings(n)) < TWO_53,
    decreases
            (if n < TWO_52 {
                TWO_52 - n
            } else {
                0
            }),
{
    lemma2_to64();
    if n >= TWO_52 {
        assert(doublings(n) == 0);
        assert(pow2(0) == 1);
        assert(n * pow2(0) == n) by (nonlinear_arith)
            requires
                pow2(0) == 1,
        ;
    } else {
        lemma_doublings(2 * n);
        let k = doublings(2 * n);
        assert(doublings(n) == k + 1);
        lemma_pow2_unfold(k + 1);
        assert(pow2(k + 1) == 2 * pow2(k));
        assert(n * (2 * pow2(k)) == (2 * n) * pow2(k)) by (nonlinear_arith);
        assert(n * pow2(k + 1) == (2 * n) * pow2(k));
        if k >= 52 {
            lemma2_to64_rest();
            if k > 52 {
                lemma_pow2_strictly_increases(52, k);
            }
            assert((2 * n) * pow2(k) >= 2 * pow2(k)) by (nonlinear_arith)
                requires
                    n >= 1,
            ;
        }
    }
}

/// 2 to the power 75, and 2 to the power 128.
pub proof fn lemma_pow2_wide()
    ensures
        pow2(75) == 0x800_0000_0000_0000_0000,
        pow2(76) == 0x1000_0000_0000_0000_0000,
        pow2(128) == 0x1_0000_0000_0000_0000_0000_0000_0000_0000,
        pow2(128) == u128::MAX + 1,
{
    lemma2_to64();
    lemma_pow2_adds(64, 11);
    lemma_pow2_adds(64, 12);
    lemma_pow2_adds(64, 64);
    assert(pow2(64) * pow2(11) == 0x800_0000_0000_0000_0000) by (nonlinear_arith)
        requires
            pow2(64) == 0x1_0000_0000_0000_0000,
            pow2(11) == 0x800,
    ;
    assert(pow2(64) * pow2(12) == 0x1000_0000_0000_0000_0000) by (nonlinear_arith)
        requires
            pow2(64) == 0x1_0000_0000_0000_0000,
            pow2(12) == 0x1000,
    ;
    assert(pow2(64) * pow2(64) == 0x1_0000_0000_0000_0000_0000_0000_0000_0000)
        by (nonlinear_arith)
        requires
            pow2(64) == 0x1_0000_0000_0000_0000,
    ;
}

/// Halving a number below 2^128 as often as `halvings` says takes it below
/// 2^53, and no further than 2^52 if it was not below 2^53. That is at
/// most 75 times, and at most 11 times for a number below 2^64.
pub proof fn lemma_halvings(n: nat)
    requires
        n <= u128::MAX,
    ensures
        halvings(n) <= 75,
        n <= u64::MAX ==> halvings(n) <= 11,
        n / pow2(halvings(n)) < TWO_53,
        n >= TWO_53 ==> n / pow2(halvings(n)) >= TWO_52,
{
    lemma2_to64();
    lemma2_to64_rest();
    lemma_pow2_wide();
    assert(n * pow2(0) == n);
    lemma_halvings_from(n, 0, 75);
    if n <= u64::MAX {
        lemma_halvings_from(n, 0, 11);
    }
}

/// The same, for a number that has been halved `done` times already and
/// was below 2^(53 + limit) before.
proof fn lemma_halvings_from(n: nat, done: nat, limit: nat)
    requires
        n * pow2(done) < pow2(53 + limit),
        done <= limit,
    ensures
        halvings(n) + done <= limit,
        n / pow2(halvings(n)) < TWO_53,
        n >= TWO_53 ==> n / pow2(halvings(n)) >= TWO_52,
    decreases n,
{
    lemma2_to64();
    lemma2_to64_rest();
    if n >= TWO_53 {
        assert(done < limit) by {
            if done == limit {
                lemma_pow2_adds(53, limit);
                assert(n * pow2(limit) >= pow2(53) * pow2(limit)) by (nonlinear_arith)
                    requires
                        n >= pow2(53),
                ;
            }
        }
        lemma_pow2_unfold(done + 1);
        lemma_pow2_pos(done);
        assert((n / 2) * (2 * pow2(done)) <= n * pow2(done)) by (nonlinear_arith)
            requires
                pow2(done) > 0,
        ;
        lemma_halvings_from(n / 2, done + 1, limit);
        let s = halvings(n / 2);
        lemma_pow2_unfold(s + 1);
        lemma_pow2_pos(s);
        lemma_div_denominator(n as int, 2, pow2(s) as int);
    }
}

/// The bit pattern of a natural number below 2^128 is that of a number
/// that is neither negative nor NaN, so it is its own key; and only 0 has
/// the bit pattern of zero.
pub proof fn lemma_nat_bits_plain(n: nat)
    requires
        n <= u128::MAX,
    ensures
        nat_bits(n) < INFINITY_BITS,
        normalized(nat_bits(n)) == nat_bits(n),
        nat_bits(n) == 0 <==> n == 0,
{
    lemma2_to64();
    if n == 0 {
    } else if n < TWO_53 {
        lemma_doublings(n);
    } else {
        lemma_halvings(n);
        let s = halvings(n);
        lemma_pow2_pos(s);
        let q = n / pow2(s);
        assert(q <= round_half_even(n, pow2(s)) <= q + 1);
    }
}

/// The bit pattern of a natural number up to 2^53 stands for that number.
pub proof fn lemma_nat_bits_exact(n: nat)
    requires
        n <= TWO_53,
    ensures
        integer_of(nat_bits(n)) == Some(n as int),
{
    lemma2_to64();
    lemma2_to64_rest();
    if n == 0 {
    } else if n < TWO_53 {
        lemma_doublings(n);
        let k = doublings(n);
        let m = n * pow2(k);
        let bits = nat_bits(n);
        assert(bits == (UNIT_EXPONENT - k) * TWO_52 + (m - TWO_52));
        assert(magnitude(bits) == bits);
        assert(bits / TWO_52 == UNIT_EXPONENT - k && bits % TWO_52 == m - TWO_52) by {
            let e = (UNIT_EXPONENT - k) as int;
            let f = (m - TWO_52) as int;
            assert(0 <= f < 0x10_0000_0000_0000);
            assert((e * 0x10_0000_0000_0000 + f) / 0x10_0000_0000_0000 == e && (e
                * 0x10_0000_0000_0000 + f) % 0x10_0000_0000_0000 == f) by (nonlinear_arith)
                requires
                    0 <= f < 0x10_0000_0000_0000,
                    0 <= e,
            ;
        }
        lemma_pow2_pos(k);
        lemma_mod_multiples_basic(n as int, pow2(k) as int);
        lemma_div_by_multiple(n as int, pow2(k) as int);
        let e = magnitude(bits) / TWO_52;
        assert(e == UNIT_EXPONENT - k);
        assert(TWO_52 + magnitude(bits) % TWO_52 == m);
        assert(1023 <= e <= 1075);
        if k == 0 {
            assert(pow2(0) == 1);
            assert(m * pow2(0) == n) by (nonlinear_arith)
                requires
                    m == n * pow2(0),
                    pow2(0) == 1,
            ;
            assert(integer_of(bits) == Some(n as int));
        } else {
            assert((UNIT_EXPONENT - e) as nat == k);
            assert((m as int) % (pow2(k) as int) == 0);
            assert((m as int) / (pow2(k) as int) == n);
            assert(integer_of(bits) == Some(n as int));
        }
    } else {
        assert(halvings(n) == 1) by {
            reveal_with_fuel(halvings, 2);
        }
        assert(pow2(1) == 2);
        assert(round_half_even(n, 2) == TWO_52);
        assert(nat_bits(n) == (UNIT_EXPONENT + 1) * TWO_52 + 0);
        assert(nat_bits(n) == 0x4340_0000_0000_0000);
        assert(magnitude(nat_bits(n)) / TWO_52 == 1076);
        assert(magnitude(nat_bits(n)) % TWO_52 == 0);
        assert(pow2(1) == 2);
        assert((TWO_52 + 0) * pow2(1) == n) by (nonlinear_arith)
            requires
                pow2(1) == 2,
                n == 2 * TWO_52,
        ;
        assert(integer_of(nat_bits(n)) == Some(n as int));
    }
}

/// The whole number nearest to `n` among those that binary64 numbers stand
/// for: `n` itself below 2^53, and from there on `n` rounded to a multiple
/// of `pow2(halvings(n))`, half to even.
pub open spec fn nearest(n: nat) -> nat {
    if n < TWO_53 {
        n
    } else {
        round_half_even(n, pow2(halvings(n))) * pow2(halvings(n))
    }
}

/// The bit pattern of a natural number below 2^128 stands for the whole
/// number nearest to it.
pub proof fn lemma_nat_bits_nearest(n: nat)
    requires
        n <= u128::MAX,
    ensures
        integer_of(nat_bits(n)) == Some(nearest(n) as int),
{
    lemma2_to64();
    lemma2_to64_rest();
    if n < TWO_53 {
        lemma_nat_bits_exact(n);
    } else {
        lemma_halvings(n);
        let s = halvings(n);
        lemma_pow2_pos(s);
        lemma_pow2_unfold(s + 1);
        let q = n / pow2(s);
        let m = round_half_even(n, pow2(s));
        assert(q <= m <= q + 1);
        let bits = nat_bits(n);
        assert(bits == (UNIT_EXPONENT + s) * TWO_52 + (m - TWO_52));
        assert(magnitude(bits) == bits);
        if m < TWO_53 {
            let e = (UNIT_EXPONENT + s) as int;
            let f = (m - TWO_52) as int;
            assert((e * 0x10_0000_0000_0000 + f) / 0x10_0000_0000_0000 == e && (e
                * 0x10_0000_0000_0000 + f) % 0x10_0000_0000_0000 == f) by (nonlinear_arith)
                requires
                    0 <= f < 0x10_0000_0000_0000,
                    0 <= e,
            ;
            assert(magnitude(bits) / TWO_52 == e);
            assert(TWO_52 + magnitude(bits) % TWO_52 == m);
            assert((e - UNIT_EXPONENT) as nat == s);
            assert(integer_of(bits) == Some((m * pow2(s)) as int));
        } else {
            let e = (UNIT_EXPONENT + s + 1) as int;
            assert(bits == e * TWO_52);
            assert((e * 0x10_0000_0000_0000) / 0x10_0000_0000_0000 == e && (e
                * 0x10_0000_0000_0000) % 0x10_0000_0000_0000 == 0) by (nonlinear_arith)
                requires
                    0 <= e,
            ;
            assert(magnitude(bits) / TWO_52 == e);
            assert(magnitude(bits) % TWO_52 == 0);
            assert((e - UNIT_EXPONENT) as nat == s + 1);
            assert(TWO_52 * (2 * pow2(s)) == m * pow2(s)) by (nonlinear_arith)
                requires
                    m == 2 * TWO_52,
            ;
            assert(integer_of(bits) == Some((m * pow2(s)) as int));
        }
    }
}

/// Two natural numbers up to 2^53 with the same bit pattern are the same.
pub proof fn lemma_nat_bits_injective(i: nat, j: nat)
    requires
        i <= TWO_53,
        j <= TWO_53,
        nat_bits(i) == nat_bits(j),
    ensures
        i == j,
{
    lemma_nat_bits_exact(i);
    lemma_nat_bits_exact(j);
}

/// The size of the whole part of the number that a bit pattern stands
/// for, if it stands for a number: the number without its sign and without
/// what comes after the point. The infinities count as 2^1024 here.
pub open spec fn whole_size(bits: u64) -> nat {
    let e = magnitude(bits) / TWO_52;
    let m = TWO_52 + magnitude(bits) % TWO_52;
    if e < 1023 {
        0
    } else if e >= UNIT_EXPONENT {
        (m * pow2((e - UNIT_EXPONENT) as nat)) as nat
    } else {
        ((m as int) / (pow2((UNIT_EXPONENT - e) as nat) as int)) as nat
    }
}

/// The whole number between `low` and `high` that a number converts into:
/// 0 for NaN, otherwise the number rounded towards zero, or the bound where
/// that lies beyond one.
pub open spec fn clamped(bits: u64, low: int, high: int) -> int {
    let whole = if sign(bits) {
        -(whole_size(bits) as int)
    } else {
        whole_size(bits) as int
    };
    if is_nan_bits(bits) {
        0
    } else if whole < low {
        low
    } else if whole > high {
        high
    } else {
        whole
    }
}

/// A number that stands for a whole number converts into that number,
/// where it lies between the bounds.
pub proof fn lemma_clamped_whole(bits: u64, low: int, high: int)
    requires
        integer_of(bits) is Some,
        low <= integer_of(bits)->Some_0 <= high,
    ensures
        clamped(bits, low, high) == integer_of(bits)->Some_0,
{
    lemma2_to64();
    lemma2_to64_rest();
    let e = magnitude(bits) / TWO_52;
    let m = TWO_52 + magnitude(bits) % TWO_52;
    assert(!is_nan_bits(bits)) by {
        if is_nan_bits(bits) {
            assert(e == 2047);
        }
    }
    if magnitude(bits) == 0 {
        assert(e == 0);
        assert(whole_size(bits) == 0);
    } else if e >= UNIT_EXPONENT {
        assert(e != 2047);
        lemma_pow2_pos((e - UNIT_EXPONENT) as nat);
        assert(m * pow2((e - UNIT_EXPONENT) as nat) >= 0) by (nonlinear_arith)
            requires
                m >= 0,
                pow2((e - UNIT_EXPONENT) as nat) > 0,
        ;
        assert(whole_size(bits) == m * pow2((e - UNIT_EXPONENT) as nat));
    } else {
        let k = (UNIT_EXPONENT - e) as nat;
        assert(e != 0);
        lemma_pow2_pos(k);
        assert((m as int) % (pow2(k) as int) == 0);
        assert(e >= 1023) by {
            if e < 1023 {
                if k > 53 {
                    lemma_pow2_strictly_increases(53, k);
                }
                assert(m < pow2(k));
                assert((m as int) % (pow2(k) as int) == m) by (nonlinear_arith)
                    requires
                        0 <= m < pow2(k),
                ;
            }
        }
        assert((m as int) / (pow2(k) as int) >= 0) by (nonlinear_arith)
            requires
                m >= 0,
                pow2(k) > 0,
        ;
        assert(whole_size(bits) == (m as int) / (pow2(k) as int));
    }
}

impl Number {
    /// The size of the whole part, or nothing where it is 2^64 or more.
    fn whole_size(&self) -> (r: Option<u64>)
        ensures
            match r {
                Some(size) => size == whole_size(self@),
                None => whole_size(self@) > u64::MAX,
            },
    {
        let bits = self.to_bits();
        let mag: u64 = if bits >= 0x8000_0000_0000_0000 {
            bits - 0x8000_0000_0000_0000
        } else {
            bits
        };
        let e: u64 = mag / TWO_52;
        let m: u64 = TWO_52 + mag % TWO_52;
        proof {
            lemma2_to64();
            lemma2_to64_rest();
        }
        if e < 1023 {
            Some(0)
        } else if e < UNIT_EXPONENT {
            let mut size: u64 = m;
            let mut done: u64 = 0;
            while done < UNIT_EXPONENT - e
                invariant
                    1023 <= e < UNIT_EXPONENT,
                    done <= UNIT_EXPONENT - e,
                    size == (m as int) / (pow2(done as nat) as int),
                decreases UNIT_EXPONENT - e - done,
            {
                proof {
                    lemma_pow2_pos(done as nat);
                    lemma_pow2_unfold((done + 1) as nat);
                    lemma_div_denominator(m as int, pow2(done as nat) as int, 2);
                }
                size = size / 2;
                done = done + 1;
            }
            Some(size)
        } else if e - UNIT_EXPONENT >= 12 {
            proof {
                let k = (e - UNIT_EXPONENT) as nat;
                if k > 12 {
                    lemma_pow2_strictly_increases(12, k);
                }
                assert(m * pow2(k) >= TWO_52 * 4096) by (nonlinear_arith)
                    requires
                        m >= TWO_52,
                        pow2(k) >= 4096,
                ;
            }
            None
        } else {
            let mut size: u64 = m;
            let mut done: u64 = 0;
            while done < e - UNIT_EXPONENT
                invariant
                    UNIT_EXPONENT <= e,
                    e - UNIT_EXPONENT < 12,
                    done <= e - UNIT_EXPONENT,
                    m < TWO_53,
                    size == m * pow2(done as nat),
                    size < TWO_53 * pow2(done as nat),
                decreases e - UNIT_EXPONENT - done,
            {
                proof {
                    lemma_pow2_unfold((done + 1) as nat);
                    lemma2_to64();
                    if done < 10 {
                        lemma_pow2_strictly_increases(done as nat, 10);
                    }
                    assert(pow2(done as nat) <= 1024);
                    assert(TWO_53 * pow2(done as nat) <= TWO_53 * 1024) by (nonlinear_arith)
                        requires
                            pow2(done as nat) <= 1024,
                    ;
                    assert(m * (2 * pow2(done as nat)) == 2 * (m * pow2(done as nat)))
                        by (nonlinear_arith);
                    assert(TWO_53 * (2 * pow2(done as nat)) == 2 * (TWO_53 * pow2(done as nat)))
                        by (nonlinear_arith);
                }
                size = size * 2;
                done = done + 1;
            }
            Some(size)
        }
    }

    /// The size of the whole part, or nothing where it is 2^128 or more.
    fn whole_size_wide(&self) -> (r: Option<u128>)
        ensures
            match r {
                Some(size) => size == whole_size(self@),
                None => whole_size(self@) > u128::MAX,
            },
    {
        let bits = self.to_bits();
        let mag: u64 = if bits >= 0x8000_0000_0000_0000 {
            bits - 0x8000_0000_0000_0000
        } else {
            bits
        };
        let e: u64 = mag / TWO_52;
        let m: u64 = TWO_52 + mag % TWO_52;
        proof {
            lemma2_to64();
            lemma2_to64_rest();
            lemma_pow2_wide();
        }
        if e < UNIT_EXPONENT {
            match self.whole_size() {
                Some(size) => Some(size as u128),
                None => None,
            }
        } else if e - UNIT_EXPONENT >= 76 {
            proof {
                let k = (e - UNIT_EXPONENT) as nat;
                if k > 76 {
                    lemma_pow2_strictly_increases(76, k);
                }
                assert(m * pow2(k) >= TWO_52 * 0x1000_0000_0000_0000_0000) by (nonlinear_arith)
                    requires
                        m >= TWO_52,
                        pow2(k) >= 0x1000_0000_0000_0000_0000,
                ;
            }
            None
        } else {
            let mut size: u128 = m as u128;
            let mut done: u64 = 0;
            while done < e - UNIT_EXPONENT
                invariant
                    UNIT_EXPONENT <= e,
                    e - UNIT_EXPONENT < 76,
                    done <= e - UNIT_EXPONENT,
                    m < TWO_53,
                    size == m * pow2(done as nat),
                    size < TWO_53 * pow2(done as nat),
                decreases e - UNIT_EXPONENT - done,
            {
                proof {
                    lemma_pow2_unfold((done + 1) as nat);
                    lemma_pow2_wide();
                    if done < 74 {
                        lemma_pow2_strictly_increases(done as nat, 74);
                    }
                    lemma_pow2_unfold(75);
                    assert(pow2(done as nat) <= 0x400_0000_0000_0000_0000);
                    assert(TWO_53 * pow2(done as nat) <= TWO_53 * 0x400_0000_0000_0000_0000)
                        by (nonlinear_arith)
                        requires
                            pow2(done as nat) <= 0x400_0000_0000_0000_0000,
                    ;
                    assert(m * (2 * pow2(done as nat)) == 2 * (m * pow2(done as nat)))
                        by (nonlinear_arith);
                    assert(TWO_53 * (2 * pow2(done as nat)) == 2 * (TWO_53 * pow2(done as nat)))
                        by (nonlinear_arith);
                }
                size = size * 2;
                done = done + 1;
            }
            Some(size)
        }
    }

    /// The whole number that this number converts into: 0 for NaN,
    /// otherwise the number rounded towards zero, or the least or the
    /// greatest there is where that lies beyond it.
    pub fn to_i128(&self) -> (r: i128)
        ensures
            r == clamped(self@, i128::MIN as int, i128::MAX as int),
    {
        if self.is_nan() {
            return 0;
        }
        let negative = self.to_bits() >= 0x8000_0000_0000_0000;
        match self.whole_size_wide() {
            Some(size) => {
                if negative {
                    if size >= 0x8000_0000_0000_0000_0000_0000_0000_0000 {
                        i128::MIN
                    } else {
                        -(size as i128)
                    }
                } else {
                    if size > 0x7fff_ffff_ffff_ffff_ffff_ffff_ffff_ffff {
                        i128::MAX
                    } else {
                        size as i128
                    }
                }
            },
            None => if negative {
                i128::MIN
            } else {
                i128::MAX
            },
        }
    }

    /// The natural number that this number converts into: 0 for NaN and
    /// for the negative numbers, otherwise the number rounded down, or the
    /// greatest there is where that lies beyond it.
    pub fn to_u128(&self) -> (r: u128)
        ensures
            r == clamped(self@, 0, u128::MAX as int),
    {
        if self.is_nan() {
            return 0;
        }
        let negative = self.to_bits() >= 0x8000_0000_0000_0000;
        match self.whole_size_wide() {
            Some(size) => if negative {
                0
            } else {
                size
            },
            None => if negative {
                0
            } else {
                u128::MAX
            },
        }
    }

    /// The whole number that this number converts into: 0 for NaN,
    /// otherwise the number rounded towards zero, or the least or the
    /// greatest there is where that lies beyond it.
    pub fn to_i64(&self) -> (r: i64)
        ensures
            r == clamped(self@, i64::MIN as int, i64::MAX as int),
    {
        if self.is_nan() {
            return 0;
        }
        let negative = self.to_bits() >= 0x8000_0000_0000_0000;
        match self.whole_size() {
            Some(size) => {
                if negative {
                    if size >= 0x8000_0000_0000_0000 {
                        i64::MIN
                    } else {
                        -(size as i64)
                    }
                } else {
                    if size > 0x7fff_ffff_ffff_ffff {
                        i64::MAX
                    } else {
                        size as i64
                    }
                }
            },
            None => if negative {
                i64::MIN
            } else {
                i64::MAX
            },
        }
    }

    /// The natural number that this number converts into: 0 for NaN and
    /// for the negative numbers, otherwise the number rounded down, or the
    /// greatest there is where that lies beyond it.
    pub fn to_u64(&self) -> (r: u64)
        ensures
            r == clamped(self@, 0, u64::MAX as int),
    {
        if self.is_nan() {
            return 0;
        }
        let negative = self.to_bits() >= 0x8000_0000_0000_0000;
        match self.whole_size() {
            Some(size) => if negative {
                0
            } else {
                size
            },
            None => if negative {
                0
            } else {
                u64::MAX
            },
        }
    }
}

} // verus!
