use core::cmp::Ordering;
use vstd::prelude::*;
use vstd::std_specs::cmp::PartialEqSpec;

verus! {

/// The sign bit of a binary64 bit pattern.
pub const SIGN_BIT: u64 = 0x8000_0000_0000_0000;

/// The bit pattern of positive infinity: every larger magnitude is a NaN.
pub const INFINITY_BITS: u64 = 0x7ff0_0000_0000_0000;

/// The bit pattern that stands for every NaN where one pattern is needed.
pub const NAN_BITS: u64 = 0x7ff8_0000_0000_0000;

/// The bit pattern of the least finite number, which every NaN hashes as.
pub const MIN_BITS: u64 = 0xffef_ffff_ffff_ffff;

/// The bit pattern without its sign bit.
pub open spec fn magnitude(bits: u64) -> u64 {
    if bits >= SIGN_BIT {
        (bits - SIGN_BIT) as u64
    } else {
        bits
    }
}

/// Whether the sign bit is set.
pub open spec fn sign(bits: u64) -> bool {
    bits >= SIGN_BIT
}

/// Whether the bit pattern is a NaN: all exponent bits set and a fraction that is not zero.
pub open spec fn is_nan_bits(bits: u64) -> bool {
    magnitude(bits) > INFINITY_BITS
}

/// Whether the bit pattern is positive or negative zero.
pub open spec fn is_zero_bits(bits: u64) -> bool {
    magnitude(bits) == 0
}

/// The place of a bit pattern in the total order of numbers.
///
/// Every NaN has the same rank, below that of negative infinity. Both zeros
/// have rank 0. Otherwise a number is ranked by its magnitude, upwards for
/// the positive numbers and downwards for the negative ones, which is the
/// order of the binary64 values themselves.
pub open spec fn rank(bits: u64) -> int {
    if is_nan_bits(bits) {
        -(SIGN_BIT as int)
    } else if sign(bits) {
        -(magnitude(bits) as int)
    } else {
        magnitude(bits) as int
    }
}

/// The bit pattern with the sign bit turned: that of the negated number.
pub open spec fn negated(bits: u64) -> u64 {
    if bits >= SIGN_BIT {
        (bits - SIGN_BIT) as u64
    } else {
        (bits + SIGN_BIT) as u64
    }
}

/// One bit pattern for each rank: NaNs become `NAN_BITS`, negative zero
/// becomes positive zero, every other pattern stands for itself.
pub open spec fn normalized(bits: u64) -> u64 {
    if is_nan_bits(bits) {
        NAN_BITS
    } else if is_zero_bits(bits) {
        0
    } else {
        bits
    }
}

/// What a number feeds to a hasher: `MIN_BITS` for a NaN, zero for both
/// zeros, the bit pattern itself otherwise.
pub open spec fn hash_bits(bits: u64) -> u64 {
    if is_nan_bits(bits) {
        MIN_BITS
    } else if is_zero_bits(bits) {
        0
    } else {
        bits
    }
}

/// Two bit patterns are normalized to the same pattern exactly when they
/// have the same rank.
pub proof fn lemma_normalized_rank(a: u64, b: u64)
    ensures
        normalized(a) == normalized(b) <==> rank(a) == rank(b),
{
}

/// A binary64 number, held as its bit pattern, with a total order in which
/// NaN is equal to itself and less than every other number.
#[derive(Clone, Copy, Debug)]
pub struct Number {
    bits: u64,
}

impl View for Number {
    type V = u64;

    /// The bit pattern.
    closed spec fn view(&self) -> u64 {
        self.bits
    }
}

/// The number with the given binary64 bit pattern.
pub closed spec fn number_of(bits: u64) -> Number {
    Number { bits }
}

/// A number is its bit pattern and nothing else.
pub proof fn lemma_number_of(bits: u64)
    ensures
        number_of(bits)@ == bits,
{
}

/// Numbers with the same bit pattern are the same.
pub proof fn lemma_number_is_bits(a: Number, b: Number)
    ensures
        a@ == b@ <==> a == b,
        a == number_of(a@),
{
}

impl Number {
    /// The number with the given binary64 bit pattern.
    pub fn new(bits: u64) -> (n: Number)
        ensures
            n@ == bits,
            n == number_of(bits),
    {
        Number { bits }
    }

    /// The number that a text stands for. To read the text as a binary64
    /// number is left to `read`, which gives the bit pattern or nothing;
    /// a text that it makes nothing of stands for NaN.
    pub fn parse<F: FnOnce(&str) -> Option<u64>>(s: &str, read: F) -> (n: Number)
        requires
            call_requires(read, (s,)),
        ensures
            exists|bits: Option<u64>| #[trigger]
                call_ensures(read, (s,), bits) && n@ == (match bits {
                    Some(b) => b,
                    None => NAN_BITS,
                }),
    {
        match read(s) {
            Some(bits) => Number { bits },
            None => Number { bits: NAN_BITS },
        }
    }

    /// The binary64 bit pattern of this number.
    pub fn to_bits(&self) -> (bits: u64)
        ensures
            bits == self@,
    {
        self.bits
    }

    fn magnitude(&self) -> (m: u64)
        ensures
            m == magnitude(self@),
    {
        if self.bits >= SIGN_BIT {
            self.bits - SIGN_BIT
        } else {
            self.bits
        }
    }

    /// Whether this number is a NaN.
    pub fn is_nan(&self) -> (r: bool)
        ensures
            r == is_nan_bits(self@),
    {
        self.magnitude() > INFINITY_BITS
    }

    /// Whether this number is positive or negative zero.
    pub fn is_zero(&self) -> (r: bool)
        ensures
            r == is_zero_bits(self@),
    {
        self.magnitude() == 0
    }

    /// The number negated: the same number with the other sign.
    pub fn negated(&self) -> (n: Number)
        ensures
            n@ == negated(self@),
    {
        if self.bits >= SIGN_BIT {
            Number { bits: self.bits - SIGN_BIT }
        } else {
            Number { bits: self.bits + SIGN_BIT }
        }
    }

    /// Whether this number comes before the other in the total order.
    pub fn less(&self, other: &Number) -> (r: bool)
        ensures
            r == (rank(self@) < rank(other@)),
    {
        match self.total_order(other) {
            Ordering::Less => true,
            _ => false,
        }
    }

    /// The bit pattern that stands for this number among those equal to it.
    pub fn normalized(&self) -> (n: Number)
        ensures
            n@ == normalized(self@),
    {
        if self.is_nan() {
            Number { bits: NAN_BITS }
        } else if self.is_zero() {
            Number { bits: 0 }
        } else {
            *self
        }
    }

    /// The value that this number is hashed as.
    pub fn hash_key(&self) -> (key: u64)
        ensures
            key == hash_bits(self@),
    {
        if self.is_nan() {
            MIN_BITS
        } else if self.is_zero() {
            0
        } else {
            self.bits
        }
    }
}

/// How two bit patterns stand to each other in the total order of numbers.
pub open spec fn order(a: u64, b: u64) -> Ordering {
    if rank(a) < rank(b) {
        Ordering::Less
    } else if rank(a) == rank(b) {
        Ordering::Equal
    } else {
        Ordering::Greater
    }
}

impl Number {
    /// Compares two numbers in the total order: NaN is equal to NaN and less
    /// than every other number, the two zeros are equal.
    pub fn total_order(&self, other: &Number) -> (o: Ordering)
        ensures
            o == order(self@, other@),
    {
        let a_nan = self.is_nan();
        let b_nan = other.is_nan();
        if a_nan || b_nan {
            if a_nan && b_nan {
                Ordering::Equal
            } else if a_nan {
                Ordering::Less
            } else {
                Ordering::Greater
            }
        } else {
            let a_neg = self.bits >= SIGN_BIT;
            let b_neg = other.bits >= SIGN_BIT;
            let a_mag = self.magnitude();
            let b_mag = other.magnitude();
            if a_mag == 0 && b_mag == 0 {
                Ordering::Equal
            } else if a_neg && !b_neg {
                Ordering::Less
            } else if !a_neg && b_neg {
                Ordering::Greater
            } else if a_mag == b_mag {
                Ordering::Equal
            } else if (a_mag < b_mag) != a_neg {
                Ordering::Less
            } else {
                Ordering::Greater
            }
        }
    }
}

/// Feeds a value to a hasher, by `Hasher::write_u64` of the standard
/// library. What the hasher makes of it is its own affair: nothing is
/// claimed of it.
#[verifier::external_body]
fn feed<H: core::hash::Hasher>(state: &mut H, value: u64) {
    state.write_u64(value);
}

impl core::hash::Hash for Number {
    /// Feeds the hasher what `hash_key` gives: the same for numbers that
    /// are equal.
    fn hash<H: core::hash::Hasher>(&self, state: &mut H) {
        feed(state, self.hash_key());
    }
}

impl PartialEq for Number {
    fn eq(&self, other: &Number) -> (r: bool) {
        match self.total_order(other) {
            Ordering::Equal => true,
            _ => false,
        }
    }
}

impl vstd::std_specs::cmp::PartialEqSpecImpl for Number {
    open spec fn obeys_eq_spec() -> bool {
        true
    }

    /// Two numbers are equal when they have the same rank.
    open spec fn eq_spec(&self, other: &Number) -> bool {
        rank(self@) == rank(other@)
    }
}

impl Eq for Number {

}

impl PartialOrd for Number {
    fn partial_cmp(&self, other: &Number) -> (r: Option<Ordering>) {
        Some(self.total_order(other))
    }
}

impl vstd::std_specs::cmp::PartialOrdSpecImpl for Number {
    open spec fn obeys_partial_cmp_spec() -> bool {
        true
    }

    /// Any two numbers are comparable, by rank.
    open spec fn partial_cmp_spec(&self, other: &Number) -> Option<Ordering> {
        Some(order(self@, other@))
    }
}

/// NaN is equal to NaN, whatever the two bit patterns.
pub proof fn lemma_nan_equals_nan(a: Number, b: Number)
    requires
        is_nan_bits(a@),
        is_nan_bits(b@),
    ensures
        a.eq_spec(&b),
        order(a@, b@) == Ordering::Equal,
{
}

/// NaN is less than every number that is not a NaN, negative infinity included.
pub proof fn lemma_nan_is_least(a: Number, b: Number)
    requires
        is_nan_bits(a@),
        !is_nan_bits(b@),
    ensures
        order(a@, b@) == Ordering::Less,
        order(b@, a@) == Ordering::Greater,
        !a.eq_spec(&b),
{
}

/// Numbers that compare equal are hashed as the same value.
pub proof fn lemma_equal_numbers_hash_alike(a: Number, b: Number)
    requires
        a.eq_spec(&b),
    ensures
        hash_bits(a@) == hash_bits(b@),
{
}

/// Negating a number that is no NaN and not zero turns its place in the
/// order round; negating twice gives the number back.
pub proof fn lemma_negated(bits: u64)
    ensures
        negated(negated(bits)) == bits,
        is_nan_bits(negated(bits)) == is_nan_bits(bits),
        !is_nan_bits(bits) ==> rank(negated(bits)) == -rank(bits),
{
}

/// The order of numbers is total: equal exactly for equal ranks, and
/// turned round when the two numbers change places.
pub proof fn lemma_order_is_total(a: Number, b: Number, c: Number)
    ensures
        order(a@, a@) == Ordering::Equal,
        order(a@, b@) == Ordering::Equal <==> a.eq_spec(&b),
        order(a@, b@) == Ordering::Less <==> order(b@, a@) == Ordering::Greater,
        order(a@, b@) == Ordering::Less && order(b@, c@) == Ordering::Less ==> order(a@, c@)
            == Ordering::Less,
{
}

} // verus!
