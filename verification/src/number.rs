//! Decimal fractions as IEEE 754 binary64 bit patterns.
//!
//! Win rates, pick rates and scores reach the library in this form. The library
//! carries them, compares them and reads whole numbers out of them; arithmetic
//! on them is done by whoever supplies them.
use vstd::arithmetic::div_mod::{
    lemma_div_by_multiple, lemma_div_is_ordered, lemma_div_multiples_vanish_quotient,
};
use vstd::arithmetic::power2::{
    lemma2_to64, lemma_pow2_adds, lemma_pow2_pos, lemma_pow2_strictly_increases, pow2,
};
use vstd::bits::{lemma_u64_shl_is_mul, lemma_u64_shr_is_div};
use vstd::prelude::*;

verus! {

/// A binary64 value, held by its bits.
#[derive(Debug, Clone, Copy, PartialEq, Eq, Structural)]
pub struct Real {
    pub bits: u64,
}

/// The value 0.
pub const ZERO: u64 = 0;

/// The value 0.4, as near as binary64 has it.
pub const TWO_FIFTHS: u64 = 0x3fd9_9999_9999_999a;

/// The value 1/2.
pub const HALF: u64 = 0x3fe0_0000_0000_0000;

/// The value 15.
pub const FIFTEEN: u64 = 0x402e_0000_0000_0000;

/// The value 20.
pub const TWENTY: u64 = 0x4034_0000_0000_0000;

/// The value 50.
pub const FIFTY: u64 = 0x4049_0000_0000_0000;

/// The value 80.
pub const EIGHTY: u64 = 0x4054_0000_0000_0000;

/// What the bits of a magnitude stand for, in units of 2 to the power -1074:
/// the fraction alone where the exponent field is zero, else the fraction with
/// its leading one, moved up by the exponent.
pub open spec fn size_of_magnitude(magnitude: nat) -> nat {
    let exponent = magnitude / 0x10_0000_0000_0000;
    let fraction = magnitude % 0x10_0000_0000_0000;
    if exponent == 0 {
        fraction
    } else {
        (0x10_0000_0000_0000 + fraction) * pow2((exponent - 1) as nat)
    }
}

impl Real {
    pub open spec fn negative(self) -> bool {
        self.bits >= 0x8000_0000_0000_0000
    }

    /// The bits without the sign.
    pub open spec fn magnitude(self) -> nat {
        (self.bits % 0x8000_0000_0000_0000) as nat
    }

    pub open spec fn is_nan(self) -> bool {
        self.magnitude() > 0x7ff0_0000_0000_0000
    }

    /// The value in units of 2 to the power -1074, the finest step there is.
    /// An infinity counts as the number one step above the largest finite one.
    pub open spec fn scaled(self) -> int {
        if self.negative() {
            -size_of_magnitude(self.magnitude())
        } else {
            size_of_magnitude(self.magnitude()) as int
        }
    }

    /// A number that orders as the value does.
    pub open spec fn key(self) -> int {
        if self.negative() {
            -self.magnitude()
        } else {
            self.magnitude() as int
        }
    }

    /// Both are numbers and `self` is `other` or above.
    pub open spec fn ge(self, other: Real) -> bool {
        !self.is_nan() && !other.is_nan() && self.scaled() >= other.scaled()
    }

    /// Both are numbers and `self` is above `other`.
    pub open spec fn gt(self, other: Real) -> bool {
        !self.is_nan() && !other.is_nan() && self.scaled() > other.scaled()
    }

    /// The value cut off towards zero and held to the range of `i64`; zero where
    /// it is not a number.
    pub open spec fn whole(self) -> int {
        if self.is_nan() {
            0
        } else {
            let size = size_of_magnitude(self.magnitude()) as int / pow2(1074) as int;
            let cut = if self.negative() {
                -size
            } else {
                size
            };
            if cut > i64::MAX {
                i64::MAX as int
            } else if cut < i64::MIN {
                i64::MIN as int
            } else {
                cut
            }
        }
    }

    /// A number that orders as the value does; both zeros get the same.
    pub fn order_key(self) -> (key: i64)
        ensures
            key == self.key(),
    {
        if self.bits >= 0x8000_0000_0000_0000 {
            -((self.bits - 0x8000_0000_0000_0000) as i64)
        } else {
            self.bits as i64
        }
    }

    /// Whether both are numbers and `self` is `other` or above.
    pub fn at_least(self, other: Real) -> (r: bool)
        ensures
            r == self.ge(other),
    {
        proof {
            law_key_orders(self, other);
        }
        !self.not_a_number() && !other.not_a_number() && self.order_key() >= other.order_key()
    }

    /// Whether both are numbers and `self` is above `other`.
    pub fn above(self, other: Real) -> (r: bool)
        ensures
            r == self.gt(other),
    {
        proof {
            law_key_orders(self, other);
        }
        !self.not_a_number() && !other.not_a_number() && self.order_key() > other.order_key()
    }

    /// Whether the bits stand for no number.
    pub fn not_a_number(self) -> (r: bool)
        ensures
            r == self.is_nan(),
    {
        self.bits % 0x8000_0000_0000_0000 > 0x7ff0_0000_0000_0000
    }

    /// The value cut off towards zero and held to the range of `i64`.
    pub fn to_i64(self) -> (n: i64)
        ensures
            n == self.whole(),
    {
        if self.not_a_number() {
            return 0;
        }
        let magnitude: u64 = self.bits % 0x8000_0000_0000_0000;
        let negative: bool = self.bits >= 0x8000_0000_0000_0000;
        let exponent: u64 = magnitude / 0x10_0000_0000_0000;
        let digits: u64 = magnitude % 0x10_0000_0000_0000 + 0x10_0000_0000_0000;
        let ghost size = size_of_magnitude(magnitude as nat) as int;
        if exponent < 1023 {
            proof {
                lemma_small(magnitude as nat);
            }
            return 0;
        }
        if exponent >= 1086 {
            proof {
                lemma_large(magnitude as nat);
            }
            return if negative {
                i64::MIN
            } else {
                i64::MAX
            };
        }
        let size: u64 = if exponent >= 1075 {
            let up: u64 = exponent - 1075;
            proof {
                lemma_shifted_up(magnitude as nat);
                lemma_fits(digits, up);
                lemma_u64_shl_is_mul(digits, up);
            }
            digits << up
        } else {
            let down: u64 = 1075 - exponent;
            proof {
                lemma_shifted_down(magnitude as nat);
                lemma_u64_shr_is_div(digits, down);
                lemma_pow2_pos(down as nat);
                lemma_div_is_ordered(0, digits as int, pow2(down as nat) as int);
                vstd::arithmetic::div_mod::lemma_div_nonincreasing(
                    digits as int,
                    pow2(down as nat) as int,
                );
            }
            digits >> down
        };
        if negative {
            -(size as i64)
        } else {
            size as i64
        }
    }
}

proof fn lemma_fits(digits: u64, up: u64)
    requires
        digits < 0x20_0000_0000_0000,
        up <= 10,
    ensures
        digits * pow2(up as nat) < 0x8000_0000_0000_0000,
{
    lemma2_to64();
    if up < 10 {
        lemma_pow2_strictly_increases(up as nat, 10);
    }
    assert(digits * pow2(up as nat) < 0x8000_0000_0000_0000) by (nonlinear_arith)
        requires
            digits < 0x20_0000_0000_0000,
            pow2(up as nat) <= 1024,
    ;
}

proof fn lemma_small(magnitude: nat)
    requires
        magnitude / 0x10_0000_0000_0000 < 1023,
    ensures
        size_of_magnitude(magnitude) as int / pow2(1074) as int == 0,
{
    let exponent = magnitude / 0x10_0000_0000_0000;
    let fraction = magnitude % 0x10_0000_0000_0000;
    lemma2_powers();
    lemma_pow2_adds(53, 1021);
    lemma_pow2_pos(1074);
    lemma_pow2_pos(1021);
    if exponent == 0 {
        assert(pow2(53) * pow2(1021) >= pow2(53)) by (nonlinear_arith)
            requires
                pow2(1021) >= 1,
        ;
    } else {
        let e = (exponent - 1) as nat;
        if e < 1021 {
            lemma_pow2_strictly_increases(e, 1021);
        }
        assert((0x10_0000_0000_0000 + fraction) * pow2(e) < pow2(53) * pow2(1021))
            by (nonlinear_arith)
            requires
                0x10_0000_0000_0000 + fraction < pow2(53),
                pow2(e) <= pow2(1021),
                0 < pow2(1021),
        ;
    }
    vstd::arithmetic::div_mod::lemma_basic_div(
        size_of_magnitude(magnitude) as int,
        pow2(1074) as int,
    );
}

proof fn lemma_large(magnitude: nat)
    requires
        magnitude / 0x10_0000_0000_0000 >= 1086,
    ensures
        size_of_magnitude(magnitude) as int / pow2(1074) as int >= 0x8000_0000_0000_0000,
{
    let exponent = magnitude / 0x10_0000_0000_0000;
    let fraction = magnitude % 0x10_0000_0000_0000;
    let e = (exponent - 1) as nat;
    lemma2_to64();
    if e > 1085 {
        lemma_pow2_strictly_increases(1085, e);
    }
    lemma_pow2_adds(11, 1074);
    lemma_pow2_pos(1074);
    assert((0x10_0000_0000_0000 + fraction) * pow2(e) >= 0x8000_0000_0000_0000 * pow2(1074))
        by (nonlinear_arith)
        requires
            pow2(e) >= 2048 * pow2(1074),
            fraction >= 0,
    ;
    lemma_div_is_ordered(
        0x8000_0000_0000_0000 * pow2(1074) as int,
        size_of_magnitude(magnitude) as int,
        pow2(1074) as int,
    );
    lemma_div_by_multiple(0x8000_0000_0000_0000, pow2(1074) as int);
}

proof fn lemma_shifted_up(magnitude: nat)
    requires
        magnitude / 0x10_0000_0000_0000 >= 1075,
    ensures
        size_of_magnitude(magnitude) as int / pow2(1074) as int == (0x10_0000_0000_0000 + magnitude
            % 0x10_0000_0000_0000) * pow2((magnitude / 0x10_0000_0000_0000 - 1075) as nat),
{
    let up = (magnitude / 0x10_0000_0000_0000 - 1075) as nat;
    let digits = 0x10_0000_0000_0000 + magnitude % 0x10_0000_0000_0000;
    lemma_pow2_adds(up, 1074);
    lemma_pow2_pos(1074);
    assert(digits * (pow2(up) * pow2(1074)) == digits * pow2(up) * pow2(1074))
        by (nonlinear_arith);
    lemma_div_by_multiple((digits * pow2(up)) as int, pow2(1074) as int);
}

proof fn lemma_shifted_down(magnitude: nat)
    requires
        1023 <= magnitude / 0x10_0000_0000_0000 < 1075,
    ensures
        size_of_magnitude(magnitude) as int / pow2(1074) as int == (0x10_0000_0000_0000 + magnitude
            % 0x10_0000_0000_0000) as int / pow2((1075 - magnitude / 0x10_0000_0000_0000) as nat)
            as int,
{
    let exponent = magnitude / 0x10_0000_0000_0000;
    let down = (1075 - exponent) as nat;
    let e = (exponent - 1) as nat;
    let digits = 0x10_0000_0000_0000 + magnitude % 0x10_0000_0000_0000;
    lemma_pow2_adds(e, down);
    lemma_pow2_pos(e);
    lemma_pow2_pos(down);
    lemma_div_multiples_vanish_quotient(pow2(e) as int, digits as int, pow2(down) as int);
    assert(digits * pow2(e) == pow2(e) * digits) by (nonlinear_arith);
}

proof fn lemma_size_grows(a: nat, b: nat)
    requires
        a < b,
    ensures
        size_of_magnitude(a) < size_of_magnitude(b),
{
    let (ea, eb) = (a / 0x10_0000_0000_0000, b / 0x10_0000_0000_0000);
    let (fa, fb) = (a % 0x10_0000_0000_0000, b % 0x10_0000_0000_0000);
    if eb > 0 {
        let top = pow2((eb - 1) as nat);
        lemma_pow2_pos((eb - 1) as nat);
        assert((0x10_0000_0000_0000 + fb) * top >= 0x10_0000_0000_0000 * top) by (nonlinear_arith)
            requires
                fb >= 0,
                top >= 1,
        ;
        if ea == 0 {
            assert(0x10_0000_0000_0000 * top >= 0x10_0000_0000_0000) by (nonlinear_arith)
                requires
                    top >= 1,
            ;
        } else if ea == eb {
            assert((0x10_0000_0000_0000 + fa) * top < (0x10_0000_0000_0000 + fb) * top)
                by (nonlinear_arith)
                requires
                    fa < fb,
                    top >= 1,
            ;
        } else {
            let low = pow2((ea - 1) as nat);
            lemma_pow2_pos((ea - 1) as nat);
            lemma_pow2_adds(1, (ea - 1) as nat);
            lemma2_to64();
            if ea < eb - 1 {
                lemma_pow2_strictly_increases(ea, (eb - 1) as nat);
            }
            assert((0x10_0000_0000_0000 + fa) * low < 0x10_0000_0000_0000 * top)
                by (nonlinear_arith)
                requires
                    fa < 0x10_0000_0000_0000,
                    2 * low <= top,
                    low >= 1,
            ;
        }
    }
}

/// Between numbers the order key decides exactly as the values do.
pub proof fn law_key_orders(a: Real, b: Real)
    ensures
        a.key() < b.key() <==> a.scaled() < b.scaled(),
        a.key() == b.key() <==> a.scaled() == b.scaled(),
{
    let (ma, mb) = (a.magnitude(), b.magnitude());
    if ma < mb {
        lemma_size_grows(ma, mb);
    } else if mb < ma {
        lemma_size_grows(mb, ma);
    }
    if 0 < ma {
        lemma_size_grows(0, ma);
    }
    if 0 < mb {
        lemma_size_grows(0, mb);
    }
}

/// The thresholds stand for the numbers they are named after.
pub proof fn law_thresholds()
    ensures
        (Real { bits: ZERO }).scaled() == 0,
        2 * (Real { bits: HALF }).scaled() == pow2(1074),
        (Real { bits: FIFTEEN }).scaled() == 15 * pow2(1074),
        (Real { bits: TWENTY }).scaled() == 20 * pow2(1074),
        (Real { bits: FIFTY }).scaled() == 50 * pow2(1074),
        (Real { bits: EIGHTY }).scaled() == 80 * pow2(1074),
{
    lemma2_powers();
    lemma_threshold(HALF, 1, 52);
    lemma_threshold(FIFTEEN, 15, 49);
    lemma_threshold(TWENTY, 5, 50);
    lemma_threshold(FIFTY, 25, 48);
    lemma_threshold(EIGHTY, 5, 50);
    lemma_pow2_adds(1, 1073);
    lemma_pow2_adds(2, 1074);
    lemma_pow2_adds(4, 1074);
    lemma_pow2_adds(1, 1074);
    lemma2_to64();
}

/// How far five times a value is from two, in units of 2 to the power -1074.
pub open spec fn off_two_fifths(x: Real) -> int {
    let off = 5 * x.scaled() - 2 * pow2(1074);
    if off < 0 {
        -off
    } else {
        off
    }
}

/// No number is nearer to 2/5 than the threshold that is named after it.
pub proof fn law_nearest_two_fifths(x: Real)
    requires
        !x.is_nan(),
    ensures
        off_two_fifths(Real { bits: TWO_FIFTHS }) <= off_two_fifths(x),
{
    let t = Real { bits: TWO_FIFTHS };
    let below = Real { bits: 0x3fd9_9999_9999_9999 };
    let step = pow2(1020) as int;
    lemma_pow2_pos(1020);
    lemma2_powers();
    lemma_pow2_adds(54, 1020);
    lemma_pow2_adds(1, 53);
    lemma2_to64();
    assert(pow2(1074) == 0x40_0000_0000_0000 * step);
    assert(t.magnitude() / 0x10_0000_0000_0000 == 1021);
    assert(below.magnitude() / 0x10_0000_0000_0000 == 1021);
    assert(t.scaled() == 0x19_9999_9999_999a * step);
    assert(below.scaled() == 0x19_9999_9999_9999 * step);
    law_key_orders(x, t);
    law_key_orders(x, below);
    if x.key() < t.key() {
        assert(x.key() <= below.key());
        assert(x.scaled() <= below.scaled());
    }
}

/// A positive threshold whose digits are `n` times a power of two.
proof fn lemma_threshold(bits: u64, n: nat, k: nat)
    requires
        bits < 0x8000_0000_0000_0000,
        bits / 0x10_0000_0000_0000 > 0,
    ensures
        0x10_0000_0000_0000 + bits % 0x10_0000_0000_0000 == n * pow2(k) ==> (Real {
            bits,
        }).scaled() == n * pow2((bits / 0x10_0000_0000_0000 - 1 + k) as nat),
{
    let e = (bits / 0x10_0000_0000_0000 - 1) as nat;
    lemma_pow2_adds(e, k);
    assert(n * pow2(k) * pow2(e) == n * (pow2(e) * pow2(k))) by (nonlinear_arith);
}

proof fn lemma2_powers()
    ensures
        pow2(48) == 0x1_0000_0000_0000,
        pow2(49) == 0x2_0000_0000_0000,
        pow2(50) == 0x4_0000_0000_0000,
        pow2(52) == 0x10_0000_0000_0000,
        pow2(53) == 0x20_0000_0000_0000,
{
    vstd::arithmetic::power2::lemma2_to64_rest();
}

/// Of two numbers one is at least the other, and above it exactly where the other is not at
/// least the one; what is not a number is neither above nor below anything.
pub proof fn law_comparing(a: Real, b: Real)
    ensures
        !a.is_nan() && !b.is_nan() ==> (a.gt(b) <==> !b.ge(a)),
        !a.is_nan() && !b.is_nan() ==> a.ge(b) || b.ge(a),
        !a.is_nan() ==> a.ge(a) && !a.gt(a),
        a.is_nan() || b.is_nan() ==> !a.ge(b) && !a.gt(b),
        a.gt(b) ==> a.ge(b) && a.scaled() > b.scaled(),
        a.ge(b) ==> a.scaled() >= b.scaled(),
{
}

} // verus!
