//! IEEE-754 binary floating point numbers, held by their bit patterns.
//!
//! The codec never computes with floating point values; it classifies them,
//! converts them to and from integers exactly, and changes their width. All of
//! that is integer arithmetic on the bit pattern.
use vstd::arithmetic::div_mod::*;
use vstd::arithmetic::mul::*;
use vstd::arithmetic::power2::*;
use vstd::prelude::*;

verus! {

/// Two to the power 52: the weight of the implicit leading bit of a double.
pub const DOUBLE_HIDDEN: u64 = 0x0010_0000_0000_0000;

/// Two to the power 63: the sign bit of a double.
pub const DOUBLE_SIGN: u64 = 0x8000_0000_0000_0000;

/// The bit pattern of positive infinity as a double.
pub const DOUBLE_INFINITY: u64 = 0x7FF0_0000_0000_0000;

/// The bit pattern of the default quiet NaN as a double.
pub const DOUBLE_NAN: u64 = 0x7FF8_0000_0000_0000;

/// Two to the power 23: the weight of the implicit leading bit of a single.
pub const SINGLE_HIDDEN: u32 = 0x0080_0000;

/// Two to the power 31: the sign bit of a single.
pub const SINGLE_SIGN: u32 = 0x8000_0000;

/// The bit pattern of positive infinity as a single.
pub const SINGLE_INFINITY: u32 = 0x7F80_0000;

/// The bit pattern of the default quiet NaN as a single.
pub const SINGLE_NAN: u32 = 0x7FC0_0000;

/// A double-precision number, by its bit pattern.
#[derive(Clone, Copy, Debug, PartialEq, Eq, Structural)]
pub struct Float64 {
    pub bits: u64,
}

/// A single-precision number, by its bit pattern.
#[derive(Clone, Copy, Debug, PartialEq, Eq, Structural)]
pub struct Float32 {
    pub bits: u32,
}

/// What a floating point number is when asked for a whole number.
#[derive(Clone, Copy, Debug, PartialEq, Eq, Structural)]
pub enum Whole {
    /// Not finite, or with a fractional part.
    No,
    /// A whole number of magnitude two to the 63 or more.
    Large,
    /// This whole number, of magnitude below two to the 63.
    Is(i64),
}

impl Float64 {
    /// The bit pattern without the sign bit.
    pub open spec fn magnitude(self) -> int {
        self.bits as int % 0x8000_0000_0000_0000
    }

    /// Whether the sign bit is set.
    pub open spec fn negative(self) -> bool {
        self.bits >= 0x8000_0000_0000_0000
    }

    /// Zero, subnormal or normal.
    pub open spec fn finite(self) -> bool {
        self.magnitude() < 0x7FF0_0000_0000_0000
    }

    /// Positive or negative infinity.
    pub open spec fn infinite(self) -> bool {
        self.magnitude() == 0x7FF0_0000_0000_0000
    }

    /// Not a number.
    pub open spec fn nan(self) -> bool {
        self.magnitude() > 0x7FF0_0000_0000_0000
    }

    /// The biased exponent field, 0 to 2047.
    pub open spec fn exponent(self) -> int {
        self.magnitude() / 0x0010_0000_0000_0000
    }

    /// The 52 stored bits of the significand.
    pub open spec fn fraction(self) -> int {
        self.bits as int % 0x0010_0000_0000_0000
    }

    /// The significand of a finite number as an integer below two to the 53,
    /// with the implicit bit where the number is normal.
    pub open spec fn significand(self) -> int {
        if self.exponent() == 0 {
            self.fraction()
        } else {
            0x0010_0000_0000_0000 + self.fraction()
        }
    }

    /// The power of two that scales the significand, counted from the
    /// smallest one: a finite number is `significand * 2^(shift - 1074)`.
    pub open spec fn shift(self) -> nat {
        if self.exponent() == 0 {
            0
        } else {
            (self.exponent() - 1) as nat
        }
    }

    /// The magnitude of a finite number in units of two to the -1074, the
    /// spacing of the smallest doubles. Every finite double and single is a
    /// whole number of these units.
    pub open spec fn grid(self) -> nat {
        (self.significand() * pow2(self.shift())) as nat
    }

    /// The whole number that a finite number equals, if it equals one.
    pub open spec fn integer(self) -> Option<int> {
        if self.finite() && self.grid() % pow2(1074) == 0 {
            let n = (self.grid() / pow2(1074)) as int;
            Some(
                if self.negative() {
                    -n
                } else {
                    n
                },
            )
        } else {
            None
        }
    }

    /// What `whole` answers.
    pub open spec fn wholeness(self) -> Whole {
        match self.integer() {
            None => Whole::No,
            Some(n) => if -0x8000_0000_0000_0000 < n < 0x8000_0000_0000_0000 {
                Whole::Is(n as i64)
            } else {
                Whole::Large
            },
        }
    }

    pub fn is_negative(self) -> (r: bool)
        ensures
            r == self.negative(),
    {
        self.bits >= DOUBLE_SIGN
    }

    pub fn is_finite(self) -> (r: bool)
        ensures
            r == self.finite(),
    {
        self.bits % DOUBLE_SIGN < DOUBLE_INFINITY
    }

    pub fn is_infinite(self) -> (r: bool)
        ensures
            r == self.infinite(),
    {
        self.bits % DOUBLE_SIGN == DOUBLE_INFINITY
    }

    pub fn is_nan(self) -> (r: bool)
        ensures
            r == self.nan(),
    {
        self.bits % DOUBLE_SIGN > DOUBLE_INFINITY
    }

    /// Positive or negative infinity.
    pub fn infinity(negative: bool) -> (r: Self)
        ensures
            r.infinite(),
            r.negative() == negative,
            r.bits == if negative { 0xFFF0_0000_0000_0000u64 } else { 0x7FF0_0000_0000_0000u64 },
    {
        if negative {
            Float64 { bits: 0xFFF0_0000_0000_0000 }
        } else {
            Float64 { bits: DOUBLE_INFINITY }
        }
    }

    /// The default quiet NaN.
    pub fn not_a_number() -> (r: Self)
        ensures
            r.nan(),
            r.bits == DOUBLE_NAN,
    {
        Float64 { bits: DOUBLE_NAN }
    }

    /// Classifies the number as a whole number or not.
    pub fn whole(self) -> (r: Whole)
        ensures
            r == self.wholeness(),
    {
        if !self.is_finite() {
            return Whole::No;
        }
        let negative = self.is_negative();
        let magnitude: u64 = self.bits % DOUBLE_SIGN;
        let exponent: u64 = magnitude / DOUBLE_HIDDEN;
        let fraction: u64 = self.bits % DOUBLE_HIDDEN;
        let significand: u64 = if exponent == 0 { fraction } else { DOUBLE_HIDDEN + fraction };
        assert(significand == self.significand());
        assert(exponent == self.exponent());
        if exponent >= 1075 {
            // The scale is a non-negative power of two.
            let up: u64 = exponent - 1075;
            proof {
                lemma_pow2_adds(up as nat, 1074);
                lemma_pow2_pos(1074);
                lemma_pow2_pos(up as nat);
                let whole = significand as int * pow2(up as nat) as int;
                assert(self.grid() == whole * pow2(1074)) by (nonlinear_arith)
                    requires
                        self.grid() == significand as int * pow2((up + 1074) as nat),
                        pow2((up + 1074) as nat) == pow2(up as nat) * pow2(1074),
                        whole == significand as int * pow2(up as nat) as int,
                ;
                lemma_fundamental_div_mod_converse(
                    self.grid() as int,
                    pow2(1074) as int,
                    whole,
                    0,
                );
            }
            if up >= 11 {
                proof {
                    if up > 11 {
                        lemma_pow2_strictly_increases(11, up as nat);
                    }
                    lemma2_to64();
                    assert(significand as int * pow2(up as nat) as int >= 0x8000_0000_0000_0000)
                        by (nonlinear_arith)
                        requires
                            significand >= 0x0010_0000_0000_0000,
                            pow2(up as nat) >= 2048,
                    ;
                }
                return Whole::Large;
            }
            let mut scaled: u64 = significand;
            let mut i: u64 = 0;
            proof {
                lemma2_to64();
                assert(scaled == significand * pow2(0)) by (nonlinear_arith)
                    requires
                        scaled == significand,
                        pow2(0) == 1,
                ;
            }
            while i < up
                invariant
                    i <= up <= 10,
                    significand < 0x0020_0000_0000_0000,
                    scaled == significand * pow2(i as nat),
                decreases up - i,
            {
                proof {
                    lemma_pow2_unfold((i + 1) as nat);
                    lemma2_to64();
                    lemma_pow2_strictly_increases(i as nat, 10);
                    assert(scaled * 2 == significand * pow2((i + 1) as nat)) by (nonlinear_arith)
                        requires
                            scaled == significand * pow2(i as nat),
                            pow2((i + 1) as nat) == 2 * pow2(i as nat),
                    ;
                    assert(scaled < 0x0020_0000_0000_0000 * 1024) by (nonlinear_arith)
                        requires
                            scaled == significand * pow2(i as nat),
                            significand < 0x0020_0000_0000_0000,
                            pow2(i as nat) < 1024,
                    ;
                }
                scaled = scaled * 2;
                i = i + 1;
            }
            proof {
                lemma2_to64();
                if up < 10 {
                    lemma_pow2_strictly_increases(up as nat, 10);
                }
                assert(scaled < 0x8000_0000_0000_0000) by (nonlinear_arith)
                    requires
                        scaled == significand * pow2(up as nat),
                        significand < 0x0020_0000_0000_0000,
                        pow2(up as nat) <= 1024,
                ;
            }
            if negative {
                Whole::Is(-(scaled as i64))
            } else {
                Whole::Is(scaled as i64)
            }
        } else {
            // The scale is a negative power of two: `down` binary places.
            let down: u64 = if exponent == 0 { 1074 } else { 1075 - exponent };
            proof {
                lemma_pow2_adds(down as nat, self.shift());
                lemma_pow2_pos(down as nat);
                lemma_pow2_pos(self.shift());
                lemma_truncate_middle(
                    significand as int,
                    pow2(self.shift()) as int,
                    pow2(down as nat) as int,
                );
                assert(pow2(self.shift()) * significand == significand * pow2(self.shift()))
                    by (nonlinear_arith);
                assert(pow2(self.shift()) * pow2(down as nat) == pow2(down as nat) * pow2(
                    self.shift(),
                )) by (nonlinear_arith);
                assert(self.grid() % pow2(1074) == pow2(self.shift()) * (significand as int % (pow2(
                    down as nat,
                ) as int)));
                assert((self.grid() % pow2(1074) == 0) == (significand as int % (pow2(
                    down as nat,
                ) as int) == 0)) by (nonlinear_arith)
                    requires
                        self.grid() % pow2(1074) == pow2(self.shift()) * (significand as int % (
                        pow2(down as nat) as int)),
                        pow2(self.shift()) > 0,
                ;
            }
            if down >= 53 {
                proof {
                    lemma2_to64_rest();
                    if down > 53 {
                        lemma_pow2_strictly_increases(53, down as nat);
                    }
                    lemma_small_mod(significand as nat, pow2(down as nat));
                }
                if significand == 0 {
                    proof {
                        assert(self.grid() == 0) by (nonlinear_arith)
                            requires
                                self.grid() == significand * pow2(self.shift()),
                                significand == 0,
                        ;
                        lemma_pow2_pos(1074);
                        lemma_fundamental_div_mod_converse(0, pow2(1074) as int, 0, 0);
                    }
                    return Whole::Is(0);
                }
                return Whole::No;
            }
            let mut unit: u64 = 1;
            let mut i: u64 = 0;
            proof {
                lemma2_to64();
            }
            while i < down
                invariant
                    i <= down <= 52,
                    unit == pow2(i as nat),
                    unit <= 0x0010_0000_0000_0000,
                decreases down - i,
            {
                proof {
                    lemma_pow2_unfold((i + 1) as nat);
                    lemma2_to64_rest();
                    if i + 1 < 52 {
                        lemma_pow2_strictly_increases((i + 1) as nat, 52);
                    }
                }
                unit = unit * 2;
                i = i + 1;
            }
            if significand % unit != 0 {
                return Whole::No;
            }
            let quotient: u64 = significand / unit;
            proof {
                // grid = (quotient * unit) * 2^shift = quotient * 2^1074
                lemma_fundamental_div_mod(significand as int, unit as int);
                assert(self.grid() == quotient * pow2(1074)) by (nonlinear_arith)
                    requires
                        self.grid() == significand * pow2(self.shift()),
                        significand == unit * quotient,
                        pow2(1074) == unit * pow2(self.shift()),
                ;
                lemma_pow2_pos(1074);
                lemma_fundamental_div_mod_converse(
                    self.grid() as int,
                    pow2(1074) as int,
                    quotient as int,
                    0,
                );
            }
            if negative {
                Whole::Is(-(quotient as i64))
            } else {
                Whole::Is(quotient as i64)
            }
        }
    }
}

/// The whole number nearest to `m / d`, the even one of two equally near.
pub open spec fn round_half_even(m: int, d: int) -> int {
    let q = m / d;
    let r = m % d;
    if 2 * r > d || (2 * r == d && q % 2 == 1) {
        q + 1
    } else {
        q
    }
}

/// The whole number that the double nearest to `m` equals, for `m` up to two
/// to the 54: `m` itself up to two to the 53, the nearest even number above.
pub open spec fn nearest_double(m: int) -> int {
    if m <= 0x0020_0000_0000_0000 {
        m
    } else {
        2 * round_half_even(m, 2)
    }
}

/// Two to the power `k`, for `k` up to 63.
pub fn power_of_two(k: u64) -> (r: u64)
    requires
        k <= 63,
    ensures
        r == pow2(k as nat),
        r >= 1,
{
    let mut unit: u64 = 1;
    let mut i: u64 = 0;
    proof {
        lemma2_to64();
    }
    while i < k
        invariant
            i <= k <= 63,
            unit == pow2(i as nat),
            unit <= 0x8000_0000_0000_0000,
            unit >= 1,
        decreases k - i,
    {
        proof {
            lemma_pow2_unfold((i + 1) as nat);
            lemma2_to64_rest();
            if i + 1 < 63 {
                lemma_pow2_strictly_increases((i + 1) as nat, 63);
            }
        }
        unit = unit * 2;
        i = i + 1;
    }
    unit
}

/// Computes `round_half_even(m, d)`.
pub fn rounded_quotient(m: u64, d: u64) -> (r: u64)
    requires
        d > 0,
        m < 0x4000_0000_0000_0000,
    ensures
        r == round_half_even(m as int, d as int),
{
    let q: u64 = m / d;
    let r: u64 = m % d;
    // 2 * r > d, written without overflow
    if r > d - r || (r == d - r && q % 2 == 1) {
        q + 1
    } else {
        q
    }
}

/// A significand shifted up until its leading bit has the weight two to the
/// 23, and the exponent field that goes with it.
pub open spec fn normalized_single(narrow: int, place: int) -> (int, int)
    decreases 0x0100_0000 - narrow,
{
    if 0 < narrow < 0x0080_0000 {
        normalized_single(narrow * 2, place - 1)
    } else {
        (narrow, place)
    }
}

impl Float64 {
    /// The double of the given sign nearest to the whole number `m`, for `m`
    /// up to two to the 54.
    pub open spec fn of_whole(negative: bool, m: int) -> Float64 {
        let sign: int = if negative { 0x8000_0000_0000_0000 } else { 0 };
        if m <= 0 {
            Float64 { bits: sign as u64 }
        } else {
            let (wide, place) = if m < 0x0020_0000_0000_0000 {
                normalized(m, 1075)
            } else if m == 0x0020_0000_0000_0000 {
                (0x0010_0000_0000_0000, 1076)
            } else if round_half_even(m, 2) == 0x0020_0000_0000_0000 {
                (0x0010_0000_0000_0000, 1077)
            } else {
                (round_half_even(m, 2), 1076)
            };
            Float64 {
                bits: (sign + place * 0x0010_0000_0000_0000 + (wide - 0x0010_0000_0000_0000)) as u64,
            }
        }
    }

    /// The double nearest to a whole number of magnitude up to two to the 54.
    pub fn from_magnitude(negative: bool, m: u64) -> (r: Self)
        requires
            m <= 0x0040_0000_0000_0000,
        ensures
            r == Self::of_whole(negative, m as int),
            r.finite(),
            r.negative() == negative,
            r.integer() == Some(if negative { -nearest_double(m as int) } else { nearest_double(m as int) }),
            m == 0 ==> r.magnitude() == 0,
    {
        let sign: u64 = if negative { DOUBLE_SIGN } else { 0 };
        if m == 0 {
            let r = Float64 { bits: sign };
            proof {
                lemma_pow2_pos(1074);
                assert(r.grid() == 0) by (nonlinear_arith)
                    requires
                        r.grid() == r.significand() * pow2(r.shift()),
                        r.significand() == 0,
                ;
                lemma_fundamental_div_mod_converse(0, pow2(1074) as int, 0, 0);
            }
            return r;
        }
        let mut significand: u64 = m;
        let mut exponent: u64 = 1075;
        let ghost target: int = nearest_double(m as int);
        if m >= 0x0020_0000_0000_0000 {
            if m > 0x0020_0000_0000_0000 {
                significand = rounded_quotient(m, 2);
                exponent = 1076;
            } else {
                significand = m / 2;
                exponent = 1076;
            }
            if significand == 0x0020_0000_0000_0000 {
                significand = 0x0010_0000_0000_0000;
                exponent = 1077;
            }
            proof {
                lemma2_to64();
                if exponent == 1076 {
                    assert(pow2(1) == 2);
                    assert(target == significand * 2);
                } else {
                    assert(pow2(2) == 4);
                    assert(target == significand * 4);
                }
                assert(target == significand * pow2((exponent - 1075) as nat));
            }
        } else {
            proof {
                lemma2_to64();
                assert(significand == m * pow2(0)) by (nonlinear_arith)
                    requires
                        significand == m,
                        pow2(0) == 1,
                ;
            }
            while significand < 0x0010_0000_0000_0000
                invariant
                    normalized(significand as int, exponent as int) == normalized(m as int, 1075),
                    0 < m < 0x0020_0000_0000_0000,
                    0 < significand < 0x0020_0000_0000_0000,
                    1022 <= exponent <= 1075,
                    significand == m * pow2((1075 - exponent) as nat),
                    target == m,
                decreases 0x0020_0000_0000_0000 - significand,
            {
                proof {
                    lemma_pow2_unfold((1075 - exponent + 1) as nat);
                    assert(significand * 2 == m * pow2((1075 - exponent + 1) as nat))
                        by (nonlinear_arith)
                        requires
                            significand == m * pow2((1075 - exponent) as nat),
                            pow2((1075 - exponent + 1) as nat) == 2 * pow2(
                                (1075 - exponent) as nat,
                            ),
                    ;
                    // the exponent cannot run out: m >= 1 and 2^53 bounds the product
                    if exponent == 1022 {
                        lemma2_to64_rest();
                        assert(false) by (nonlinear_arith)
                            requires
                                significand == m * pow2(53),
                                pow2(53) == 0x0020_0000_0000_0000,
                                m >= 1,
                                significand < 0x0010_0000_0000_0000,
                        ;
                    }
                }
                significand = significand * 2;
                exponent = exponent - 1;
            }
        }
        let r = Float64 { bits: sign + exponent * DOUBLE_HIDDEN + (significand - DOUBLE_HIDDEN) };
        proof {
            assert(r.magnitude() == exponent * 0x0010_0000_0000_0000 + (significand
                - 0x0010_0000_0000_0000));
            assert(r.exponent() == exponent);
            assert(r.fraction() == significand - 0x0010_0000_0000_0000);
            assert(r.significand() == significand);
            assert(r.shift() == exponent - 1);
            lemma_pow2_pos(1074);
            if exponent >= 1075 {
                lemma_pow2_adds((exponent - 1075) as nat, 1074);
                assert(r.grid() == target * pow2(1074)) by (nonlinear_arith)
                    requires
                        r.grid() == significand * pow2((exponent - 1) as nat),
                        pow2((exponent - 1) as nat) == pow2((exponent - 1075) as nat) * pow2(1074),
                        target == significand * pow2((exponent - 1075) as nat),
                ;
            } else {
                lemma_pow2_adds((1075 - exponent) as nat, (exponent - 1) as nat);
                assert(r.grid() == target * pow2(1074)) by (nonlinear_arith)
                    requires
                        r.grid() == significand * pow2((exponent - 1) as nat),
                        pow2(1074) == pow2((1075 - exponent) as nat) * pow2((exponent - 1) as nat),
                        significand == target * pow2((1075 - exponent) as nat),
                ;
            }
            lemma_fundamental_div_mod_converse(r.grid() as int, pow2(1074) as int, target, 0);
        }
        r
    }
}

/// A subnormal significand shifted up until its leading bit has the weight
/// two to the 52, and the exponent field that goes with it.
pub open spec fn normalized(wide: int, place: int) -> (int, int)
    decreases 0x0020_0000_0000_0000 - wide,
{
    if 0 < wide < 0x0010_0000_0000_0000 {
        normalized(wide * 2, place - 1)
    } else {
        (wide, place)
    }
}

impl Float32 {
    /// The bit pattern without the sign bit.
    pub open spec fn magnitude(self) -> int {
        self.bits as int % 0x8000_0000
    }

    /// Whether the sign bit is set.
    pub open spec fn negative(self) -> bool {
        self.bits >= 0x8000_0000
    }

    /// Zero, subnormal or normal.
    pub open spec fn finite(self) -> bool {
        self.magnitude() < 0x7F80_0000
    }

    /// Positive or negative infinity.
    pub open spec fn infinite(self) -> bool {
        self.magnitude() == 0x7F80_0000
    }

    /// Not a number.
    pub open spec fn nan(self) -> bool {
        self.magnitude() > 0x7F80_0000
    }

    /// The biased exponent field, 0 to 255.
    pub open spec fn exponent(self) -> int {
        self.magnitude() / 0x0080_0000
    }

    /// The 23 stored bits of the significand.
    pub open spec fn fraction(self) -> int {
        self.bits as int % 0x0080_0000
    }

    /// The significand of a finite number as an integer below two to the 24.
    pub open spec fn significand(self) -> int {
        if self.exponent() == 0 {
            self.fraction()
        } else {
            0x0080_0000 + self.fraction()
        }
    }

    /// The power of two that scales the significand, counted from the
    /// smallest one: a finite number is `significand * 2^(shift - 149)`.
    pub open spec fn shift(self) -> nat {
        if self.exponent() == 0 {
            0
        } else {
            (self.exponent() - 1) as nat
        }
    }

    /// The magnitude of a finite number in units of two to the -149, the
    /// spacing of the smallest singles.
    pub open spec fn grid(self) -> nat {
        (self.significand() * pow2(self.shift())) as nat
    }

    /// The whole number that a finite number equals, if it equals one.
    pub open spec fn integer(self) -> Option<int> {
        if self.finite() && self.grid() % pow2(149) == 0 {
            let n = (self.grid() / pow2(149)) as int;
            Some(
                if self.negative() {
                    -n
                } else {
                    n
                },
            )
        } else {
            None
        }
    }

    pub fn is_negative(self) -> (r: bool)
        ensures
            r == self.negative(),
    {
        self.bits >= SINGLE_SIGN
    }

    pub fn is_finite(self) -> (r: bool)
        ensures
            r == self.finite(),
    {
        self.bits % SINGLE_SIGN < SINGLE_INFINITY
    }

    pub fn is_infinite(self) -> (r: bool)
        ensures
            r == self.infinite(),
    {
        self.bits % SINGLE_SIGN == SINGLE_INFINITY
    }

    pub fn is_nan(self) -> (r: bool)
        ensures
            r == self.nan(),
    {
        self.bits % SINGLE_SIGN > SINGLE_INFINITY
    }

    /// Positive or negative infinity.
    pub fn infinity(negative: bool) -> (r: Self)
        ensures
            r.infinite(),
            r.negative() == negative,
            r.bits == if negative { 0xFF80_0000u32 } else { 0x7F80_0000u32 },
    {
        if negative {
            Float32 { bits: 0xFF80_0000 }
        } else {
            Float32 { bits: SINGLE_INFINITY }
        }
    }

    /// The default quiet NaN.
    pub fn not_a_number() -> (r: Self)
        ensures
            r.nan(),
            r.bits == SINGLE_NAN,
    {
        Float32 { bits: SINGLE_NAN }
    }

    /// The single of the given sign that equals the whole number `m`, for
    /// `m` up to two to the 24.
    pub open spec fn of_whole(negative: bool, m: int) -> Float32 {
        let sign: int = if negative { 0x8000_0000 } else { 0 };
        if m <= 0 {
            Float32 { bits: sign as u32 }
        } else {
            let (narrow, place) = if m < 0x0100_0000 {
                normalized_single(m, 150)
            } else {
                (0x0080_0000, 151)
            };
            Float32 { bits: (sign + place * 0x0080_0000 + (narrow - 0x0080_0000)) as u32 }
        }
    }

    /// The single that equals a whole number of magnitude up to two to the 24.
    pub fn from_magnitude(negative: bool, m: u32) -> (r: Self)
        requires
            m <= 0x0100_0000,
        ensures
            r == Self::of_whole(negative, m as int),
            r.finite(),
            r.negative() == negative,
            r.integer() == Some(if negative { -(m as int) } else { m as int }),
            m == 0 ==> r.magnitude() == 0,
    {
        let sign: u32 = if negative { SINGLE_SIGN } else { 0 };
        if m == 0 {
            let r = Float32 { bits: sign };
            proof {
                lemma_pow2_pos(149);
                assert(r.grid() == 0) by (nonlinear_arith)
                    requires
                        r.grid() == r.significand() * pow2(r.shift()),
                        r.significand() == 0,
                ;
                lemma_fundamental_div_mod_converse(0, pow2(149) as int, 0, 0);
            }
            return r;
        }
        let mut significand: u32 = m;
        let mut exponent: u32 = 150;
        if m == 0x0100_0000 {
            significand = 0x0080_0000;
            exponent = 151;
            proof {
                lemma2_to64();
                assert(pow2(1) == 2);
                assert(m == significand * pow2((exponent - 150) as nat));
            }
        } else {
            proof {
                lemma2_to64();
                assert(significand == m * pow2(0)) by (nonlinear_arith)
                    requires
                        significand == m,
                        pow2(0) == 1,
                ;
            }
            while significand < 0x0080_0000
                invariant
                    normalized_single(significand as int, exponent as int) == normalized_single(
                        m as int,
                        150,
                    ),
                    0 < m < 0x0100_0000,
                    0 < significand < 0x0100_0000,
                    126 <= exponent <= 150,
                    significand == m * pow2((150 - exponent) as nat),
                decreases 0x0100_0000 - significand,
            {
                proof {
                    lemma_pow2_unfold((150 - exponent + 1) as nat);
                    assert(significand * 2 == m * pow2((150 - exponent + 1) as nat))
                        by (nonlinear_arith)
                        requires
                            significand == m * pow2((150 - exponent) as nat),
                            pow2((150 - exponent + 1) as nat) == 2 * pow2((150 - exponent) as nat),
                    ;
                    if exponent == 126 {
                        lemma2_to64();
                        assert(false) by (nonlinear_arith)
                            requires
                                significand == m * pow2(24),
                                pow2(24) == 0x0100_0000,
                                m >= 1,
                                significand < 0x0080_0000,
                        ;
                    }
                }
                significand = significand * 2;
                exponent = exponent - 1;
            }
        }
        let r = Float32 { bits: sign + exponent * SINGLE_HIDDEN + (significand - SINGLE_HIDDEN) };
        proof {
            assert(r.magnitude() == exponent * 0x0080_0000 + (significand - 0x0080_0000));
            assert(r.exponent() == exponent);
            assert(r.fraction() == significand - 0x0080_0000);
            assert(r.significand() == significand);
            assert(r.shift() == exponent - 1);
            lemma_pow2_pos(149);
            if exponent >= 150 {
                lemma_pow2_adds((exponent - 150) as nat, 149);
                assert(r.grid() == m * pow2(149)) by (nonlinear_arith)
                    requires
                        r.grid() == significand * pow2((exponent - 1) as nat),
                        pow2((exponent - 1) as nat) == pow2((exponent - 150) as nat) * pow2(149),
                        m == significand * pow2((exponent - 150) as nat),
                ;
            } else {
                lemma_pow2_adds((150 - exponent) as nat, (exponent - 1) as nat);
                assert(r.grid() == m * pow2(149)) by (nonlinear_arith)
                    requires
                        r.grid() == significand * pow2((exponent - 1) as nat),
                        pow2(149) == pow2((150 - exponent) as nat) * pow2((exponent - 1) as nat),
                        significand == m * pow2((150 - exponent) as nat),
                ;
            }
            lemma_fundamental_div_mod_converse(r.grid() as int, pow2(149) as int, m as int, 0);
        }
        r
    }

    /// The double that equals this single. An infinity stays that infinity
    /// and a NaN becomes the default NaN with the same sign.
    pub open spec fn widened(self) -> Float64 {
        let sign: int = if self.negative() { 0x8000_0000_0000_0000 } else { 0 };
        if self.nan() {
            Float64 { bits: (sign + 0x7FF8_0000_0000_0000) as u64 }
        } else if self.infinite() {
            Float64 { bits: (sign + 0x7FF0_0000_0000_0000) as u64 }
        } else if self.magnitude() == 0 {
            Float64 { bits: sign as u64 }
        } else {
            let (wide, place) = if self.exponent() == 0 {
                normalized(self.fraction(), 926)
            } else {
                ((0x0080_0000 + self.fraction()) * 0x2000_0000, self.exponent() + 896)
            };
            Float64 {
                bits: (sign + place * 0x0010_0000_0000_0000 + (wide - 0x0010_0000_0000_0000)) as u64,
            }
        }
    }

    /// Widens the single to double precision, exactly.
    pub fn widen(self) -> (r: Float64)
        ensures
            r == self.widened(),
            r.negative() == self.negative(),
            self.nan() == r.nan(),
            self.infinite() == r.infinite(),
            self.finite() ==> r.grid() == self.grid() * pow2(925),
            self.finite() ==> r.narrowed() == self,
            self.infinite() ==> r.narrowed() == self,
    {
        let sign: u64 = if self.bits >= SINGLE_SIGN { DOUBLE_SIGN } else { 0 };
        let magnitude: u32 = self.bits % SINGLE_SIGN;
        let exponent: u32 = magnitude / SINGLE_HIDDEN;
        let fraction: u32 = self.bits % SINGLE_HIDDEN;
        if exponent == 255 {
            if fraction == 0 {
                return Float64 { bits: sign + DOUBLE_INFINITY };
            }
            return Float64 { bits: sign + DOUBLE_NAN };
        }
        if exponent == 0 && fraction == 0 {
            let r = Float64 { bits: sign };
            proof {
                assert(r.grid() == 0) by (nonlinear_arith)
                    requires
                        r.grid() == r.significand() * pow2(r.shift()),
                        r.significand() == 0,
                ;
                assert(self.grid() == 0) by (nonlinear_arith)
                    requires
                        self.grid() == self.significand() * pow2(self.shift()),
                        self.significand() == 0,
                ;
                assert(self.grid() * pow2(925) == 0) by (nonlinear_arith)
                    requires
                        self.grid() == 0,
                ;
                lemma_pow2_pos(925);
                lemma_small_mod(0, pow2(925));
                assert(0int / (pow2(925) as int) == 0) by {
                    lemma_fundamental_div_mod_converse(0, pow2(925) as int, 0, 0);
                }
            }
            return r;
        }
        // In units of two to the -178 the single is `wide * 2^(place - 897)`.
        let mut wide: u64 = 0;
        let mut place: u64 = 0;
        if exponent == 0 {
            wide = fraction as u64;
            place = 897 + 29;
            proof {
                lemma2_to64();
                assert(wide == fraction * pow2(0)) by (nonlinear_arith)
                    requires
                        wide == fraction,
                        pow2(0) == 1,
                ;
            }
            while wide < 0x0010_0000_0000_0000
                invariant
                    normalized(wide as int, place as int) == normalized(fraction as int, 926),
                    0 < fraction < 0x0080_0000,
                    0 < wide < 0x0020_0000_0000_0000,
                    873 <= place <= 926,
                    wide == fraction * pow2((926 - place) as nat),
                decreases 0x0020_0000_0000_0000 - wide,
            {
                proof {
                    lemma_pow2_unfold((926 - place + 1) as nat);
                    assert(wide * 2 == fraction * pow2((926 - place + 1) as nat))
                        by (nonlinear_arith)
                        requires
                            wide == fraction * pow2((926 - place) as nat),
                            pow2((926 - place + 1) as nat) == 2 * pow2((926 - place) as nat),
                    ;
                    if place == 873 {
                        lemma2_to64_rest();
                        assert(false) by (nonlinear_arith)
                            requires
                                wide == fraction * pow2(53),
                                pow2(53) == 0x0020_0000_0000_0000,
                                fraction >= 1,
                                wide < 0x0010_0000_0000_0000,
                        ;
                    }
                }
                wide = wide * 2;
                place = place - 1;
            }
        } else {
            wide = (SINGLE_HIDDEN as u64 + fraction as u64) * 0x2000_0000;
            place = exponent as u64 + 896;
        }
        let r = Float64 { bits: sign + place * DOUBLE_HIDDEN + (wide - DOUBLE_HIDDEN) };
        proof {
            assert(r.magnitude() == place * 0x0010_0000_0000_0000 + (wide - 0x0010_0000_0000_0000));
            assert(r.exponent() == place);
            assert(r.fraction() == wide - 0x0010_0000_0000_0000);
            assert(r.significand() == wide);
            assert(r.shift() == place - 1);
            lemma2_to64();
            lemma2_to64_rest();
            if exponent == 0 {
                // self.grid() == fraction; r.grid() == fraction * 2^(926 - place) * 2^(place - 1)
                lemma_pow2_adds((926 - place) as nat, (place - 1) as nat);
                assert(self.grid() == fraction) by (nonlinear_arith)
                    requires
                        self.grid() == self.significand() * pow2(0),
                        self.significand() == fraction,
                        pow2(0) == 1,
                ;
                assert(r.grid() == self.grid() * pow2(925)) by (nonlinear_arith)
                    requires
                        r.grid() == wide * pow2((place - 1) as nat),
                        wide == fraction * pow2((926 - place) as nat),
                        pow2(925) == pow2((926 - place) as nat) * pow2((place - 1) as nat),
                        self.grid() == fraction,
                ;
                // narrowing divides by two to the (926 - place) again
                if place >= 897 {
                    if 926 - place < 29 {
                        lemma_pow2_strictly_increases((926 - place) as nat, 29);
                    }
                    assert(false) by (nonlinear_arith)
                        requires
                            wide == fraction * pow2((926 - place) as nat),
                            pow2((926 - place) as nat) <= 0x2000_0000,
                            fraction < 0x0080_0000,
                            wide >= 0x0010_0000_0000_0000,
                    ;
                }
                lemma_pow2_pos((926 - place) as nat);
                lemma_fundamental_div_mod_converse(
                    wide as int,
                    pow2((926 - place) as nat) as int,
                    fraction as int,
                    0,
                );
                assert(r.narrowed() == self);
            } else {
                lemma_pow2_adds((exponent - 1) as nat, 896);
                lemma_pow2_adds(29, 896);
                assert(r.grid() == self.grid() * pow2(925)) by (nonlinear_arith)
                    requires
                        r.grid() == wide * pow2((place - 1) as nat),
                        wide == self.significand() * pow2(29),
                        pow2(29) * pow2(896) == pow2(925),
                        pow2((place - 1) as nat) == pow2((exponent - 1) as nat) * pow2(896),
                        self.grid() == self.significand() * pow2((exponent - 1) as nat),
                ;
                lemma_fundamental_div_mod_converse(
                    wide as int,
                    0x2000_0000,
                    self.significand(),
                    0,
                );
                assert(r.narrowed() == self);
            }
        }
        r
    }
}

impl Float64 {
    /// The single nearest to this double, the one with an even last bit of
    /// two equally near; an infinity where the nearest would be beyond the
    /// largest single. An infinity stays that infinity; a NaN becomes the
    /// default NaN.
    pub open spec fn narrowed(self) -> Float32 {
        let sign: int = if self.negative() { 0x8000_0000 } else { 0 };
        if self.nan() {
            Float32 { bits: 0x7FC0_0000 }
        } else if self.infinite() {
            Float32 { bits: (sign + 0x7F80_0000) as u32 }
        } else {
            let e = self.exponent();
            let m: int = if e >= 897 {
                (e - 897) * 0x0080_0000 + round_half_even(self.significand(), 0x2000_0000)
            } else if e >= 1 {
                round_half_even(self.significand(), pow2((926 - e) as nat) as int)
            } else {
                0
            };
            Float32 { bits: (sign + if m >= 0x7F80_0000 { 0x7F80_0000 } else { m }) as u32 }
        }
    }

    /// Rounds the double to single precision.
    pub fn narrow(self) -> (r: Float32)
        ensures
            r == self.narrowed(),
    {
        let sign: u32 = if self.bits >= DOUBLE_SIGN { SINGLE_SIGN } else { 0 };
        let magnitude: u64 = self.bits % DOUBLE_SIGN;
        if magnitude > DOUBLE_INFINITY {
            return Float32 { bits: SINGLE_NAN };
        }
        if magnitude == DOUBLE_INFINITY {
            return Float32 { bits: sign + SINGLE_INFINITY };
        }
        let exponent: u64 = magnitude / DOUBLE_HIDDEN;
        let fraction: u64 = self.bits % DOUBLE_HIDDEN;
        let significand: u64 = if exponent == 0 { fraction } else { DOUBLE_HIDDEN + fraction };
        assert(significand == self.significand());
        assert(exponent == self.exponent());
        let m: u64 = if exponent >= 897 {
            if exponent >= 897 + 255 {
                0x7F80_0000
            } else {
                (exponent - 897) * 0x0080_0000 + rounded_quotient(significand, 0x2000_0000)
            }
        } else if exponent >= 873 {
            let unit = power_of_two(926 - exponent);
            rounded_quotient(significand, unit)
        } else if exponent >= 1 {
            proof {
                // the divisor is at least two to the 54, over twice the significand
                lemma2_to64_rest();
                if 926 - exponent > 54 {
                    lemma_pow2_strictly_increases(54, (926 - exponent) as nat);
                }
                let d = pow2((926 - exponent) as nat) as int;
                lemma_fundamental_div_mod_converse(significand as int, d, 0, significand as int);
            }
            0
        } else {
            0
        };
        if m >= 0x7F80_0000 {
            Float32 { bits: sign + SINGLE_INFINITY }
        } else {
            Float32 { bits: sign + m as u32 }
        }
    }
}

} // verus!
