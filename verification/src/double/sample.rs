//! Floating-point values as the histogram takes them: taken apart into an
//! integer mantissa and a binary exponent, so that every comparison and every
//! scaling by a power of two is exact.

use vstd::prelude::*;
use vstd::arithmetic::power2::{pow2, lemma2_to64, lemma2_to64_rest};
use crate::bits::{floor_log2, lemma_floor_log2_bounds, lemma_leading_zeros_is_log, lemma_pow2_monotone};

verus! {

/// The lowest binary exponent of a finite floating-point value of 64 bits
/// with an integer mantissa.
pub const MIN_EXPONENT: i32 = -1074;

/// The highest binary exponent of such a value.
pub const MAX_EXPONENT: i32 = 971;

/// The binary order of magnitude of the highest value that a histogram ever
/// takes: `2^1021`, the highest power of two below a quarter of the highest
/// finite floating-point value of 64 bits, which is just below `2^1022`.
pub const HIGHEST_ALLOWED_MAGNITUDE: i32 = 1021;

/// The number `mantissa * 2^exponent`.
#[derive(Clone, Copy, Debug, PartialEq, Eq, Structural)]
pub struct Dyadic {
    pub mantissa: u64,
    pub exponent: i32,
}

/// A floating-point value, by what the histogram does with it.
#[derive(Clone, Copy, Debug, PartialEq, Eq, Structural)]
pub enum DoubleSample {
    /// Not a number, or infinite.
    NotFinite,
    /// Below zero.
    Negative,
    /// Zero.
    Zero,
    /// Above zero.
    Positive(Dyadic),
}

impl Dyadic {
    /// Whether the number is one that 64 bits of floating point can hold: the
    /// mantissa has up to 53 bits and is not 0, and the exponent lies in the
    /// range of such values.
    pub open spec fn wf(self) -> bool {
        &&& 1 <= self.mantissa < 0x20_0000_0000_0000
        &&& MIN_EXPONENT <= self.exponent <= MAX_EXPONENT
    }

    /// The binary order of magnitude of the number: the `k` with
    /// `2^k <= mantissa * 2^exponent < 2^(k+1)`.
    pub open spec fn magnitude(self) -> int {
        self.exponent + floor_log2(self.mantissa as nat)
    }

    /// Whether the number is a power of two.
    pub open spec fn is_power_of_two(self) -> bool {
        self.mantissa == pow2(floor_log2(self.mantissa as nat))
    }

    /// Whether the number exceeds `2^k`.
    pub open spec fn exceeds_pow2(self, k: int) -> bool {
        self.magnitude() > k || (self.magnitude() == k && !self.is_power_of_two())
    }

    /// The binary order of magnitude of the number.
    pub fn get_magnitude(&self) -> (r: i32)
        requires
            self.wf(),
        ensures
            r == self.magnitude(),
            MIN_EXPONENT <= r <= MAX_EXPONENT + 52,
    {
        proof {
            lemma2_to64_rest();
            lemma_leading_zeros_is_log(self.mantissa);
            lemma_floor_log2_bounds(self.mantissa as nat);
            if floor_log2(self.mantissa as nat) >= 53 {
                lemma_pow2_monotone(53, floor_log2(self.mantissa as nat));
            }
        }
        let bits: u32 = 63 - self.mantissa.leading_zeros();
        self.exponent + bits as i32
    }

    /// Whether the number exceeds `2^k`.
    pub fn is_above_pow2(&self, k: i32) -> (r: bool)
        requires
            self.wf(),
        ensures
            r == self.exceeds_pow2(k as int),
    {
        let magnitude = self.get_magnitude();
        if magnitude > k {
            true
        } else if magnitude < k {
            false
        } else {
            proof {
                lemma2_to64_rest();
                lemma_leading_zeros_is_log(self.mantissa);
            }
            let bits: u32 = 63 - self.mantissa.leading_zeros();
            proof {
                crate::bits::lemma_one_shl_is_pow2(bits as u64);
            }
            self.mantissa != (1_u64 << bits)
        }
    }
}

/// The sample that the 64 bits `bits` of a floating-point value stand for.
/// The highest bit is the sign, the next eleven are the exponent field, and
/// the lowest 52 the fraction. An exponent field of all ones is no finite
/// value; zero of either sign is zero; below zero is any other value with the
/// sign set. Of a value above zero the mantissa is the fraction with the bit
/// above it set, and the exponent is the field less 1075; with an exponent
/// field of zero the mantissa is the fraction alone and the exponent -1074.
pub open spec fn spec_sample_of_bits(bits: u64) -> DoubleSample {
    let sign = bits / 0x8000_0000_0000_0000;
    let exponent_field = bits / 0x10_0000_0000_0000 % 0x800;
    let fraction = bits % 0x10_0000_0000_0000;
    if exponent_field == 0x7ff {
        DoubleSample::NotFinite
    } else if exponent_field == 0 && fraction == 0 {
        DoubleSample::Zero
    } else if sign == 1 {
        DoubleSample::Negative
    } else if exponent_field == 0 {
        DoubleSample::Positive(Dyadic { mantissa: fraction as u64, exponent: MIN_EXPONENT })
    } else {
        DoubleSample::Positive(
            Dyadic {
                mantissa: (fraction + 0x10_0000_0000_0000) as u64,
                exponent: (exponent_field - 1075) as i32,
            },
        )
    }
}

/// The sample that the 64 bits `bits` of a floating-point value stand for.
pub fn sample_of_bits(bits: u64) -> (r: DoubleSample)
    ensures
        r == spec_sample_of_bits(bits),
        r matches DoubleSample::Positive(x) ==> x.wf(),
{
    let sign: u64 = bits / 0x8000_0000_0000_0000;
    let exponent_field: u64 = bits / 0x10_0000_0000_0000 % 0x800;
    let fraction: u64 = bits % 0x10_0000_0000_0000;
    if exponent_field == 0x7ff {
        DoubleSample::NotFinite
    } else if exponent_field == 0 && fraction == 0 {
        DoubleSample::Zero
    } else if sign == 1 {
        DoubleSample::Negative
    } else if exponent_field == 0 {
        DoubleSample::Positive(Dyadic { mantissa: fraction, exponent: MIN_EXPONENT })
    } else {
        DoubleSample::Positive(
            Dyadic {
                mantissa: fraction + 0x10_0000_0000_0000,
                exponent: exponent_field as i32 - 1075,
            },
        )
    }
}

/// The binary exponent with which `units * 2^exponent` is written as a
/// floating-point value: that of the value with its mantissa cut to 53 bits,
/// kept within the exponents of floating-point values.
pub open spec fn exponent_for(units: u64, exponent: int) -> int {
    let cut = if floor_log2(units as nat) > 52 {
        exponent + floor_log2(units as nat) - 52
    } else {
        exponent
    };
    if cut < MIN_EXPONENT {
        MIN_EXPONENT as int
    } else if cut > MAX_EXPONENT {
        MAX_EXPONENT as int
    } else {
        cut
    }
}

/// The sample that stands for `units * 2^exponent`: zero for no units, and
/// else the value with what does not fit in a mantissa of 53 bits cut off.
/// There is none where the value is above zero and below the lowest
/// floating-point value above zero, or has the magnitude of none.
pub open spec fn scaled_sample(units: u64, exponent: int) -> Option<DoubleSample> {
    let magnitude = floor_log2(units as nat) + exponent;
    let target = exponent_for(units, exponent);
    if units == 0 {
        Some(DoubleSample::Zero)
    } else if magnitude < MIN_EXPONENT || magnitude > MAX_EXPONENT + 52 {
        None
    } else if target >= exponent {
        Some(
            DoubleSample::Positive(
                Dyadic {
                    mantissa: (units as nat / pow2((target - exponent) as nat)) as u64,
                    exponent: target as i32,
                },
            ),
        )
    } else {
        Some(
            DoubleSample::Positive(
                Dyadic {
                    mantissa: (units * pow2((exponent - target) as nat)) as u64,
                    exponent: target as i32,
                },
            ),
        )
    }
}

/// The sample that stands for a number of units is one that 64 bits of
/// floating point can hold.
pub proof fn lemma_scaled_sample(units: u64, exponent: int)
    requires
        units >= 1,
        MIN_EXPONENT <= floor_log2(units as nat) + exponent <= MAX_EXPONENT + 52,
    ensures
        scaled_sample(units, exponent) matches Some(DoubleSample::Positive(x)) && x.wf()
            && x.magnitude() == floor_log2(units as nat) + exponent,
        exponent_for(units, exponent) >= exponent ==> 0 <= exponent_for(units, exponent)
            - exponent <= floor_log2(units as nat),
        exponent_for(units, exponent) < exponent ==> units * pow2(
            (exponent - exponent_for(units, exponent)) as nat,
        ) < 0x20_0000_0000_0000 && exponent - exponent_for(units, exponent) <= 52,
{
    let fl = floor_log2(units as nat);
    let target = exponent_for(units, exponent);
    lemma_floor_log2_bounds(units as nat);
    lemma2_to64_rest();
    if target >= exponent {
        let s = (target - exponent) as nat;
        // units / 2^s lies between 2^(fl-s) and 2^(fl+1-s).
        vstd::arithmetic::power2::lemma_pow2_adds((fl - s) as nat, s);
        vstd::arithmetic::power2::lemma_pow2_adds((fl + 1 - s) as nat, s);
        vstd::arithmetic::power2::lemma_pow2_pos(s);
        crate::histogram_settings::lemma_div_at_least(units as nat, pow2(s), pow2((fl - s) as nat));
        crate::histogram_settings::lemma_div_below(
            units as nat,
            pow2(s),
            pow2((fl + 1 - s) as nat),
        );
        let mantissa = units as nat / pow2(s);
        lemma_pow2_monotone((fl + 1 - s) as nat, 53);
        vstd::arithmetic::power2::lemma_pow2_pos((fl - s) as nat);
        crate::bits::lemma_floor_log2_unique(mantissa, (fl - s) as nat);
    } else {
        let s = (exponent - target) as nat;
        vstd::arithmetic::power2::lemma_pow2_adds(fl, s);
        vstd::arithmetic::power2::lemma_pow2_adds(fl + 1, s);
        vstd::arithmetic::power2::lemma_pow2_pos(s);
        vstd::arithmetic::power2::lemma_pow2_pos(fl);
        let p = pow2(s) as int;
        let u = units as int;
        let low = pow2(fl) as int;
        let high = pow2(fl + 1) as int;
        assert(low * p <= u * p < high * p) by (nonlinear_arith)
            requires
                low <= u < high,
                p >= 1,
        ;
        lemma_pow2_monotone(fl + 1 + s, 53);
        let mantissa = (units * pow2(s)) as nat;
        assert(low * p >= 1) by (nonlinear_arith)
            requires
                low >= 1,
                p >= 1,
        ;
        crate::bits::lemma_floor_log2_unique(mantissa, fl + s);
    }
}

impl DoubleSample {
    /// The sample that stands for `units * 2^exponent`, if there is one.
    pub fn from_scaled(units: u64, exponent: i32) -> (r: Option<DoubleSample>)
        requires
            -2000 <= exponent <= 2000,
        ensures
            r == scaled_sample(units, exponent as int),
            r matches Some(DoubleSample::Positive(x)) ==> x.wf(),
    {
        if units == 0 {
            return Some(DoubleSample::Zero);
        }
        proof {
            lemma2_to64_rest();
            lemma_leading_zeros_is_log(units);
            lemma_floor_log2_bounds(units as nat);
        }
        let bits: i32 = (63 - units.leading_zeros()) as i32;
        let magnitude: i32 = bits + exponent;
        if magnitude < MIN_EXPONENT || magnitude > MAX_EXPONENT + 52 {
            return None;
        }
        proof {
            lemma_scaled_sample(units, exponent as int);
        }
        let cut: i32 = if bits > 52 {
            exponent + bits - 52
        } else {
            exponent
        };
        let target: i32 = if cut < MIN_EXPONENT {
            MIN_EXPONENT
        } else if cut > MAX_EXPONENT {
            MAX_EXPONENT
        } else {
            cut
        };
        if target >= exponent {
            proof {
                vstd::bits::lemma_u64_shr_is_div(units, (target - exponent) as u64);
            }
            Some(
                DoubleSample::Positive(
                    Dyadic { mantissa: units >> ((target - exponent) as u32), exponent: target },
                ),
            )
        } else {
            proof {
                vstd::bits::lemma_u64_shl_is_mul(units, (exponent - target) as u64);
            }
            Some(
                DoubleSample::Positive(
                    Dyadic { mantissa: units << ((exponent - target) as u32), exponent: target },
                ),
            )
        }
    }
}

impl Dyadic {
    /// The number in units of `2^exponent`, for an exponent that is not above
    /// that of the number.
    pub open spec fn scaled_to(self, exponent: int) -> nat {
        self.mantissa as nat * pow2((self.exponent - exponent) as nat)
    }

    /// The lower of the exponents of two numbers.
    pub open spec fn common_exponent(self, other: Dyadic) -> int {
        if self.exponent < other.exponent {
            self.exponent as int
        } else {
            other.exponent as int
        }
    }

    /// Whether the number is the highest with a full mantissa of 53 bits that
    /// lies below `limit`: it lies below `limit`, and one more in its last
    /// place reaches `limit`.
    pub open spec fn is_just_below(self, limit: Dyadic) -> bool {
        let c = self.common_exponent(limit);
        &&& 0x10_0000_0000_0000 <= self.mantissa < 0x20_0000_0000_0000
        &&& self.scaled_to(c) < limit.scaled_to(c) <= self.scaled_to(c) + pow2(
            (self.exponent - c) as nat,
        )
    }

    /// The number with the highest full mantissa of 53 bits below the number
    /// whose mantissa `mantissa` has 53 bits: one less in the last place, or,
    /// below a power of two, the highest mantissa with the exponent below.
    fn one_place_below(mantissa: u64, exponent: i32) -> (r: Dyadic)
        requires
            0x10_0000_0000_0000 <= mantissa < 0x20_0000_0000_0000,
            -4000 <= exponent <= 4000,
        ensures
            0x10_0000_0000_0000 <= r.mantissa < 0x20_0000_0000_0000,
            r.exponent == exponent || r.exponent == exponent - 1,
            r.exponent == exponent ==> r.mantissa + 1 == mantissa,
            r.exponent == exponent - 1 ==> r.mantissa + 1 == 2 * mantissa,
    {
        if mantissa > 0x10_0000_0000_0000 {
            Dyadic { mantissa: mantissa - 1, exponent }
        } else {
            Dyadic { mantissa: 0x1f_ffff_ffff_ffff, exponent: exponent - 1 }
        }
    }

    /// The highest number with a full mantissa of 53 bits below the number,
    /// which is above zero.
    pub fn just_below(&self) -> (r: Dyadic)
        requires
            self.mantissa >= 1,
            -3000 <= self.exponent <= 3000,
        ensures
            r.is_just_below(*self),
    {
        proof {
            lemma2_to64();
            lemma2_to64_rest();
            lemma_leading_zeros_is_log(self.mantissa);
            lemma_floor_log2_bounds(self.mantissa as nat);
        }
        let bits: u32 = 63 - self.mantissa.leading_zeros();
        if bits <= 52 {
            let t: u32 = 52 - bits;
            proof {
                vstd::arithmetic::power2::lemma_pow2_adds(bits as nat, t as nat);
                vstd::arithmetic::power2::lemma_pow2_adds((bits + 1) as nat, t as nat);
                vstd::arithmetic::power2::lemma_pow2_pos(t as nat);
                vstd::arithmetic::power2::lemma_pow2_unfold((t + 1) as nat);
                let p = pow2(t as nat) as int;
                let m = self.mantissa as int;
                let low = pow2(bits as nat) as int;
                let high = pow2((bits + 1) as nat) as int;
                assert(low * p <= m * p < high * p) by (nonlinear_arith)
                    requires
                        low <= m < high,
                        p >= 1,
                ;
                vstd::bits::lemma_u64_shl_is_mul(self.mantissa, t as u64);
                assert(m * (2 * p) == 2 * (m * p)) by (nonlinear_arith);
            }
            let mantissa: u64 = self.mantissa << t;
            let r = Self::one_place_below(mantissa, self.exponent - t as i32);
            proof {
                let c = r.common_exponent(*self);
                assert(r.scaled_to(c) == r.mantissa * 1);
            }
            r
        } else {
            let s: u32 = bits - 52;
            proof {
                vstd::arithmetic::power2::lemma_pow2_adds(52, s as nat);
                vstd::arithmetic::power2::lemma_pow2_adds(53, s as nat);
                vstd::arithmetic::power2::lemma_pow2_pos(s as nat);
                vstd::arithmetic::power2::lemma_pow2_unfold(s as nat);
                vstd::bits::lemma_u64_shr_is_div(self.mantissa, s as u64);
                crate::histogram_settings::lemma_div_brackets(
                    self.mantissa as nat,
                    pow2(s as nat),
                );
                crate::histogram_settings::lemma_div_at_least(
                    self.mantissa as nat,
                    pow2(s as nat),
                    pow2(52),
                );
                crate::histogram_settings::lemma_div_below(
                    self.mantissa as nat,
                    pow2(s as nat),
                    pow2(53),
                );
                vstd::bits::lemma_u64_shl_is_mul((self.mantissa >> s) as u64, s as u64);
            }
            let mantissa: u64 = self.mantissa >> s;
            let exponent: i32 = self.exponent + s as i32;
            if (mantissa << s) != self.mantissa {
                let r = Dyadic { mantissa, exponent };
                proof {
                    let p = pow2(s as nat) as int;
                    let m = mantissa as int;
                    assert((m + 1) * p == m * p + p) by (nonlinear_arith);
                }
                r
            } else {
                let r = Self::one_place_below(mantissa, exponent);
                proof {
                    let c = r.common_exponent(*self);
                    assert(self.scaled_to(c) == self.mantissa * 1);
                    let p = pow2(s as nat) as int;
                    let half = pow2((s - 1) as nat) as int;
                    let m = mantissa as int;
                    let rm = r.mantissa as int;
                    if r.exponent == exponent {
                        assert((rm + 1) * p == rm * p + p) by (nonlinear_arith);
                    } else {
                        assert((rm + 1) * half == rm * half + half) by (nonlinear_arith);
                        assert((2 * m) * half == m * (2 * half)) by (nonlinear_arith);
                    }
                }
                r
            }
        }
    }
}

} // verus!
