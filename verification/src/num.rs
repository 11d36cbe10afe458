//! Fixed-point numbers: the numeric domain of the interpreter.
//!
//! A `Num` stores a signed count of millionths, so every value is an exact
//! multiple of 10^-6.  All arithmetic is checked: an operation whose
//! mathematical result would leave the representable range reports an error
//! instead of wrapping.  The representable range is symmetric
//! (`-i64::MAX ..= i64::MAX` millionths), which keeps negation total.
use vstd::prelude::*;

verus! {

/// Millionths per whole unit.
pub const SCALE: i64 = 1_000_000;

/// Largest magnitude, in millionths, that a well-formed `Num` may hold.
pub const MICRO_MAX: i64 = 0x7fff_ffff_ffff_ffff;

/// One half unit in millionths; used when rounding to a whole number.
pub const HALF_SCALE: i64 = 500_000;

pub open spec fn abs_i(a: int) -> int {
    if a < 0 {
        -a
    } else {
        a
    }
}

/// Magnitudes in this range are closed under the checked operations below.
pub open spec fn micro_wf(m: int) -> bool {
    -(MICRO_MAX as int) <= m <= MICRO_MAX as int
}

/// Product of two fixed-point values, truncated toward zero.
pub open spec fn mul_scaled(a: int, b: int) -> int {
    let m = (abs_i(a) * abs_i(b)) / (SCALE as int);
    if (a < 0) != (b < 0) {
        -m
    } else {
        m
    }
}

/// Quotient of two fixed-point values, truncated toward zero.
/// Meaningful only for `b != 0`.
pub open spec fn div_scaled(a: int, b: int) -> int {
    let m = (abs_i(a) * (SCALE as int)) / abs_i(b);
    if (a < 0) != (b < 0) {
        -m
    } else {
        m
    }
}

/// Nearest whole number, with halves rounded away from zero.
pub open spec fn round_whole(m: int) -> int {
    let r = (abs_i(m) + HALF_SCALE as int) / (SCALE as int);
    if m < 0 {
        -r
    } else {
        r
    }
}

/// A fixed-point number holding `micro` millionths.
#[derive(Debug, Clone, Copy, PartialEq, Eq, Structural)]
pub struct Num {
    pub micro: i64,
}

impl Num {
    /// The mathematical value, in millionths.
    pub open spec fn as_int(self) -> int {
        self.micro as int
    }

    pub open spec fn wf(self) -> bool {
        micro_wf(self.micro as int)
    }

    /// Whether the value is a whole number.
    pub open spec fn spec_is_whole(self) -> bool {
        self.micro as int % (SCALE as int) == 0
    }

    /// The whole number this value equals; meaningful only when whole.
    pub open spec fn spec_whole(self) -> int {
        self.micro as int / (SCALE as int)
    }

    pub fn from_int(i: i32) -> (r: Num)
        ensures
            r.as_int() == i * (SCALE as int),
            r.wf(),
            r.spec_is_whole(),
            r.spec_whole() == i as int,
    {
        let r = Num { micro: (i as i64) * SCALE };
        proof {
            vstd::arithmetic::div_mod::lemma_fundamental_div_mod_converse_mod(
                r.micro as int,
                SCALE as int,
                i as int,
                0,
            );
            vstd::arithmetic::div_mod::lemma_fundamental_div_mod_converse_div(
                r.micro as int,
                SCALE as int,
                i as int,
                0,
            );
        }
        r
    }

    /// The magnitude of the value in millionths, as an unsigned word.
    fn mag(self) -> (r: u64)
        ensures
            r == abs_i(self.as_int()),
    {
        if self.micro == i64::MIN {
            9_223_372_036_854_775_808u64
        } else if self.micro < 0 {
            (-self.micro) as u64
        } else {
            self.micro as u64
        }
    }

    pub fn checked_add(self, other: Num) -> (r: Option<Num>)
        ensures
            match r {
                Some(v) => v.as_int() == self.as_int() + other.as_int() && v.wf(),
                None => !micro_wf(self.as_int() + other.as_int()),
            },
    {
        let s: i128 = (self.micro as i128) + (other.micro as i128);
        if s < -(MICRO_MAX as i128) || s > MICRO_MAX as i128 {
            None
        } else {
            Some(Num { micro: s as i64 })
        }
    }

    pub fn checked_sub(self, other: Num) -> (r: Option<Num>)
        ensures
            match r {
                Some(v) => v.as_int() == self.as_int() - other.as_int() && v.wf(),
                None => !micro_wf(self.as_int() - other.as_int()),
            },
    {
        let s: i128 = (self.micro as i128) - (other.micro as i128);
        if s < -(MICRO_MAX as i128) || s > MICRO_MAX as i128 {
            None
        } else {
            Some(Num { micro: s as i64 })
        }
    }

    pub fn checked_mul(self, other: Num) -> (r: Option<Num>)
        ensures
            match r {
                Some(v) => v.as_int() == mul_scaled(self.as_int(), other.as_int()) && v.wf(),
                None => !micro_wf(mul_scaled(self.as_int(), other.as_int())),
            },
    {
        let ma = self.mag();
        let mb = other.mag();
        assert((ma as int) * (mb as int) <= 0x8000_0000_0000_0000 * 0x8000_0000_0000_0000)
            by (nonlinear_arith)
            requires
                ma <= 0x8000_0000_0000_0000u64,
                mb <= 0x8000_0000_0000_0000u64,
        ;
        let prod: u128 = (ma as u128) * (mb as u128);
        let q: u128 = prod / (SCALE as u128);
        assert(prod == abs_i(self.as_int()) * abs_i(other.as_int())) by (nonlinear_arith)
            requires
                ma == abs_i(self.as_int()),
                mb == abs_i(other.as_int()),
                prod == ma * mb,
        ;
        if q > MICRO_MAX as u128 {
            None
        } else {
            let neg = (self.micro < 0) != (other.micro < 0);
            let v: i64 = if neg {
                -(q as i64)
            } else {
                q as i64
            };
            Some(Num { micro: v })
        }
    }

    /// Division; meaningful only for a nonzero divisor.
    pub fn checked_div(self, other: Num) -> (r: Option<Num>)
        requires
            other.as_int() != 0,
        ensures
            match r {
                Some(v) => v.as_int() == div_scaled(self.as_int(), other.as_int()) && v.wf(),
                None => !micro_wf(div_scaled(self.as_int(), other.as_int())),
            },
    {
        let ma = self.mag();
        let mb = other.mag();
        assert((ma as int) * (SCALE as int) <= 0x8000_0000_0000_0000 * (SCALE as int))
            by (nonlinear_arith)
            requires
                ma <= 0x8000_0000_0000_0000u64,
        ;
        let prod: u128 = (ma as u128) * (SCALE as u128);
        assert(prod == abs_i(self.as_int()) * (SCALE as int));
        let q: u128 = prod / (mb as u128);
        if q > MICRO_MAX as u128 {
            None
        } else {
            let neg = (self.micro < 0) != (other.micro < 0);
            let v: i64 = if neg {
                -(q as i64)
            } else {
                q as i64
            };
            Some(Num { micro: v })
        }
    }

    /// The nearest whole number if it fits in an `i32`.
    /// Halves round away from zero.
    pub fn round_to_i32(self) -> (r: Option<i32>)
        ensures
            match r {
                Some(v) => v as int == round_whole(self.as_int()),
                None => !(i32::MIN <= round_whole(self.as_int()) <= i32::MAX),
            },
    {
        let m = self.mag();
        let q: u64 = (m + HALF_SCALE as u64) / (SCALE as u64);
        if self.micro < 0 {
            if q > 0x8000_0000u64 {
                None
            } else if q == 0x8000_0000u64 {
                Some(i32::MIN)
            } else {
                Some(-(q as i32))
            }
        } else {
            if q > 0x7fff_ffffu64 {
                None
            } else {
                Some(q as i32)
            }
        }
    }

    /// The exact whole value, if the number is whole.
    pub fn as_whole(self) -> (r: Option<i64>)
        ensures
            match r {
                Some(v) => self.spec_is_whole() && v as int == self.spec_whole(),
                None => !self.spec_is_whole(),
            },
    {
        let m = self.mag();
        let q: u64 = m / (SCALE as u64);
        let rem: u64 = m % (SCALE as u64);
        proof {
            vstd::arithmetic::div_mod::lemma_fundamental_div_mod(m as int, SCALE as int);
            let mi = self.micro as int;
            if mi < 0 {
                // Relate the magnitude's division to the value's own.
                if rem == 0 {
                    vstd::arithmetic::div_mod::lemma_fundamental_div_mod_converse_mod(
                        mi,
                        SCALE as int,
                        -(q as int),
                        0,
                    );
                    vstd::arithmetic::div_mod::lemma_fundamental_div_mod_converse_div(
                        mi,
                        SCALE as int,
                        -(q as int),
                        0,
                    );
                } else {
                    vstd::arithmetic::div_mod::lemma_fundamental_div_mod_converse_mod(
                        mi,
                        SCALE as int,
                        -(q as int) - 1,
                        SCALE as int - rem as int,
                    );
                }
            }
        }
        if rem != 0 {
            None
        } else if self.micro < 0 {
            Some(-(q as i64))
        } else {
            Some(q as i64)
        }
    }
}

} // verus!
