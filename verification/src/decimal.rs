//! A checked fixed-point number with eighteen decimal places.
//!
//! Values are kept as `atomics`, a count of `1/DECIMAL_FRACTIONAL` units in a
//! `u128`.  Every operation rounds down explicitly and reports overflow as an
//! error instead of clamping; the contracts state the exact atomic count of
//! each result.

use crate::error::ContractError;
use vstd::arithmetic::div_mod::{
    lemma_div_pos_is_pos, lemma_fundamental_div_mod, lemma_fundamental_div_mod_converse_div,
    lemma_mod_division_less_than_divisor, lemma_multiply_divide_lt,
};
use vstd::arithmetic::mul::{lemma_mul_inequality, lemma_mul_nonnegative};
use vstd::prelude::*;

verus! {

/// Atomic units per whole unit: the type keeps 18 decimal places.
pub const DECIMAL_FRACTIONAL: u128 = 1_000_000_000_000_000_000;

/// The square root of `DECIMAL_FRACTIONAL`, used to split a long division
/// into steps whose intermediate products fit a `u128`.
pub const DECIMAL_FRACTIONAL_ROOT: u128 = 1_000_000_000;

/// The largest divisor `checked_div` accepts; above it an intermediate
/// product could exceed a `u128` even when the quotient itself fits.
pub const MAX_DIVISOR_ATOMICS: u128 = u128::MAX / DECIMAL_FRACTIONAL_ROOT;

/// A non-negative fixed-point number with 18 decimal places.
#[derive(Clone, Copy, PartialEq, Eq, Structural, Debug)]
pub struct Decimal {
    pub atomics: u128,
}

/// The exact atomic count of a fixed-point product, before any range check:
/// `a/10^18 * b/10^18` is `(a*b)/10^18` atomics, rounded down.
pub open spec fn spec_mul_atomics(a: u128, b: u128) -> int {
    (a * b) / (DECIMAL_FRACTIONAL as int)
}

/// The exact atomic count of a fixed-point quotient, before any range check:
/// `(a/10^18) / (b/10^18)` is `(a*10^18)/b` atomics, rounded down.
pub open spec fn spec_div_atomics(a: u128, b: u128) -> int {
    (a * DECIMAL_FRACTIONAL) / (b as int)
}

impl Decimal {
    /// The value zero.
    pub fn zero() -> (r: Self)
        ensures
            r.atomics == 0,
    {
        Decimal { atomics: 0 }
    }

    /// The value one.
    pub fn one() -> (r: Self)
        ensures
            r.atomics == DECIMAL_FRACTIONAL,
    {
        Decimal { atomics: DECIMAL_FRACTIONAL }
    }

    /// Whether the value is zero.
    pub fn is_zero(&self) -> (r: bool)
        ensures
            r == (self.atomics == 0),
    {
        self.atomics == 0
    }

    /// The whole number `n` as a fixed-point value; fails when `n` is too
    /// large to represent.
    pub fn from_int(n: u128) -> (r: Result<Self, ContractError>)
        ensures
            n * DECIMAL_FRACTIONAL <= u128::MAX ==> (r matches Ok(d) && d.atomics == n
                * DECIMAL_FRACTIONAL),
            n * DECIMAL_FRACTIONAL > u128::MAX ==> r == Err::<Decimal, ContractError>(
                ContractError::Overflow,
            ),
    {
        match n.checked_mul(DECIMAL_FRACTIONAL) {
            Some(at) => Ok(Decimal { atomics: at }),
            None => Err(ContractError::Overflow),
        }
    }

    /// The value rounded down to a whole number of units.
    pub fn to_uint_floor(&self) -> (r: u128)
        ensures
            r == self.atomics / DECIMAL_FRACTIONAL,
    {
        self.atomics / DECIMAL_FRACTIONAL
    }

    /// Checked addition; exact, fails only above the representable range.
    pub fn checked_add(self, other: Self) -> (r: Result<Self, ContractError>)
        ensures
            self.atomics + other.atomics <= u128::MAX ==> (r matches Ok(d) && d.atomics
                == self.atomics + other.atomics),
            self.atomics + other.atomics > u128::MAX ==> r == Err::<Decimal, ContractError>(
                ContractError::Overflow,
            ),
    {
        match self.atomics.checked_add(other.atomics) {
            Some(at) => Ok(Decimal { atomics: at }),
            None => Err(ContractError::Overflow),
        }
    }

    /// Checked multiplication, rounding down: fails exactly when the true
    /// rounded product does not fit a `u128` count of atomics.
    pub fn checked_mul(self, other: Self) -> (r: Result<Self, ContractError>)
        ensures
            spec_mul_atomics(self.atomics, other.atomics) <= u128::MAX ==> (r matches Ok(d)
                && d.atomics == spec_mul_atomics(self.atomics, other.atomics)),
            spec_mul_atomics(self.atomics, other.atomics) > u128::MAX ==> r == Err::<
                Decimal,
                ContractError,
            >(ContractError::Overflow),
    {
        let a = self.atomics;
        let b = other.atomics;
        let qa = a / DECIMAL_FRACTIONAL;
        let ra = a % DECIMAL_FRACTIONAL;
        let qb = b / DECIMAL_FRACTIONAL;
        let rb = b % DECIMAL_FRACTIONAL;
        proof {
            lemma_mul_split(a, b);
            lemma_mod_division_less_than_divisor(a as int, DECIMAL_FRACTIONAL as int);
            lemma_mod_division_less_than_divisor(b as int, DECIMAL_FRACTIONAL as int);
            lemma_mul_nonnegative(ra as int, qb as int);
            lemma_div_pos_is_pos(ra as int * rb as int, DECIMAL_FRACTIONAL as int);
            lemma_mul_nonnegative(ra as int, rb as int);
        }
        let t1 = match qa.checked_mul(b) {
            Some(v) => v,
            None => {
                return Err(ContractError::Overflow);
            },
        };
        let t2 = match ra.checked_mul(qb) {
            Some(v) => v,
            None => {
                return Err(ContractError::Overflow);
            },
        };
        proof {
            lemma_mul_inequality(ra as int, DECIMAL_FRACTIONAL as int, rb as int);
        }
        let low = (ra * rb) / DECIMAL_FRACTIONAL;
        let s1 = match t1.checked_add(t2) {
            Some(v) => v,
            None => {
                return Err(ContractError::Overflow);
            },
        };
        match s1.checked_add(low) {
            Some(v) => Ok(Decimal { atomics: v }),
            None => Err(ContractError::Overflow),
        }
    }

    /// Checked division, rounding down.  Fails on a zero divisor, on a
    /// divisor above `MAX_DIVISOR_ATOMICS` (an intermediate product would
    /// not fit a `u128`), and when the true rounded quotient does not fit
    /// a `u128` count of atomics.
    pub fn checked_div(self, other: Self) -> (r: Result<Self, ContractError>)
        ensures
            other.atomics == 0 ==> r == Err::<Decimal, ContractError>(ContractError::DivideByZero),
            other.atomics > MAX_DIVISOR_ATOMICS ==> r == Err::<Decimal, ContractError>(
                ContractError::Overflow,
            ),
            0 < other.atomics <= MAX_DIVISOR_ATOMICS ==> {
                if spec_div_atomics(self.atomics, other.atomics) <= u128::MAX {
                    r matches Ok(d) && d.atomics == spec_div_atomics(self.atomics, other.atomics)
                } else {
                    r == Err::<Decimal, ContractError>(ContractError::Overflow)
                }
            },
    {
        let a = self.atomics;
        let b = other.atomics;
        if b == 0 {
            return Err(ContractError::DivideByZero);
        }
        if b > MAX_DIVISOR_ATOMICS {
            return Err(ContractError::Overflow);
        }
        let q = a / b;
        let r0 = a % b;
        proof {
            lemma_mod_division_less_than_divisor(a as int, b as int);
            lemma_div_split(a, b);
            lemma_div_pos_is_pos(a as int * DECIMAL_FRACTIONAL as int, b as int);
            lemma_mul_nonnegative(a as int, DECIMAL_FRACTIONAL as int);
        }
        let part0 = match q.checked_mul(DECIMAL_FRACTIONAL) {
            Some(v) => v,
            None => {
                return Err(ContractError::Overflow);
            },
        };
        proof {
            lemma_r_root_fits(r0, b);
        }
        let r1 = r0 * DECIMAL_FRACTIONAL_ROOT;
        let q1 = r1 / b;
        let r2 = r1 % b;
        proof {
            lemma_mod_division_less_than_divisor(r1 as int, b as int);
            lemma_quotient_small(r0, b);
            lemma_r_root_fits(r2, b);
        }
        let low1 = r2 * DECIMAL_FRACTIONAL_ROOT;
        let q2 = low1 / b;
        proof {
            lemma_quotient_small(r2, b);
        }
        let low = q1 * DECIMAL_FRACTIONAL_ROOT + q2;
        match part0.checked_add(low) {
            Some(v) => Ok(Decimal { atomics: v }),
            None => Err(ContractError::Overflow),
        }
    }
}

/// The rounded fixed-point product splits into three terms that each fit the
/// machine when the product itself does.
proof fn lemma_mul_split(a: u128, b: u128)
    ensures
        spec_mul_atomics(a, b) == (a as int / DECIMAL_FRACTIONAL as int) * b + (a as int
            % DECIMAL_FRACTIONAL as int) * (b as int / DECIMAL_FRACTIONAL as int) + ((a as int
            % DECIMAL_FRACTIONAL as int) * (b as int % DECIMAL_FRACTIONAL as int))
            / DECIMAL_FRACTIONAL as int,
{
    let df = DECIMAL_FRACTIONAL as int;
    let qa = a as int / df;
    let ra = a as int % df;
    let qb = b as int / df;
    let rb = b as int % df;
    lemma_fundamental_div_mod(a as int, df);
    lemma_fundamental_div_mod(b as int, df);
    lemma_mod_division_less_than_divisor(a as int, df);
    lemma_mod_division_less_than_divisor(b as int, df);
    let mq = (ra * rb) / df;
    let mr = (ra * rb) % df;
    lemma_fundamental_div_mod(ra * rb, df);
    lemma_mod_division_less_than_divisor(ra * rb, df);
    assert(a as int * b as int == (qa * b + ra * qb + mq) * df + mr) by (nonlinear_arith)
        requires
            a as int == df * qa + ra,
            b as int == df * qb + rb,
            ra * rb == df * mq + mr,
    ;
    lemma_fundamental_div_mod_converse_div(
        a as int * b as int,
        df,
        qa * b + ra * qb + mq,
        mr,
    );
}

/// The rounded fixed-point quotient splits into a whole part and two
/// root-sized correction terms.
proof fn lemma_div_split(a: u128, b: u128)
    requires
        0 < b,
    ensures
        spec_div_atomics(a, b) == (a as int / b as int) * DECIMAL_FRACTIONAL + (((a as int
            % b as int) * DECIMAL_FRACTIONAL_ROOT) / b as int) * DECIMAL_FRACTIONAL_ROOT + ((((
        a as int % b as int) * DECIMAL_FRACTIONAL_ROOT) % b as int) * DECIMAL_FRACTIONAL_ROOT)
            / b as int,
{
    let df = DECIMAL_FRACTIONAL as int;
    let root = DECIMAL_FRACTIONAL_ROOT as int;
    let q = a as int / b as int;
    let r0 = a as int % b as int;
    lemma_fundamental_div_mod(a as int, b as int);
    lemma_mod_division_less_than_divisor(a as int, b as int);
    let q1 = (r0 * root) / b as int;
    let r2 = (r0 * root) % b as int;
    lemma_fundamental_div_mod(r0 * root, b as int);
    lemma_mod_division_less_than_divisor(r0 * root, b as int);
    let q2 = (r2 * root) / b as int;
    let r3 = (r2 * root) % b as int;
    lemma_fundamental_div_mod(r2 * root, b as int);
    lemma_mod_division_less_than_divisor(r2 * root, b as int);
    assert(a as int * df == (q * df + q1 * root + q2) * b as int + r3) by (nonlinear_arith)
        requires
            df == root * root,
            a as int == b as int * q + r0,
            r0 * root == b as int * q1 + r2,
            r2 * root == b as int * q2 + r3,
    ;
    lemma_fundamental_div_mod_converse_div(
        a as int * df,
        b as int,
        q * df + q1 * root + q2,
        r3,
    );
}

/// A remainder below a divisor that is itself within `MAX_DIVISOR_ATOMICS`
/// can be scaled by the root without leaving `u128`.
proof fn lemma_r_root_fits(r: u128, b: u128)
    requires
        r < b,
        b <= MAX_DIVISOR_ATOMICS,
    ensures
        r * DECIMAL_FRACTIONAL_ROOT <= u128::MAX,
{
    let root = DECIMAL_FRACTIONAL_ROOT as int;
    lemma_mul_inequality(r as int, MAX_DIVISOR_ATOMICS as int, root);
    lemma_fundamental_div_mod(u128::MAX as int, root);
    lemma_mod_division_less_than_divisor(u128::MAX as int, root);
}

/// Scaling a remainder by the root and dividing by the divisor again stays
/// below the root.
proof fn lemma_quotient_small(r: u128, b: u128)
    requires
        r < b,
        0 < b,
    ensures
        (r as int * DECIMAL_FRACTIONAL_ROOT) / (b as int) < DECIMAL_FRACTIONAL_ROOT,
        ((r as int * DECIMAL_FRACTIONAL_ROOT) / (b as int)) >= 0,
{
    let root = DECIMAL_FRACTIONAL_ROOT as int;
    assert(r as int * root < b as int * root) by (nonlinear_arith)
        requires
            r < b,
            root > 0,
    ;
    lemma_multiply_divide_lt(r as int * root, b as int, root);
    lemma_mul_nonnegative(r as int, root);
    lemma_div_pos_is_pos(r as int * root, b as int);
}

} // verus!
