//! The midpoint of two decimals.
//!
//! The sum and the halving are computed by `rust_decimal`, whose arithmetic
//! may round where a result does not fit. The proposal it returns is therefore
//! confirmed here, in exact integer arithmetic, before it is handed out: a
//! midpoint that this module returns is exactly halfway between its arguments.

use crate::decimal::{
    lemma_pow10_positive, lemma_scaled_order, lemma_units_split, pow10, pow10_exec, Decimal,
    MAX_MANTISSA, MAX_SCALE,
};
use vstd::prelude::*;

verus! {

/// The largest aligned coefficient that [`confirms_midpoint`] works with.
pub const ALIGN_MAX: u128 = 0x7FFF_FFFF_FFFF_FFFF_FFFF_FFFF_FFFF_FFFF;

/// Coefficient and scale are those of a value that `rust_decimal` can hold.
pub open spec fn parts_in_range(mantissa: i128, scale: u32) -> bool {
    -MAX_MANTISSA <= mantissa <= MAX_MANTISSA && scale <= MAX_SCALE
}

/// Coefficient and scale of what `rust_decimal::Decimal::checked_add` returns
/// for the decimals `am / 10^ascale` and `bm / 10^bscale`.
pub uninterp spec fn decimal_sum(am: i128, ascale: u32, bm: i128, bscale: u32) -> Option<
    (i128, u32),
>;

/// Coefficient and scale of what `rust_decimal::Decimal::checked_div` returns
/// for the dividend `am / 10^ascale` and the divisor `bm / 10^bscale`.
pub uninterp spec fn decimal_quotient(am: i128, ascale: u32, bm: i128, bscale: u32) -> Option<
    (i128, u32),
>;

/// Calls `rust_decimal::Decimal::checked_add` on two decimals given by their
/// parts.
///
/// Trusted: the result is a function of the four arguments alone, and the
/// call does not panic on parts that are in range. Nothing is claimed about
/// the value returned.
#[verifier::external_body]
fn checked_add_parts(am: i128, ascale: u32, bm: i128, bscale: u32) -> (r: Option<(i128, u32)>)
    requires
        parts_in_range(am, ascale),
        parts_in_range(bm, bscale),
    ensures
        r == decimal_sum(am, ascale, bm, bscale),
{
    let a = rust_decimal::Decimal::from_i128_with_scale(am, ascale);
    let b = rust_decimal::Decimal::from_i128_with_scale(bm, bscale);
    match a.checked_add(b) {
        Some(d) => Some((d.mantissa(), d.scale())),
        None => None,
    }
}

/// Calls `rust_decimal::Decimal::checked_div` on two decimals given by their
/// parts.
///
/// Trusted: the result is a function of the four arguments alone, and the
/// call does not panic on parts that are in range (a zero divisor gives
/// `None`). Nothing is claimed about the value returned.
#[verifier::external_body]
fn checked_div_parts(am: i128, ascale: u32, bm: i128, bscale: u32) -> (r: Option<(i128, u32)>)
    requires
        parts_in_range(am, ascale),
        parts_in_range(bm, bscale),
    ensures
        r == decimal_quotient(am, ascale, bm, bscale),
{
    let a = rust_decimal::Decimal::from_i128_with_scale(am, ascale);
    let b = rust_decimal::Decimal::from_i128_with_scale(bm, bscale);
    match a.checked_div(b) {
        Some(d) => Some((d.mantissa(), d.scale())),
        None => None,
    }
}

/// The coefficient of `d` written at scale `s`, for `s` at or above the scale
/// of `d`.
pub open spec fn aligned(d: Decimal, s: nat) -> nat {
    d.spec_mantissa() * pow10((s - d.spec_scale()) as nat)
}

/// The largest of the three scales.
pub open spec fn common_scale(a: Decimal, b: Decimal, m: Decimal) -> nat {
    let ab = if a.spec_scale() >= b.spec_scale() {
        a.spec_scale()
    } else {
        b.spec_scale()
    };
    if ab >= m.spec_scale() {
        ab
    } else {
        m.spec_scale()
    }
}

/// `m` is exactly halfway between `a` and `b`.
pub open spec fn is_midpoint(a: Decimal, b: Decimal, m: Decimal) -> bool {
    2 * m.units() == a.units() + b.units()
}

/// The three coefficients, written at their common scale, fit in 127 bits:
/// the range in which [`confirms_midpoint`] decides.
pub open spec fn comparable(a: Decimal, b: Decimal, m: Decimal) -> bool {
    let s = common_scale(a, b, m);
    aligned(a, s) <= ALIGN_MAX && aligned(b, s) <= ALIGN_MAX && aligned(m, s) <= ALIGN_MAX
}

/// What `rust_decimal` proposes as `(a + b) / 2`, in lowest terms; `None`
/// where it reports an overflow or returns parts out of this crate's range.
pub open spec fn proposed_midpoint(a: Decimal, b: Decimal) -> Option<Decimal> {
    match decimal_sum(
        a.spec_mantissa() as i128,
        a.spec_scale() as u32,
        b.spec_mantissa() as i128,
        b.spec_scale() as u32,
    ) {
        Some((sm, ss)) => if parts_in_range(sm, ss) {
            match decimal_quotient(sm, ss, 2, 0) {
                Some((hm, hs)) => Decimal::spec_new(hm, hs),
                None => None,
            }
        } else {
            None
        },
        None => None,
    }
}

/// The midpoint that [`midpoint`] returns: the proposal, where it is confirmed
/// to be exact.
pub open spec fn spec_midpoint(a: Decimal, b: Decimal) -> Option<Decimal> {
    match proposed_midpoint(a, b) {
        Some(m) => if comparable(a, b, m) && is_midpoint(a, b, m) {
            Some(m)
        } else {
            None
        },
        None => None,
    }
}

/// The coefficient of `d` at scale `s`, or `None` where it exceeds
/// [`ALIGN_MAX`].
fn align(d: &Decimal, s: u32) -> (r: Option<u128>)
    requires
        d.wf(),
        d.spec_scale() <= s <= MAX_SCALE,
    ensures
        r == if aligned(*d, s as nat) <= ALIGN_MAX {
            Some(aligned(*d, s as nat) as u128)
        } else {
            None::<u128>
        },
{
    let p: u128 = pow10_exec(s - d.scale());
    match d.mantissa().checked_mul(p) {
        Some(v) => if v <= ALIGN_MAX {
            Some(v)
        } else {
            None
        },
        None => None,
    }
}

/// Decides whether `m` is exactly halfway between `a` and `b`, for values
/// whose aligned coefficients fit in 127 bits.
pub fn confirms_midpoint(a: &Decimal, b: &Decimal, m: &Decimal) -> (r: bool)
    requires
        a.wf(),
        b.wf(),
        m.wf(),
    ensures
        r == (comparable(*a, *b, *m) && is_midpoint(*a, *b, *m)),
{
    let ab: u32 = if a.scale() >= b.scale() {
        a.scale()
    } else {
        b.scale()
    };
    let s: u32 = if ab >= m.scale() {
        ab
    } else {
        m.scale()
    };
    let xa: u128 = match align(a, s) {
        Some(v) => v,
        None => { return false; },
    };
    let xb: u128 = match align(b, s) {
        Some(v) => v,
        None => { return false; },
    };
    let xm: u128 = match align(m, s) {
        Some(v) => v,
        None => { return false; },
    };
    proof {
        let c = pow10((MAX_SCALE - s) as nat);
        lemma_pow10_positive((MAX_SCALE - s) as nat);
        lemma_units_split(*a, s as nat);
        lemma_units_split(*b, s as nat);
        lemma_units_split(*m, s as nat);
        assert(xa * c + xb * c == (xa + xb) * c) by (nonlinear_arith);
        assert(2 * (xm * c) == (2 * xm) * c) by (nonlinear_arith);
        lemma_scaled_order(2 * xm, xa + xb, c as int);
    }
    xa + xb == 2 * xm
}

/// The exact midpoint `(a + b) / 2`.
///
/// `rust_decimal` adds and halves; the result is returned only where it is
/// confirmed to be exactly halfway between `a` and `b`.
pub fn midpoint(a: &Decimal, b: &Decimal) -> (r: Option<Decimal>)
    requires
        a.wf(),
        b.wf(),
    ensures
        r == spec_midpoint(*a, *b),
        r matches Some(m) ==> m.wf() && is_midpoint(*a, *b, m),
{
    let sum = checked_add_parts(a.mantissa() as i128, a.scale(), b.mantissa() as i128, b.scale());
    let (sm, ss) = match sum {
        Some(parts) => parts,
        None => { return None; },
    };
    if sm < -(MAX_MANTISSA as i128) || sm > MAX_MANTISSA as i128 || ss > MAX_SCALE {
        return None;
    }
    let half = checked_div_parts(sm, ss, 2, 0);
    let (hm, hs) = match half {
        Some(parts) => parts,
        None => { return None; },
    };
    match Decimal::new(hm, hs) {
        Some(m) => if confirms_midpoint(a, b, &m) {
            Some(m)
        } else {
            None
        },
        None => None,
    }
}

} // verus!
