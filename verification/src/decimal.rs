//! Exact non-negative decimal numbers.
//!
//! A [`Decimal`] is a coefficient of at most 96 bits and a scale of at most 28:
//! it stands for `coefficient / 10^scale`. Values are kept in lowest terms (no
//! trailing zero digit behind the decimal point), so two decimals are the same
//! number exactly when they are the same value.

use vstd::prelude::*;

verus! {

/// The largest scale a decimal can have.
pub const MAX_SCALE: u32 = 28;

/// The largest coefficient a decimal can have: 2^96 - 1.
pub const MAX_MANTISSA: u128 = 0xFFFF_FFFF_FFFF_FFFF_FFFF_FFFF;

/// Ten to the power `n`.
pub open spec fn pow10(n: nat) -> nat
    decreases n,
{
    if n == 0 {
        1
    } else {
        10 * pow10((n - 1) as nat)
    }
}

/// Powers of ten are positive.
pub proof fn lemma_pow10_positive(n: nat)
    ensures
        pow10(n) > 0,
    decreases n,
{
    if n > 0 {
        lemma_pow10_positive((n - 1) as nat);
    }
}

/// `10^(a+b) = 10^a * 10^b`.
pub proof fn lemma_pow10_add(a: nat, b: nat)
    ensures
        pow10(a + b) == pow10(a) * pow10(b),
    decreases a,
{
    if a > 0 {
        let a1 = (a - 1) as nat;
        lemma_pow10_add(a1, b);
        assert((a + b - 1) as nat == a1 + b);
        let x = pow10(a1);
        let y = pow10(b);
        assert(pow10(a) == 10 * x);
        assert(pow10(a + b) == 10 * (x * y));
        assert(10 * (x * y) == (10 * x) * y) by (nonlinear_arith);
    } else {
        assert(a + b == b);
        assert(pow10(a) == 1);
        assert(1 * pow10(b) == pow10(b));
    }
}

/// Powers of ten grow with the exponent.
pub proof fn lemma_pow10_monotonic(a: nat, b: nat)
    requires
        a <= b,
    ensures
        pow10(a) <= pow10(b),
    decreases b,
{
    if a < b {
        lemma_pow10_monotonic(a, (b - 1) as nat);
    }
}

/// The value of `10^28`, the largest power this module computes.
pub proof fn lemma_pow10_max()
    ensures
        pow10(28) == 10_000_000_000_000_000_000_000_000_000,
{
    reveal_with_fuel(pow10, 30);
}

/// Computes `10^e` for an exponent within the scale range.
pub fn pow10_exec(e: u32) -> (r: u128)
    requires
        e <= MAX_SCALE,
    ensures
        r == pow10(e as nat),
        r <= 10_000_000_000_000_000_000_000_000_000,
{
    let mut r: u128 = 1;
    let mut i: u32 = 0;
    while i < e
        invariant
            i <= e <= MAX_SCALE,
            r == pow10(i as nat),
        decreases e - i,
    {
        proof {
            lemma_pow10_monotonic((i + 1) as nat, 28);
            lemma_pow10_max();
        }
        r = r * 10;
        i = i + 1;
    }
    proof {
        lemma_pow10_monotonic(e as nat, 28);
        lemma_pow10_max();
    }
    r
}

/// An exact non-negative decimal number, `coefficient / 10^scale`.
#[derive(Clone, Copy, Debug, PartialEq, Eq, Structural)]
pub struct Decimal {
    mantissa: u128,
    scale: u32,
}

impl Decimal {
    /// The coefficient.
    pub closed spec fn spec_mantissa(self) -> nat {
        self.mantissa as nat
    }

    /// The number of digits behind the decimal point.
    pub closed spec fn spec_scale(self) -> nat {
        self.scale as nat
    }

    /// Coefficient and scale are in range and the value is in lowest terms.
    pub open spec fn wf(self) -> bool {
        &&& self.spec_mantissa() <= MAX_MANTISSA
        &&& self.spec_scale() <= MAX_SCALE
        &&& (self.spec_scale() == 0 || self.spec_mantissa() % 10 != 0)
    }

    /// The value counted in units of `10^-28`: the integer by which decimals
    /// are compared.
    pub open spec fn units(self) -> nat {
        self.spec_mantissa() * pow10((MAX_SCALE - self.spec_scale()) as nat)
    }

    /// What [`Decimal::new`] returns: the one well-formed decimal whose value
    /// is `mantissa / 10^scale`, where the parts are in range.
    pub open spec fn spec_new(mantissa: i128, scale: u32) -> Option<Decimal> {
        if 0 <= mantissa <= MAX_MANTISSA && scale <= MAX_SCALE {
            Some(
                choose|d: Decimal|
                    d.wf() && d.units() == mantissa * pow10((MAX_SCALE - scale) as nat),
            )
        } else {
            None
        }
    }

    /// The decimal `mantissa / 10^scale`, brought to lowest terms.
    ///
    /// `None` exactly when the coefficient is negative or wider than 96 bits,
    /// or the scale is above 28.
    pub fn new(mantissa: i128, scale: u32) -> (r: Option<Decimal>)
        ensures
            r == Decimal::spec_new(mantissa, scale),
            r.is_some() <==> 0 <= mantissa <= MAX_MANTISSA && scale <= MAX_SCALE,
            r matches Some(d) ==> d.wf() && d.units() == mantissa * pow10(
                (MAX_SCALE - scale) as nat,
            ),
            r matches Some(d) ==> (d.units() == 0 <==> mantissa == 0),
    {
        if mantissa < 0 || mantissa > MAX_MANTISSA as i128 || scale > MAX_SCALE {
            return None;
        }
        let mut m: u128 = mantissa as u128;
        let mut s: u32 = scale;
        while s > 0 && m % 10 == 0
            invariant
                s <= scale <= MAX_SCALE,
                m <= MAX_MANTISSA,
                m * pow10((MAX_SCALE - s) as nat) == mantissa * pow10((MAX_SCALE - scale) as nat),
            decreases s,
        {
            proof {
                let p = pow10((MAX_SCALE - s) as nat);
                assert(pow10((MAX_SCALE - (s - 1)) as nat) == 10 * p);
                assert((m / 10) * (10 * p) == m * p) by (nonlinear_arith)
                    requires
                        m % 10 == 0,
                ;
            }
            m = m / 10;
            s = s - 1;
        }
        let d = Decimal { mantissa: m, scale: s };
        proof {
            assert(d.wf() && d.units() == mantissa * pow10((MAX_SCALE - scale) as nat));
            let p = pow10((MAX_SCALE - scale) as nat);
            lemma_pow10_positive((MAX_SCALE - scale) as nat);
            assert((mantissa * p == 0) == (mantissa == 0)) by (nonlinear_arith)
                requires
                    p > 0,
            ;
            let other = Decimal::spec_new(mantissa, scale).unwrap();
            lemma_units_injective(other, d);
        }
        Some(d)
    }

    /// The decimal zero.
    pub fn zero() -> (r: Decimal)
        ensures
            r.wf(),
            r.units() == 0,
    {
        Decimal { mantissa: 0, scale: 0 }
    }

    /// The whole number `n`.
    pub fn from_int(n: u64) -> (r: Decimal)
        ensures
            r.wf(),
            r.units() == n * pow10(MAX_SCALE as nat),
    {
        Decimal { mantissa: n as u128, scale: 0 }
    }

    /// The coefficient of the lowest-terms form.
    pub fn mantissa(&self) -> (r: u128)
        ensures
            r == self.spec_mantissa(),
    {
        self.mantissa
    }

    /// The scale of the lowest-terms form.
    pub fn scale(&self) -> (r: u32)
        ensures
            r == self.spec_scale(),
    {
        self.scale
    }

    /// Whether the value is zero.
    pub fn is_zero(&self) -> (r: bool)
        ensures
            r == (self.units() == 0),
    {
        proof {
            let p = pow10((MAX_SCALE - self.spec_scale()) as nat);
            lemma_pow10_positive((MAX_SCALE - self.spec_scale()) as nat);
            let m = self.spec_mantissa();
            assert((m * p == 0) == (m == 0)) by (nonlinear_arith)
                requires
                    p > 0,
                    m >= 0,
            ;
        }
        self.mantissa == 0
    }

    /// Whether `self` is strictly less than `other`.
    pub fn lt(&self, other: &Decimal) -> (r: bool)
        requires
            self.wf(),
            other.wf(),
        ensures
            r == (self.units() < other.units()),
    {
        if self.scale >= other.scale {
            let p: u128 = pow10_exec(self.scale - other.scale);
            proof {
                lemma_units_split(*other, self.spec_scale());
                lemma_pow10_positive((MAX_SCALE - self.spec_scale()) as nat);
                lemma_scaled_order(
                    self.spec_mantissa() as int,
                    other.spec_mantissa() * p,
                    pow10((MAX_SCALE - self.spec_scale()) as nat) as int,
                );
            }
            match other.mantissa.checked_mul(p) {
                Some(scaled) => self.mantissa < scaled,
                None => true,
            }
        } else {
            let p: u128 = pow10_exec(other.scale - self.scale);
            proof {
                lemma_units_split(*self, other.spec_scale());
                lemma_pow10_positive((MAX_SCALE - other.spec_scale()) as nat);
                lemma_scaled_order(
                    self.spec_mantissa() * p,
                    other.spec_mantissa() as int,
                    pow10((MAX_SCALE - other.spec_scale()) as nat) as int,
                );
            }
            match self.mantissa.checked_mul(p) {
                Some(scaled) => scaled < other.mantissa,
                None => false,
            }
        }
    }

    /// Whether `self` is less than or equal to `other`.
    pub fn le(&self, other: &Decimal) -> (r: bool)
        requires
            self.wf(),
            other.wf(),
        ensures
            r == (self.units() <= other.units()),
    {
        !other.lt(self)
    }
}

/// A decimal's units, written at any scale `s` between its own and 28:
/// `units = (coefficient * 10^(s - scale)) * 10^(28 - s)`.
pub proof fn lemma_units_split(d: Decimal, s: nat)
    requires
        d.wf(),
        d.spec_scale() <= s <= MAX_SCALE,
    ensures
        d.units() == (d.spec_mantissa() * pow10((s - d.spec_scale()) as nat)) * pow10(
            (MAX_SCALE - s) as nat,
        ),
{
    let a = (s - d.spec_scale()) as nat;
    let b = (MAX_SCALE - s) as nat;
    lemma_pow10_add(a, b);
    assert(a + b == (MAX_SCALE - d.spec_scale()) as nat);
    let m = d.spec_mantissa();
    let pa = pow10(a);
    let pb = pow10(b);
    assert(m * (pa * pb) == (m * pa) * pb) by (nonlinear_arith);
}

/// Multiplying both sides by a positive factor keeps their order.
pub proof fn lemma_scaled_order(x: int, y: int, c: int)
    requires
        c > 0,
    ensures
        (x * c < y * c) == (x < y),
        (x * c == y * c) == (x == y),
{
    assert((x * c < y * c) == (x < y)) by (nonlinear_arith)
        requires
            c > 0,
    ;
    assert((x * c == y * c) == (x == y)) by (nonlinear_arith)
        requires
            c > 0,
    ;
}

/// Two well-formed decimals with the same units are the same value: the
/// lowest-terms form is unique.
pub proof fn lemma_units_injective(a: Decimal, b: Decimal)
    requires
        a.wf(),
        b.wf(),
        a.units() == b.units(),
    ensures
        a == b,
{
    if a.spec_scale() >= b.spec_scale() {
        lemma_same_units(a, b);
    } else {
        lemma_same_units(b, a);
    }
}

proof fn lemma_same_units(a: Decimal, b: Decimal)
    requires
        a.wf(),
        b.wf(),
        a.units() == b.units(),
        a.spec_scale() >= b.spec_scale(),
    ensures
        a == b,
{
    let d = (a.spec_scale() - b.spec_scale()) as nat;
    let c = pow10((MAX_SCALE - a.spec_scale()) as nat);
    lemma_pow10_positive((MAX_SCALE - a.spec_scale()) as nat);
    lemma_units_split(b, a.spec_scale());
    lemma_scaled_order(a.spec_mantissa() as int, (b.spec_mantissa() * pow10(d)) as int, c as int);
    assert(a.spec_mantissa() == b.spec_mantissa() * pow10(d));
    if d > 0 {
        let q = pow10((d - 1) as nat);
        let bm = b.spec_mantissa();
        assert(pow10(d) == 10 * q);
        assert(bm * (10 * q) == 10 * (bm * q)) by (nonlinear_arith);
        assert(a.spec_mantissa() % 10 == 0);
        assert(false);
    }
    assert(pow10(0) == 1);
    assert(a.spec_scale() == b.spec_scale());
    assert(b.spec_mantissa() * 1 == b.spec_mantissa());
    assert(a.mantissa == b.mantissa);
    assert(a.scale == b.scale);
}

} // verus!
