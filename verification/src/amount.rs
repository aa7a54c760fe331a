//! Exact decimal money values.
//!
//! An [`Amount`] is a signed decimal number with twenty fractional digits,
//! stored as an `i128` count of `10^-20` units. The view of an `Amount` is
//! that integer count, so a contract that says `r@ == a@ + b@` speaks about
//! exact decimal arithmetic. Values used by the ledger are kept within
//! [`MAX_UNITS`]; operations that could leave that range report it instead
//! of returning a wrong value.

use vstd::arithmetic::div_mod::{
    lemma_fundamental_div_mod, lemma_fundamental_div_mod_converse, lemma_mod_bound,
};
use vstd::prelude::*;

verus! {

/// Number of `10^-20` units in 1: the fixed scale of every `Amount`.
pub const UNIT: i128 = 100_000_000_000_000_000_000;

/// Largest unit count the ledger works with; equals `10^17` whole units.
pub const MAX_UNITS: i128 = 10_000_000_000_000_000_000_000_000_000_000_000_000;

/// Largest divisor accepted by the rounding division helpers.
pub const MAX_DIVISOR: i128 = 1_000_000_000_000_000_000_000_000_000_000;

/// A decimal number `units / 10^20`, exact within its range.
#[derive(Clone, Copy, Debug, PartialEq, Eq, Structural)]
pub struct Amount {
    units: i128,
}

impl View for Amount {
    type V = int;

    closed spec fn view(&self) -> int {
        self.units as int
    }
}

/// Integer division truncated toward zero, for a positive divisor.
pub open spec fn trunc_div(n: int, d: int) -> int
    recommends
        d > 0,
{
    if n >= 0 {
        n / d
    } else {
        -((-n) / d)
    }
}

/// `n / d` rounded to the nearest integer, ties to the even neighbour,
/// for a positive divisor.
pub open spec fn round_half_even(n: int, d: int) -> int
    recommends
        d > 0,
{
    let q = n / d;
    let r = n % d;
    if 2 * r < d {
        q
    } else if 2 * r > d {
        q + 1
    } else if q % 2 == 0 {
        q
    } else {
        q + 1
    }
}

/// Relies on `num_bigint::BigInt`: `*`, `/` and `%` compute the exact
/// product, the quotient truncated toward zero and the remainder with the
/// dividend's sign, and `i128::try_from(&BigInt)` succeeds exactly when the
/// value is in range. The remainder always fits, so `None` means the
/// truncated quotient of `a * b` by `d` is outside `i128`.
#[verifier::external_body]
fn wide_mul_div_rem(a: i128, b: i128, d: i128) -> (r: Option<(i128, i128)>)
    requires
        d > 0,
    ensures
        r matches Some(p) ==> a * b == p.0 * d + p.1 && -d < p.1 < d,
        r is None ==> !(i128::MIN <= trunc_div(a * b as int, d as int) <= i128::MAX),
{
    let p = num_bigint::BigInt::from(a) * num_bigint::BigInt::from(b);
    let dv = num_bigint::BigInt::from(d);
    let q = &p / &dv;
    let rem = &p % &dv;
    match (i128::try_from(&q), i128::try_from(&rem)) {
        (Ok(q), Ok(rem)) => Some((q, rem)),
        _ => None,
    }
}

/// Rounding a quotient of non-negative numbers stays non-negative.
pub proof fn lemma_round_half_even_nonneg(n: int, d: int)
    requires
        n >= 0,
        d > 0,
    ensures
        round_half_even(n, d) >= 0,
{
    lemma_fundamental_div_mod(n, d);
    lemma_mod_bound(n, d);
    let q = n / d;
    if q <= -1 {
        assert(d * q <= d * -1) by (nonlinear_arith)
            requires
                q <= -1,
                d > 0,
        ;
    }
}

/// The truncated quotient is within one of the floored quotient.
proof fn lemma_trunc_vs_floor(n: int, d: int)
    requires
        d > 0,
    ensures
        n / d <= trunc_div(n, d) <= n / d + 1,
{
    if n >= 0 {
    } else {
        let k = (-n) / d;
        let s = (-n) % d;
        lemma_fundamental_div_mod(-n, d);
        lemma_mod_bound(-n, d);
        if s == 0 {
            assert(n == (-k) * d + 0) by (nonlinear_arith)
                requires
                    -n == k * d + s,
                    s == 0,
            ;
            lemma_fundamental_div_mod_converse(n, d, -k, 0);
        } else {
            assert(n == (-k - 1) * d + (d - s)) by (nonlinear_arith)
                requires
                    -n == k * d + s,
            ;
            lemma_fundamental_div_mod_converse(n, d, -k - 1, d - s);
        }
    }
}

/// `round_half_even(a * b, d)`, or `None` when the rounded value would lie
/// outside `[-MAX_UNITS, MAX_UNITS]`.
pub fn mul_div_round(a: i128, b: i128, d: i128) -> (r: Option<i128>)
    requires
        0 < d <= MAX_DIVISOR,
    ensures
        r is Some <==> -MAX_UNITS <= round_half_even(a * b as int, d as int) <= MAX_UNITS,
        r matches Some(v) ==> v == round_half_even(a * b as int, d as int),
{
    let ghost n: int = a * b;
    match wide_mul_div_rem(a, b, d) {
        None => {
            proof {
                lemma_trunc_vs_floor(n, d as int);
                lemma_mod_bound(n, d as int);
            }
            None
        },
        Some((q, r)) => {
            proof {
                if r < 0 {
                    assert(n == (q - 1) * d + (r + d)) by (nonlinear_arith)
                        requires
                            n == q * d + r,
                    ;
                    lemma_fundamental_div_mod_converse(n, d as int, q - 1, r + d);
                } else {
                    lemma_fundamental_div_mod_converse(n, d as int, q as int, r as int);
                }
            }
            // Out-of-range results are rejected before any adjustment, so the
            // remaining arithmetic stays far from the i128 limits.
            if q > MAX_UNITS + 1 || q < -MAX_UNITS - 2 {
                return None;
            }
            let fq: i128 = if r < 0 { q - 1 } else { q };
            let fr: i128 = if r < 0 { r + d } else { r };
            let rounded: i128 = if 2 * fr < d {
                fq
            } else if 2 * fr > d {
                fq + 1
            } else if fq % 2 == 0 {
                fq
            } else {
                fq + 1
            };
            if -MAX_UNITS <= rounded && rounded <= MAX_UNITS {
                Some(rounded)
            } else {
                None
            }
        },
    }
}

impl Amount {
    /// Whether the value lies within the range the ledger keeps balances in.
    pub open spec fn in_range(self) -> bool {
        -MAX_UNITS <= self@ <= MAX_UNITS
    }

    /// The zero amount.
    pub fn zero() -> (r: Amount)
        ensures
            r@ == 0,
    {
        Amount { units: 0 }
    }

    /// The amount of `units / 10^20`.
    pub fn from_units(units: i128) -> (r: Amount)
        ensures
            r@ == units as int,
    {
        Amount { units }
    }

    /// The raw unit count.
    pub fn units(&self) -> (r: i128)
        ensures
            r as int == self@,
    {
        self.units
    }

    /// Exact sum, or `None` when it leaves the working range.
    pub fn checked_add(self, other: Amount) -> (r: Option<Amount>)
        requires
            self.in_range(),
            other.in_range(),
        ensures
            r is Some <==> -MAX_UNITS <= self@ + other@ <= MAX_UNITS,
            r matches Some(v) ==> v@ == self@ + other@,
    {
        let s = self.units + other.units;
        if -MAX_UNITS <= s && s <= MAX_UNITS {
            Some(Amount { units: s })
        } else {
            None
        }
    }

    /// Exact difference, or `None` when it leaves the working range.
    pub fn checked_sub(self, other: Amount) -> (r: Option<Amount>)
        requires
            self.in_range(),
            other.in_range(),
        ensures
            r is Some <==> -MAX_UNITS <= self@ - other@ <= MAX_UNITS,
            r matches Some(v) ==> v@ == self@ - other@,
    {
        let s = self.units - other.units;
        if -MAX_UNITS <= s && s <= MAX_UNITS {
            Some(Amount { units: s })
        } else {
            None
        }
    }

    /// Difference of two values at most `MAX_UNITS` apart from zero each;
    /// the result may leave the working range but is always exact.
    pub fn sub_wide(self, other: Amount) -> (r: Amount)
        requires
            self.in_range(),
            -MAX_UNITS <= other@ <= MAX_UNITS,
        ensures
            r@ == self@ - other@,
    {
        Amount { units: self.units - other.units }
    }

    /// Exact comparison.
    pub fn lt(&self, other: &Amount) -> (r: bool)
        ensures
            r == (self@ < other@),
    {
        self.units < other.units
    }

    /// Whether the value is strictly negative.
    pub fn is_negative(&self) -> (r: bool)
        ensures
            r == (self@ < 0),
    {
        self.units < 0
    }

    /// Whether the value is zero.
    pub fn is_zero(&self) -> (r: bool)
        ensures
            r == (self@ == 0),
    {
        self.units == 0
    }
}

} // verus!
