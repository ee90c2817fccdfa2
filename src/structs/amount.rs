//! Exact non-negative decimal quantities, held as integer units of a fixed fraction.

use vstd::prelude::*;

verus! {

/// Number of decimal places an `Amount` carries: one unit is 10^-DECIMALS.
pub const DECIMALS: u32 = 18;

/// Ten to the power `n`.
pub open spec fn pow10(n: nat) -> nat
    decreases n,
{
    if n == 0 {
        1
    } else {
        10 * pow10((n - 1) as nat)
    }
}

/// Powers of ten grow with the exponent.
pub proof fn lemma_pow10_monotone(a: nat, b: nat)
    requires
        a <= b,
    ensures
        1 <= pow10(a) <= pow10(b),
    decreases b,
{
    if b > a {
        lemma_pow10_monotone(a, (b - 1) as nat);
    } else if a > 0 {
        lemma_pow10_monotone((a - 1) as nat, (a - 1) as nat);
    }
}

/// The number of units that the decimal `mantissa * 10^-scale` amounts to, if it is
/// non-negative, is a whole number of units and fits in the unit counter.
pub open spec fn decimal_units(mantissa: int, scale: nat) -> Option<int> {
    if mantissa < 0 {
        None
    } else if scale <= DECIMALS {
        let u = mantissa * pow10((DECIMALS - scale) as nat);
        if u <= u128::MAX {
            Some(u)
        } else {
            None
        }
    } else {
        let d = pow10((scale - DECIMALS) as nat);
        if mantissa % (d as int) == 0 {
            Some(mantissa / (d as int))
        } else {
            None
        }
    }
}

/// The mantissa and scale of the decimal that a text denotes, as rust_decimal reads it.
pub uninterp spec fn parsed_decimal(s: Seq<char>) -> Option<(i128, u32)>;

/// Relies on rust_decimal's `Decimal::from_str`, read back through `Decimal::mantissa`
/// and `Decimal::scale`: the outcome depends on the text alone, and a decimal's scale
/// lies between 0 and 28.
#[verifier::external_body]
fn parse_decimal(s: &str) -> (r: Option<(i128, u32)>)
    ensures
        r == parsed_decimal(s@),
        r matches Some((m, e)) ==> e <= 28,
{
    match <rust_decimal::Decimal as std::str::FromStr>::from_str(s) {
        Ok(d) => Some((d.mantissa(), d.scale())),
        Err(_) => None,
    }
}

/// Ten to the power `n`, for `n` up to `DECIMALS`.
fn pow10_u128(n: u32) -> (r: u128)
    requires
        n <= DECIMALS,
    ensures
        r == pow10(n as nat),
{
    proof {
        reveal_with_fuel(pow10, 19);
        lemma_pow10_monotone(n as nat, DECIMALS as nat);
    }
    let mut r: u128 = 1;
    let mut i: u32 = 0;
    while i < n
        invariant
            i <= n <= DECIMALS,
            r == pow10(i as nat),
            pow10(n as nat) <= 1_000_000_000_000_000_000,
        decreases n - i,
    {
        proof {
            lemma_pow10_monotone((i + 1) as nat, n as nat);
        }
        r = r * 10;
        i = i + 1;
    }
    r
}

/// A non-negative decimal quantity or price, exact to `DECIMALS` places.
#[derive(Clone, Copy, Debug, PartialEq, Eq, Structural, Hash)]
pub struct Amount {
    /// The quantity in units of 10^-DECIMALS.
    pub units: u128,
}

impl Amount {
    pub fn zero() -> (r: Amount)
        ensures
            r.units == 0,
    {
        Amount { units: 0 }
    }

    pub fn from_units(units: u128) -> (r: Amount)
        ensures
            r.units == units,
    {
        Amount { units }
    }

    /// The decimal `num * 10^-scale`.
    pub fn new(num: u64, scale: u32) -> (r: Amount)
        requires
            scale <= DECIMALS,
        ensures
            r.units == num * pow10((DECIMALS - scale) as nat),
    {
        let p = pow10_u128(DECIMALS - scale);
        proof {
            lemma_pow10_monotone((DECIMALS - scale) as nat, DECIMALS as nat);
            reveal_with_fuel(pow10, 19);
            assert(num * p <= 0xffff_ffff_ffff_ffffu64 * 1_000_000_000_000_000_000u128) by (nonlinear_arith)
                requires
                    num <= 0xffff_ffff_ffff_ffffu64,
                    p <= 1_000_000_000_000_000_000u128,
            ;
        }
        Amount { units: num as u128 * p }
    }

    /// The decimal `mantissa * 10^-scale`, if it is a non-negative whole number of units
    /// that fits.
    pub fn from_decimal_parts(mantissa: i128, scale: u32) -> (r: Option<Amount>)
        requires
            scale <= 28,
        ensures
            r matches Some(a) ==> decimal_units(mantissa as int, scale as nat) == Some(a.units as int),
            r is None ==> decimal_units(mantissa as int, scale as nat) is None,
    {
        if mantissa < 0 {
            return None;
        }
        let m = mantissa as u128;
        if scale <= DECIMALS {
            let p = pow10_u128(DECIMALS - scale);
            match m.checked_mul(p) {
                Some(u) => Some(Amount { units: u }),
                None => None,
            }
        } else {
            let d = pow10_u128(scale - DECIMALS);
            proof {
                lemma_pow10_monotone(0, (scale - DECIMALS) as nat);
            }
            if m % d == 0 {
                Some(Amount { units: m / d })
            } else {
                None
            }
        }
    }

    /// Reads a decimal text such as `"2.5"`; `None` if it is not a decimal, or not one
    /// that an `Amount` holds exactly.
    pub fn parse(s: &str) -> (r: Option<Amount>)
        ensures
            parsed_decimal(s@) is None ==> r is None,
            parsed_decimal(s@) matches Some((m, e)) ==> (match r {
                Some(a) => decimal_units(m as int, e as nat) == Some(a.units as int),
                None => decimal_units(m as int, e as nat) is None,
            }),
    {
        match parse_decimal(s) {
            Some((m, e)) => Self::from_decimal_parts(m, e),
            None => None,
        }
    }
}

} // verus!
