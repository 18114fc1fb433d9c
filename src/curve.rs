use vstd::arithmetic::power::pow;
use vstd::prelude::*;

use crate::error::TokenError;

verus! {

/// The parameters of the price curve `price(s) = (slope_n / slope_d) * s^exponent`.
#[derive(Clone, Copy, Debug, PartialEq, Eq, Structural)]
pub struct CurveParams {
    pub exponent: u128,
    pub slope_n: u128,
    pub slope_d: u128,
}

/// The slope in use: the numerator divided by the denominator, truncated.
pub open spec fn slope_of(p: CurveParams) -> int
    recommends
        p.slope_d > 0,
{
    p.slope_n as int / p.slope_d as int
}

/// The area under the curve from zero to `supply`, as the closed form
/// `slope * supply^(exponent + 1) / (exponent + 1)`, truncated toward zero.
/// Each step that leaves the 128-bit range is an `Overflow`; a zero slope
/// denominator is a `DivideByZero`.
pub open spec fn curve_integral(p: CurveParams, supply: int) -> Result<u128, TokenError> {
    if p.exponent == u128::MAX {
        Err(TokenError::Overflow)
    } else if p.slope_d == 0 {
        Err(TokenError::DivideByZero)
    } else if pow(supply, (p.exponent + 1) as nat) > u128::MAX {
        Err(TokenError::Overflow)
    } else if slope_of(p) * pow(supply, (p.exponent + 1) as nat) > u128::MAX {
        Err(TokenError::Overflow)
    } else {
        Ok((slope_of(p) * pow(supply, (p.exponent + 1) as nat) / (p.exponent + 1)) as u128)
    }
}

/// `base` to the power `exp`, or `None` where that leaves the 128-bit range.
pub fn checked_pow(base: u128, exp: u128) -> (r: Option<u128>)
    ensures
        match r {
            Some(v) => v == pow(base as int, exp as nat),
            None => pow(base as int, exp as nat) > u128::MAX,
        },
{
    proof {
        reveal(pow);
    }
    if exp == 0 {
        return Some(1);
    }
    if base <= 1 {
        proof {
            vstd::arithmetic::power::lemma0_pow(exp as nat);
            vstd::arithmetic::power::lemma1_pow(exp as nat);
        }
        return Some(base);
    }
    let mut acc: u128 = 1;
    let mut i: u128 = 0;
    while i < exp
        invariant
            i <= exp,
            base >= 2,
            acc == pow(base as int, i as nat),
        decreases exp - i,
    {
        match acc.checked_mul(base) {
            Some(next) => {
                proof {
                    reveal(pow);
                    assert(pow(base as int, (i + 1) as nat) == base * pow(base as int, i as nat));
                }
                acc = next;
                i = i + 1;
            },
            None => {
                proof {
                    reveal(pow);
                    assert(pow(base as int, (i + 1) as nat) == base * pow(base as int, i as nat));
                    vstd::arithmetic::power::lemma_pow_increases(base as nat, (i + 1) as nat, exp as nat);
                }
                return None;
            },
        }
    }
    Some(acc)
}

/// Evaluates the curve's integral at `supply`; see `curve_integral`.
pub fn integral(params: &CurveParams, supply: u128) -> (r: Result<u128, TokenError>)
    ensures
        r == curve_integral(*params, supply as int),
{
    let nexp = match params.exponent.checked_add(1) {
        Some(x) => x,
        None => return Err(TokenError::Overflow),
    };
    let slope = match params.slope_n.checked_div(params.slope_d) {
        Some(x) => x,
        None => return Err(TokenError::DivideByZero),
    };
    let power = match checked_pow(supply, nexp) {
        Some(x) => x,
        None => return Err(TokenError::Overflow),
    };
    proof {
        assert(slope * power == power * slope) by (nonlinear_arith);
    }
    let area = match power.checked_mul(slope) {
        Some(x) => x,
        None => return Err(TokenError::Overflow),
    };
    Ok(area / nexp)
}

} // verus!
