use vstd::arithmetic::div_mod::lemma_div_is_ordered;
use vstd::arithmetic::mul::lemma_mul_inequality;
use vstd::arithmetic::power::pow;
use vstd::prelude::*;

use crate::curve::{curve_integral, integral, slope_of, CurveParams};
use crate::error::TokenError;
use crate::ledger::{burn_outcome, mint_outcome, supply_matches, BondedToken, TokenView};
use crate::sum::{balance_in, lemma_balance_le_sum};

verus! {

/// What the buyer pays for `tokens` new tokens: the growth of the integral
/// from the current supply to the supply after the purchase.
pub open spec fn buy_price_outcome(s: TokenView, tokens: u128) -> Result<u128, TokenError> {
    if s.total_supply + tokens > u128::MAX {
        Err(TokenError::Overflow)
    } else {
        match curve_integral(s.params, s.total_supply + tokens) {
            Err(e) => Err(e),
            Ok(after) => match curve_integral(s.params, s.total_supply as int) {
                Err(e) => Err(e),
                Ok(before) => Ok((after - before) as u128),
            },
        }
    }
}

/// What the seller receives for `tokens` tokens: the fall of the integral
/// from the current supply to the supply after the sale.
pub open spec fn sell_price_outcome(s: TokenView, tokens: u128) -> Result<u128, TokenError> {
    if s.total_supply < tokens {
        Err(TokenError::Underflow)
    } else {
        match curve_integral(s.params, s.total_supply as int) {
            Err(e) => Err(e),
            Ok(before) => match curve_integral(s.params, s.total_supply - tokens) {
                Err(e) => Err(e),
                Ok(after) => Ok((before - after) as u128),
            },
        }
    }
}

/// The outcome of `caller` buying `tokens` tokens, where `debited` tells
/// whether the settlement currency took the price from the caller: the
/// price goes to the reserve and the tokens are minted to the caller.
pub open spec fn buy_outcome(s: TokenView, caller: u64, tokens: u128, debited: bool) -> Result<
    (TokenView, u128),
    TokenError,
> {
    match buy_price_outcome(s, tokens) {
        Err(e) => Err(e),
        Ok(cost) => if s.reserve + cost > u128::MAX {
            Err(TokenError::Overflow)
        } else if !debited {
            Err(TokenError::InsufficientFunds)
        } else {
            match mint_outcome(s, caller, tokens) {
                Err(e) => Err(e),
                Ok(n) => Ok((TokenView { reserve: (s.reserve + cost) as u128, ..n }, cost)),
            }
        },
    }
}

/// The outcome of `caller` selling `tokens` tokens: the proceeds leave the
/// reserve and the tokens are burnt; the proceeds are owed to the caller.
pub open spec fn sell_outcome(s: TokenView, caller: u64, tokens: u128) -> Result<
    (TokenView, u128),
    TokenError,
> {
    match sell_price_outcome(s, tokens) {
        Err(e) => Err(e),
        Ok(refund) => if s.reserve < refund {
            Err(TokenError::ReserveUnderflow)
        } else {
            match burn_outcome(s, caller, tokens) {
                Err(e) => Err(e),
                Ok(n) => Ok((TokenView { reserve: (s.reserve - refund) as u128, ..n }, refund)),
            }
        },
    }
}

/// Relates a trade's result and the ledger after it to the outcome its
/// contract prescribes: on success the new ledger and the amount of
/// settlement currency, on failure the error with the ledger untouched.
pub open spec fn trade_follows(
    outcome: Result<(TokenView, u128), TokenError>,
    r: Result<u128, TokenError>,
    before: TokenView,
    after: TokenView,
) -> bool {
    match outcome {
        Ok((next, amount)) => r == Ok::<u128, TokenError>(amount) && after == next,
        Err(e) => r == Err::<u128, TokenError>(e) && after == before,
    }
}

/// The reserve holds exactly the integral of the curve at the supply.
pub open spec fn reserve_backed(s: TokenView) -> bool {
    curve_integral(s.params, s.total_supply as int) == Ok::<u128, TokenError>(s.reserve)
}

proof fn lemma_pow_base_monotone(a: int, b: int, n: nat)
    requires
        0 <= a <= b,
    ensures
        0 <= pow(a, n) <= pow(b, n),
    decreases n,
{
    reveal(pow);
    if n > 0 {
        lemma_pow_base_monotone(a, b, (n - 1) as nat);
        let pa = pow(a, (n - 1) as nat);
        let pb = pow(b, (n - 1) as nat);
        assert(0 <= a * pa <= b * pb) by (nonlinear_arith)
            requires 0 <= a <= b, 0 <= pa <= pb;
    }
}

/// The integral never falls as the supply grows: where it can be evaluated
/// at a supply, it can at every smaller one, and is no larger there.
pub proof fn lemma_integral_monotone(p: CurveParams, a: int, b: int)
    requires
        0 <= a <= b,
        curve_integral(p, b) is Ok,
    ensures
        curve_integral(p, a) is Ok,
        curve_integral(p, a)->Ok_0 <= curve_integral(p, b)->Ok_0,
{
    let n = (p.exponent + 1) as nat;
    lemma_pow_base_monotone(a, b, n);
    let slope = slope_of(p);
    assert(slope >= 0) by (nonlinear_arith)
        requires slope == p.slope_n as int / p.slope_d as int, p.slope_d > 0, p.slope_n >= 0;
    lemma_mul_inequality(pow(a, n), pow(b, n), slope);
    assert(slope * pow(a, n) <= slope * pow(b, n)) by (nonlinear_arith)
        requires pow(a, n) * slope <= pow(b, n) * slope;
    assert(0 <= slope * pow(a, n)) by (nonlinear_arith)
        requires slope >= 0, pow(a, n) >= 0;
    lemma_div_is_ordered(slope * pow(a, n), slope * pow(b, n), n as int);
    vstd::arithmetic::div_mod::lemma_div_pos_is_pos(slope * pow(a, n), n as int);
}

/// Buying and selling keep the reserve equal to the integral at the supply:
/// from a backed ledger, a completed buy or sell leaves a backed ledger.
/// Minting or burning outside the market does not, and breaks the equality.
pub proof fn lemma_trades_keep_reserve_backed(s: TokenView, caller: u64, tokens: u128)
    requires
        reserve_backed(s),
    ensures
        buy_outcome(s, caller, tokens, true) is Ok ==> reserve_backed(
            buy_outcome(s, caller, tokens, true)->Ok_0.0,
        ),
        sell_outcome(s, caller, tokens) is Ok ==> reserve_backed(
            sell_outcome(s, caller, tokens)->Ok_0.0,
        ),
{
    let supply = s.total_supply as int;
    if supply + tokens <= u128::MAX && curve_integral(s.params, supply + tokens) is Ok {
        lemma_integral_monotone(s.params, supply, supply + tokens);
    }
    if supply >= tokens {
        lemma_integral_monotone(s.params, supply - tokens, supply);
    }
}

/// Once the curve is set with a usable exponent and slope denominator, an
/// empty ledger is backed: the integral at zero supply is zero.
pub proof fn lemma_empty_ledger_backed(s: TokenView)
    requires
        s.total_supply == 0,
        s.reserve == 0,
        s.params.exponent < u128::MAX,
        s.params.slope_d > 0,
    ensures
        reserve_backed(s),
{
    vstd::arithmetic::power::lemma0_pow((s.params.exponent + 1) as nat);
}

/// Buying tokens and then selling the same tokens by the same caller pays
/// back exactly the price paid and restores supply, reserve, allowances and
/// every balance; the caller keeps a balance entry, of its former amount.
pub proof fn lemma_buy_then_sell(s: TokenView, caller: u64, tokens: u128)
    requires
        supply_matches(s),
    ensures
        match buy_outcome(s, caller, tokens, true) {
            Ok((bought, cost)) => match sell_outcome(bought, caller, tokens) {
                Ok((sold, refund)) => {
                    &&& refund == cost
                    &&& sold.total_supply == s.total_supply
                    &&& sold.reserve == s.reserve
                    &&& sold.balances == s.balances.insert(
                        caller,
                        balance_in(s.balances, caller) as u128,
                    )
                    &&& sold.allowances == s.allowances
                    &&& sold.params == s.params
                    &&& sold.initialized == s.initialized
                },
                Err(_) => false,
            },
            Err(_) => true,
        },
{
    let supply = s.total_supply as int;
    if let Ok((bought, cost)) = buy_outcome(s, caller, tokens, true) {
        lemma_balance_le_sum(s.balances, caller);
        lemma_integral_monotone(s.params, supply, supply + tokens);
        assert(bought.total_supply == supply + tokens);
        assert(bought.total_supply - tokens == supply);
        let held = balance_in(s.balances, caller);
        assert(balance_in(bought.balances, caller) == held + tokens);
        assert(bought.balances.insert(caller, held as u128) =~= s.balances.insert(
            caller,
            held as u128,
        ));
    }
}

impl BondedToken {
    /// The price of buying `tokens` tokens at the current supply.
    pub fn calc_buy_price(&self, tokens: u128) -> (r: Result<u128, TokenError>)
        ensures
            r == buy_price_outcome(self@, tokens),
    {
        let supply = self.total_supply();
        let params = self.params();
        let new_supply = match supply.checked_add(tokens) {
            Some(x) => x,
            None => return Err(TokenError::Overflow),
        };
        let after = match integral(&params, new_supply) {
            Ok(x) => x,
            Err(e) => return Err(e),
        };
        let before = match integral(&params, supply) {
            Ok(x) => x,
            Err(e) => return Err(e),
        };
        proof {
            lemma_integral_monotone(params, supply as int, new_supply as int);
        }
        Ok(after - before)
    }

    /// What selling `tokens` tokens pays at the current supply.
    pub fn calc_sell_price(&self, tokens: u128) -> (r: Result<u128, TokenError>)
        ensures
            r == sell_price_outcome(self@, tokens),
    {
        let supply = self.total_supply();
        let params = self.params();
        let new_supply = match supply.checked_sub(tokens) {
            Some(x) => x,
            None => return Err(TokenError::Underflow),
        };
        let before = match integral(&params, supply) {
            Ok(x) => x,
            Err(e) => return Err(e),
        };
        let after = match integral(&params, new_supply) {
            Ok(x) => x,
            Err(e) => return Err(e),
        };
        proof {
            lemma_integral_monotone(params, new_supply as int, supply as int);
        }
        Ok(before - after)
    }

    /// `caller` buys `tokens` new tokens. The host first takes
    /// `calc_buy_price(tokens)` of settlement currency from the caller and
    /// passes whether that succeeded as `debited`. On success the price is
    /// added to the reserve, the tokens are minted to the caller, and the
    /// price is returned. Where the call fails after a debit, the host pays
    /// the price back.
    pub fn buy(&mut self, caller: u64, tokens: u128, debited: bool) -> (r: Result<u128, TokenError>)
        requires
            old(self).wf(),
        ensures
            final(self).wf(),
            trade_follows(buy_outcome(old(self)@, caller, tokens, debited), r, old(self)@, final(self)@),
    {
        let cost = match self.calc_buy_price(tokens) {
            Ok(x) => x,
            Err(e) => return Err(e),
        };
        let new_reserve = match self.reserve().checked_add(cost) {
            Some(x) => x,
            None => return Err(TokenError::Overflow),
        };
        if !debited {
            return Err(TokenError::InsufficientFunds);
        }
        match self.mint(caller, tokens) {
            Ok(()) => {},
            Err(e) => return Err(e),
        }
        self.set_reserve(new_reserve);
        Ok(cost)
    }

    /// `caller` sells `tokens` of its tokens. On success the proceeds leave
    /// the reserve, the tokens are burnt, and the proceeds are returned for
    /// the host to credit to the caller in settlement currency.
    pub fn sell(&mut self, caller: u64, tokens: u128) -> (r: Result<u128, TokenError>)
        requires
            old(self).wf(),
        ensures
            final(self).wf(),
            trade_follows(sell_outcome(old(self)@, caller, tokens), r, old(self)@, final(self)@),
    {
        let refund = match self.calc_sell_price(tokens) {
            Ok(x) => x,
            Err(e) => return Err(e),
        };
        let new_reserve = match self.reserve().checked_sub(refund) {
            Some(x) => x,
            None => return Err(TokenError::ReserveUnderflow),
        };
        match self.burn(caller, tokens) {
            Ok(()) => {},
            Err(e) => return Err(e),
        }
        self.set_reserve(new_reserve);
        Ok(refund)
    }
}

} // verus!
