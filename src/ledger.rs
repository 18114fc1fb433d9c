use std::collections::HashMap;

use vstd::prelude::*;

use crate::curve::CurveParams;
use crate::error::TokenError;
use crate::sum::{
    balance_in, lemma_balance_le_sum, lemma_sum_empty, lemma_sum_insert, lemma_sum_remove, sum_of,
};

verus! {

broadcast use vstd::std_specs::hash::group_hash_axioms;

/// What the ledger reports to its host, in the order the changes were made.
#[derive(Clone, Copy, Debug, PartialEq, Eq, Structural)]
pub enum Event {
    /// Tokens moved from the first account to the second; `None` as the
    /// source is a mint, `None` as the destination a burn.
    Transfer(Option<u64>, Option<u64>, u128),
    /// The allowance of the owner (first) for the spender (second) is now
    /// the amount given.
    Approval(u64, u64, u128),
}

/// The ledger as a mathematical value.
pub struct TokenView {
    pub initialized: bool,
    pub params: CurveParams,
    pub admin: u64,
    pub total_supply: u128,
    pub balances: Map<u64, u128>,
    pub allowances: Map<(u64, u64), u128>,
    pub reserve: u128,
    pub events: Seq<Event>,
}

/// The ledger's invariant: the balances sum to the total supply.
pub open spec fn supply_matches(s: TokenView) -> bool {
    &&& s.balances.dom().finite()
    &&& sum_of(s.balances) == s.total_supply
}

/// The allowance that `owner` granted `spender`, an absent entry counting as zero.
pub open spec fn allowance_in(m: Map<(u64, u64), u128>, owner: u64, spender: u64) -> int {
    if m.contains_key((owner, spender)) {
        m[(owner, spender)] as int
    } else {
        0
    }
}

/// Relates a call's result and the ledger after it to the outcome its
/// contract prescribes: on success the new ledger, on failure the error with
/// the ledger left untouched.
pub open spec fn follows<T>(
    outcome: Result<TokenView, TokenError>,
    r: Result<T, TokenError>,
    before: TokenView,
    after: TokenView,
) -> bool {
    match outcome {
        Ok(next) => r is Ok && after == next,
        Err(e) => r == Err::<T, TokenError>(e) && after == before,
    }
}

/// The balances after `value` tokens move from `from` to `to`.
pub open spec fn moved(m: Map<u64, u128>, from: u64, to: u64, value: u128) -> Map<u64, u128> {
    if from == to {
        m
    } else {
        m.insert(from, (m[from] - value) as u128).insert(to, (balance_in(m, to) + value) as u128)
    }
}

/// The outcome of moving `value` tokens from `from` to `to`.
pub open spec fn transfer_outcome(s: TokenView, from: u64, to: u64, value: u128) -> Result<
    TokenView,
    TokenError,
> {
    if !s.balances.contains_key(from) {
        Err(TokenError::NoSuchAccount)
    } else if s.balances[from] < value {
        Err(TokenError::InsufficientBalance)
    } else if from != to && balance_in(s.balances, to) + value > u128::MAX {
        Err(TokenError::Overflow)
    } else {
        Ok(
            TokenView {
                balances: moved(s.balances, from, to, value),
                events: s.events.push(Event::Transfer(Some(from), Some(to), value)),
                ..s
            },
        )
    }
}

/// The outcome of adding `amount` new tokens to `to`.
pub open spec fn mint_outcome(s: TokenView, to: u64, amount: u128) -> Result<TokenView, TokenError> {
    if s.total_supply + amount > u128::MAX {
        Err(TokenError::Overflow)
    } else {
        Ok(
            TokenView {
                total_supply: (s.total_supply + amount) as u128,
                balances: s.balances.insert(to, (balance_in(s.balances, to) + amount) as u128),
                events: s.events.push(Event::Transfer(None, Some(to), amount)),
                ..s
            },
        )
    }
}

/// The outcome of destroying `amount` tokens held by `from`.
pub open spec fn burn_outcome(s: TokenView, from: u64, amount: u128) -> Result<TokenView, TokenError> {
    if balance_in(s.balances, from) < amount {
        Err(TokenError::InsufficientBalance)
    } else {
        Ok(
            TokenView {
                total_supply: (s.total_supply - amount) as u128,
                balances: s.balances.insert(from, (balance_in(s.balances, from) - amount) as u128),
                events: s.events.push(Event::Transfer(Some(from), None, amount)),
                ..s
            },
        )
    }
}

/// The outcome of `owner` raising the allowance of `spender` by `value`.
pub open spec fn approve_outcome(s: TokenView, owner: u64, spender: u64, value: u128) -> Result<
    TokenView,
    TokenError,
> {
    let raised = allowance_in(s.allowances, owner, spender) + value;
    if !s.balances.contains_key(owner) {
        Err(TokenError::NoSuchAccount)
    } else if raised > u128::MAX {
        Err(TokenError::Overflow)
    } else {
        Ok(
            TokenView {
                allowances: s.allowances.insert((owner, spender), raised as u128),
                events: s.events.push(Event::Approval(owner, spender, raised as u128)),
                ..s
            },
        )
    }
}

/// The outcome of `caller` drawing `value` tokens of `from` to `to` against
/// the allowance of `from` for `to`: only that spender may draw on it, the
/// allowance shrinks by `value`, and the tokens move as in a transfer.
pub open spec fn transfer_from_outcome(
    s: TokenView,
    caller: u64,
    from: u64,
    to: u64,
    value: u128,
) -> Result<TokenView, TokenError> {
    let left = allowance_in(s.allowances, from, to) - value;
    if caller != to {
        Err(TokenError::Unauthorized)
    } else if !s.allowances.contains_key((from, to)) || left < 0 {
        Err(TokenError::InsufficientAllowance)
    } else {
        transfer_outcome(
            TokenView {
                allowances: s.allowances.insert((from, to), left as u128),
                events: s.events.push(Event::Approval(from, to, left as u128)),
                ..s
            },
            from,
            to,
            value,
        )
    }
}

/// The outcome of setting the curve parameters, which can happen once.
pub open spec fn init_outcome(s: TokenView, exponent: u128, slope_n: u128, slope_d: u128) -> Result<
    TokenView,
    TokenError,
> {
    if s.initialized {
        Err(TokenError::AlreadyInitialized)
    } else {
        Ok(
            TokenView {
                initialized: true,
                params: CurveParams { exponent, slope_n, slope_d },
                ..s
            },
        )
    }
}

/// The outcome of the administrator emptying the ledger: no balances, no
/// allowances, no supply and an empty reserve; the curve stays as it is.
pub open spec fn clear_outcome(s: TokenView, caller: u64) -> Result<TokenView, TokenError> {
    if caller != s.admin {
        Err(TokenError::Unauthorized)
    } else {
        Ok(
            TokenView {
                total_supply: 0,
                balances: Map::empty(),
                allowances: Map::empty(),
                reserve: 0,
                ..s
            },
        )
    }
}

/// Spending a whole balance succeeds and leaves an entry of zero: moving
/// all of an account's tokens to another account, or burning all of them.
pub proof fn lemma_spend_whole_balance(s: TokenView, from: u64, to: u64)
    requires
        supply_matches(s),
        s.balances.contains_key(from),
        from != to,
    ensures
        transfer_outcome(s, from, to, s.balances[from]) is Ok,
        transfer_outcome(s, from, to, s.balances[from])->Ok_0.balances.contains_key(from),
        transfer_outcome(s, from, to, s.balances[from])->Ok_0.balances[from] == 0,
        burn_outcome(s, from, s.balances[from]) is Ok,
        burn_outcome(s, from, s.balances[from])->Ok_0.balances.contains_key(from),
        burn_outcome(s, from, s.balances[from])->Ok_0.balances[from] == 0,
{
    lemma_sum_remove(s.balances, from);
    lemma_balance_le_sum(s.balances.remove(from), to);
    assert(balance_in(s.balances.remove(from), to) == balance_in(s.balances, to));
}

/// Approvals add up: two successful approvals for the same owner and
/// spender raise the allowance by the sum of both amounts.
pub proof fn lemma_approvals_add(s: TokenView, owner: u64, spender: u64, first: u128, second: u128)
    requires
        approve_outcome(s, owner, spender, first) is Ok,
        approve_outcome(approve_outcome(s, owner, spender, first)->Ok_0, owner, spender, second) is Ok,
    ensures
        allowance_in(
            approve_outcome(
                approve_outcome(s, owner, spender, first)->Ok_0,
                owner,
                spender,
                second,
            )->Ok_0.allowances,
            owner,
            spender,
        ) == allowance_in(s.allowances, owner, spender) + first + second,
{
}

/// The key under which the allowance of `owner` for `spender` is stored.
pub open spec fn allowance_key(owner: u64, spender: u64) -> int {
    owner * 0x1_0000_0000_0000_0000 + spender
}

proof fn lemma_allowance_key_injective(o1: u64, s1: u64, o2: u64, s2: u64)
    ensures
        allowance_key(o1, s1) == allowance_key(o2, s2) ==> o1 == o2 && s1 == s2,
        0 <= allowance_key(o1, s1) <= u128::MAX,
{
    assert(0 <= allowance_key(o1, s1) <= u128::MAX) by (nonlinear_arith);
    if o1 < o2 {
        assert(allowance_key(o1, s1) < allowance_key(o2, s2)) by (nonlinear_arith)
            requires o1 < o2, s1 < 0x1_0000_0000_0000_0000int, s2 >= 0;
    } else if o2 < o1 {
        assert(allowance_key(o2, s2) < allowance_key(o1, s1)) by (nonlinear_arith)
            requires o2 < o1, s2 < 0x1_0000_0000_0000_0000int, s1 >= 0;
    }
}

fn key_of(owner: u64, spender: u64) -> (k: u128)
    ensures
        k == allowance_key(owner, spender),
{
    proof {
        lemma_allowance_key_injective(owner, spender, owner, spender);
    }
    (owner as u128) * 0x1_0000_0000_0000_0000u128 + (spender as u128)
}

/// A fungible token ledger with balances, allowances, a total supply, the
/// curve parameters that price it and the reserve that backs sales.
pub struct BondedToken {
    initialized: bool,
    params: CurveParams,
    admin: u64,
    total_supply: u128,
    balances: HashMap<u64, u128>,
    allowances: HashMap<u128, u128>,
    reserve: u128,
    events: Vec<Event>,
}

impl View for BondedToken {
    type V = TokenView;

    closed spec fn view(&self) -> TokenView {
        TokenView {
            initialized: self.initialized,
            params: self.params,
            admin: self.admin,
            total_supply: self.total_supply,
            balances: self.balances@,
            allowances: Map::new(
                |k: (u64, u64)| self.allowances@.contains_key(allowance_key(k.0, k.1) as u128),
                |k: (u64, u64)| self.allowances@[allowance_key(k.0, k.1) as u128],
            ),
            reserve: self.reserve,
            events: self.events@,
        }
    }
}

impl BondedToken {
    /// The ledger's invariant; see `supply_matches`.
    pub open spec fn wf(&self) -> bool {
        supply_matches(self@)
    }

    /// The balance of `who`; zero where it has no entry.
    pub fn balance_of(&self, who: u64) -> (r: u128)
        ensures
            r == balance_in(self@.balances, who),
    {
        match self.balances.get(&who) {
            Some(b) => *b,
            None => 0,
        }
    }

    /// An empty ledger whose curve is not set yet, administered by `admin`.
    pub fn new(admin: u64) -> (r: Self)
        ensures
            r.wf(),
            r@ == (TokenView {
                initialized: false,
                params: CurveParams { exponent: 0, slope_n: 0, slope_d: 0 },
                admin,
                total_supply: 0,
                balances: Map::empty(),
                allowances: Map::empty(),
                reserve: 0,
                events: Seq::empty(),
            }),
    {
        let r = BondedToken {
            initialized: false,
            params: CurveParams { exponent: 0, slope_n: 0, slope_d: 0 },
            admin,
            total_supply: 0,
            balances: HashMap::new(),
            allowances: HashMap::new(),
            reserve: 0,
            events: Vec::new(),
        };
        proof {
            lemma_sum_empty();
            assert(r@.balances =~= Map::empty());
            assert(r@.allowances =~= Map::empty());
        }
        r
    }

    /// Whether `who` has a balance entry, even one of zero.
    pub fn account_exists(&self, who: u64) -> (r: bool)
        ensures
            r == self@.balances.contains_key(who),
    {
        self.balances.contains_key(&who)
    }

    /// The allowance of `owner` for `spender`; zero where there is none.
    pub fn allowance(&self, owner: u64, spender: u64) -> (r: u128)
        ensures
            r == allowance_in(self@.allowances, owner, spender),
    {
        match self.stored_allowance(owner, spender) {
            Some(a) => a,
            None => 0,
        }
    }

    /// The total number of tokens in existence.
    pub fn total_supply(&self) -> (r: u128)
        ensures
            r == self@.total_supply,
    {
        self.total_supply
    }

    /// The settlement currency held to pay for sales.
    pub fn reserve(&self) -> (r: u128)
        ensures
            r == self@.reserve,
    {
        self.reserve
    }

    /// Whether the curve parameters have been set.
    pub fn is_init(&self) -> (r: bool)
        ensures
            r == self@.initialized,
    {
        self.initialized
    }

    /// The curve parameters; all zero until they are set.
    pub fn params(&self) -> (r: CurveParams)
        ensures
            r == self@.params,
    {
        self.params
    }

    /// The curve's exponent.
    pub fn exponent(&self) -> (r: u128)
        ensures
            r == self@.params.exponent,
    {
        self.params.exponent
    }

    /// The numerator of the curve's slope.
    pub fn slope_n(&self) -> (r: u128)
        ensures
            r == self@.params.slope_n,
    {
        self.params.slope_n
    }

    /// The denominator of the curve's slope.
    pub fn slope_d(&self) -> (r: u128)
        ensures
            r == self@.params.slope_d,
    {
        self.params.slope_d
    }

    /// The account allowed to empty the ledger.
    pub fn admin(&self) -> (r: u64)
        ensures
            r == self@.admin,
    {
        self.admin
    }

    /// The events reported so far, oldest first.
    pub fn events(&self) -> (r: &[Event])
        ensures
            r@ == self@.events,
    {
        self.events.as_slice()
    }

    fn stored_allowance(&self, owner: u64, spender: u64) -> (r: Option<u128>)
        ensures
            r == if self@.allowances.contains_key((owner, spender)) {
                Some(self@.allowances[(owner, spender)])
            } else {
                None::<u128>
            },
    {
        match self.allowances.get(&key_of(owner, spender)) {
            Some(a) => Some(*a),
            None => None,
        }
    }

    fn put_allowance(&mut self, owner: u64, spender: u64, value: u128)
        ensures
            final(self)@ == (TokenView {
                allowances: old(self)@.allowances.insert((owner, spender), value),
                ..old(self)@
            }),
    {
        self.allowances.insert(key_of(owner, spender), value);
        proof {
            assert forall|k: (u64, u64)|
                allowance_key(k.0, k.1) == allowance_key(owner, spender) <==> k == (
                    owner,
                    spender,
                ) by {
                lemma_allowance_key_injective(k.0, k.1, owner, spender);
            }
            assert(self@.allowances =~= old(self)@.allowances.insert((owner, spender), value));
        }
    }

    /// Adds `amount` new tokens to the balance of `to` and to the supply.
    pub fn mint(&mut self, to: u64, amount: u128) -> (r: Result<(), TokenError>)
        requires
            old(self).wf(),
        ensures
            final(self).wf(),
            follows(mint_outcome(old(self)@, to, amount), r, old(self)@, final(self)@),
    {
        let balance = self.balance_of(to);
        let new_supply = match self.total_supply.checked_add(amount) {
            Some(x) => x,
            None => return Err(TokenError::Overflow),
        };
        proof {
            lemma_balance_le_sum(self.balances@, to);
        }
        let new_balance = match balance.checked_add(amount) {
            Some(x) => x,
            None => return Err(TokenError::Overflow),
        };
        let ghost m0 = self.balances@;
        self.total_supply = new_supply;
        self.balances.insert(to, new_balance);
        self.events.push(Event::Transfer(None, Some(to), amount));
        proof {
            lemma_sum_insert(m0, to, new_balance);
            assert(self@.allowances =~= old(self)@.allowances);
        }
        Ok(())
    }

    /// Takes `amount` tokens out of the balance of `from` and out of the supply.
    pub fn burn(&mut self, from: u64, amount: u128) -> (r: Result<(), TokenError>)
        requires
            old(self).wf(),
        ensures
            final(self).wf(),
            follows(burn_outcome(old(self)@, from, amount), r, old(self)@, final(self)@),
    {
        let balance = self.balance_of(from);
        let new_balance = match balance.checked_sub(amount) {
            Some(x) => x,
            None => return Err(TokenError::InsufficientBalance),
        };
        proof {
            lemma_balance_le_sum(self.balances@, from);
        }
        let new_supply = match self.total_supply.checked_sub(amount) {
            Some(x) => x,
            None => return Err(TokenError::Underflow),
        };
        let ghost m0 = self.balances@;
        self.total_supply = new_supply;
        self.balances.insert(from, new_balance);
        self.events.push(Event::Transfer(Some(from), None, amount));
        proof {
            lemma_sum_insert(m0, from, new_balance);
            assert(self@.allowances =~= old(self)@.allowances);
        }
        Ok(())
    }

    /// Mints `amount` new tokens to the caller.
    pub fn create_tokens(&mut self, caller: u64, amount: u128) -> (r: Result<(), TokenError>)
        requires
            old(self).wf(),
        ensures
            final(self).wf(),
            follows(mint_outcome(old(self)@, caller, amount), r, old(self)@, final(self)@),
    {
        self.mint(caller, amount)
    }

    /// Raises the allowance of `spender` over the caller's tokens by `value`.
    /// The caller must have a balance entry.
    pub fn approve(&mut self, caller: u64, spender: u64, value: u128) -> (r: Result<(), TokenError>)
        requires
            old(self).wf(),
        ensures
            final(self).wf(),
            follows(approve_outcome(old(self)@, caller, spender, value), r, old(self)@, final(self)@),
    {
        if !self.balances.contains_key(&caller) {
            return Err(TokenError::NoSuchAccount);
        }
        let current = self.allowance(caller, spender);
        let raised = match current.checked_add(value) {
            Some(x) => x,
            None => return Err(TokenError::Overflow),
        };
        self.put_allowance(caller, spender, raised);
        self.events.push(Event::Approval(caller, spender, raised));
        Ok(())
    }

    /// The spender `caller` draws `value` tokens of `from` to itself, within
    /// the allowance `from` granted it. Either the allowance shrinks and the
    /// tokens move, or nothing changes.
    pub fn transfer_from(&mut self, caller: u64, from: u64, to: u64, value: u128) -> (r: Result<
        (),
        TokenError,
    >)
        requires
            old(self).wf(),
        ensures
            final(self).wf(),
            follows(
                transfer_from_outcome(old(self)@, caller, from, to, value),
                r,
                old(self)@,
                final(self)@,
            ),
    {
        if caller != to {
            return Err(TokenError::Unauthorized);
        }
        let allowance = match self.stored_allowance(from, to) {
            Some(a) => a,
            None => return Err(TokenError::InsufficientAllowance),
        };
        let left = match allowance.checked_sub(value) {
            Some(x) => x,
            None => return Err(TokenError::InsufficientAllowance),
        };
        let from_balance = match self.balances.get(&from) {
            Some(b) => *b,
            None => return Err(TokenError::NoSuchAccount),
        };
        if from_balance < value {
            return Err(TokenError::InsufficientBalance);
        }
        if from != to && self.balance_of(to).checked_add(value).is_none() {
            return Err(TokenError::Overflow);
        }
        self.put_allowance(from, to, left);
        self.events.push(Event::Approval(from, to, left));
        self.transfer(from, to, value)
    }

    /// Sets the curve parameters; refused once they have been set.
    pub fn init(&mut self, exponent: u128, slope_n: u128, slope_d: u128) -> (r: Result<(), TokenError>)
        requires
            old(self).wf(),
        ensures
            final(self).wf(),
            follows(init_outcome(old(self)@, exponent, slope_n, slope_d), r, old(self)@, final(self)@),
    {
        if self.initialized {
            return Err(TokenError::AlreadyInitialized);
        }
        self.params = CurveParams { exponent, slope_n, slope_d };
        self.initialized = true;
        Ok(())
    }

    /// Empties the ledger; only its administrator may.
    pub fn clear_storage(&mut self, caller: u64) -> (r: Result<(), TokenError>)
        requires
            old(self).wf(),
        ensures
            final(self).wf(),
            follows(clear_outcome(old(self)@, caller), r, old(self)@, final(self)@),
    {
        if caller != self.admin {
            return Err(TokenError::Unauthorized);
        }
        self.total_supply = 0;
        self.balances.clear();
        self.allowances.clear();
        self.reserve = 0;
        proof {
            lemma_sum_empty();
            assert(self@.balances =~= Map::empty());
            assert(self@.allowances =~= Map::empty());
        }
        Ok(())
    }

    /// Sets the reserve; the market keeps it in step with the supply.
    pub(crate) fn set_reserve(&mut self, value: u128)
        requires
            old(self).wf(),
        ensures
            final(self).wf(),
            final(self)@ == (TokenView { reserve: value, ..old(self)@ }),
    {
        self.reserve = value;
    }

    /// Moves `value` tokens from `caller` to `to`. The caller must have a
    /// balance entry holding at least `value`.
    pub fn transfer(&mut self, caller: u64, to: u64, value: u128) -> (r: Result<(), TokenError>)
        requires
            old(self).wf(),
        ensures
            final(self).wf(),
            follows(transfer_outcome(old(self)@, caller, to, value), r, old(self)@, final(self)@),
    {
        let from_balance = match self.balances.get(&caller) {
            Some(b) => *b,
            None => return Err(TokenError::NoSuchAccount),
        };
        if from_balance < value {
            return Err(TokenError::InsufficientBalance);
        }
        if caller != to {
            let to_balance = self.balance_of(to);
            let new_to = match to_balance.checked_add(value) {
                Some(x) => x,
                None => return Err(TokenError::Overflow),
            };
            let ghost m0 = self.balances@;
            self.balances.insert(caller, from_balance - value);
            proof {
                lemma_sum_insert(m0, caller, (from_balance - value) as u128);
            }
            let ghost m1 = self.balances@;
            self.balances.insert(to, new_to);
            proof {
                lemma_sum_insert(m1, to, new_to);
            }
        }
        self.events.push(Event::Transfer(Some(caller), Some(to), value));
        proof {
            assert(self@.allowances =~= old(self)@.allowances);
        }
        Ok(())
    }
}

} // verus!
