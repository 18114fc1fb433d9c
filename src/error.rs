use vstd::prelude::*;

verus! {

/// Why an operation on the ledger was refused. A refused operation leaves
/// the ledger exactly as it was.
#[derive(Clone, Copy, Debug, PartialEq, Eq, Structural)]
pub enum TokenError {
    /// An addition or multiplication would leave the 128-bit range.
    Overflow,
    /// A subtraction would go below zero.
    Underflow,
    /// The curve's slope denominator is zero.
    DivideByZero,
    /// The account holds fewer tokens than asked for.
    InsufficientBalance,
    /// The allowance is missing or smaller than asked for.
    InsufficientAllowance,
    /// The account has no balance entry.
    NoSuchAccount,
    /// The settlement currency could not be debited.
    InsufficientFunds,
    /// The reserve holds less than a sale would pay out.
    ReserveUnderflow,
    /// The curve parameters have already been set.
    AlreadyInitialized,
    /// The caller may not perform this operation.
    Unauthorized,
}

} // verus!
