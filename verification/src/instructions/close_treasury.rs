use crate::address::Address;
use crate::error::TreasuryError;
use crate::shares::lemma_remainder_is_final;
use crate::state::{has_reduced_divisor, remainder_of, Treasury};
use vstd::prelude::*;

verus! {

/// What closing a treasury moves: all that the record still holds goes to
/// the one who paid for it.
#[derive(Clone, Copy, Debug, PartialEq, Eq)]
pub struct Refund {
    /// Who receives the funds: the payer of the treasury.
    pub payer: Address,
    /// What the payer receives: the reserve and the remainder.
    pub lamports: u64,
}

/// Whether a treasury that holds `balance`, of which `reserved` keeps it
/// alive, has nothing left to distribute: what it holds above the reserve is
/// the remainder that its owners cannot split.
pub open spec fn is_empty(treasury: Treasury, balance: int, reserved: int) -> bool {
    balance - reserved == remainder_of(treasury.owners@, balance - reserved)
}

/// A treasury that holds what a distribution leaves it, the reserve and the
/// remainder, has nothing left to distribute.
pub proof fn lemma_distributed_treasury_is_empty(treasury: Treasury, balance: int, reserved: int)
    requires
        has_reduced_divisor(treasury.owners@),
        reserved <= balance,
    ensures
        is_empty(
            treasury,
            reserved + remainder_of(treasury.owners@, balance - reserved),
            reserved,
        ),
{
    lemma_remainder_is_final(treasury.owners@, balance - reserved);
}

/// The first step of closing: the treasury must have been marked closeable.
pub fn check_closeable(treasury: &Treasury) -> (checked: Result<(), TreasuryError>)
    ensures
        treasury.is_closeable ==> checked == Ok::<(), TreasuryError>(()),
        !treasury.is_closeable ==> checked == Err::<(), TreasuryError>(
            TreasuryError::TreasuryIsNotCloseable,
        ),
{
    if treasury.is_closeable {
        Ok(())
    } else {
        Err(TreasuryError::TreasuryIsNotCloseable)
    }
}

/// Closes the treasury while it holds `balance`, of which `reserved` is
/// what keeps the record alive. For this to succeed, the treasury must be
/// marked closeable and all the funds must be distributed. The caller then
/// removes the record and hands the payer what the result names, which is
/// all of `balance`.
pub fn close_treasury(treasury: &Treasury, balance: u64, reserved: u64) -> (closed: Result<
    Refund,
    TreasuryError,
>)
    requires
        treasury.is_closeable ==> reserved <= balance && has_reduced_divisor(treasury.owners@),
    ensures
        !treasury.is_closeable ==> closed == Err::<Refund, TreasuryError>(
            TreasuryError::TreasuryIsNotCloseable,
        ),
        treasury.is_closeable && !is_empty(*treasury, balance as int, reserved as int) ==> closed
            == Err::<Refund, TreasuryError>(TreasuryError::TreasuryIsNotEmpty),
        treasury.is_closeable && is_empty(*treasury, balance as int, reserved as int) ==> closed
            == Ok::<Refund, TreasuryError>(Refund { payer: treasury.payer, lamports: balance }),
{
    match check_closeable(treasury) {
        Err(error) => {
            return Err(error);
        },
        Ok(_) => {},
    }
    let total_treasury_balance = balance - reserved;
    let remaining_balance = treasury.get_remaining_balance(total_treasury_balance);
    if total_treasury_balance != remaining_balance {
        return Err(TreasuryError::TreasuryIsNotEmpty);
    }
    Ok(Refund { payer: treasury.payer, lamports: balance })
}

} // verus!
