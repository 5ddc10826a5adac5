use crate::address::Address;
use crate::error::TreasuryError;
use crate::shares::lemma_valid_shares_have_reduced_divisor;
use crate::state::{bps_total, has_reduced_divisor, Treasury, TreasuryOwner, BPS_TOTAL};
use vstd::prelude::*;

verus! {

/// The shares of the first `n` owners add up to no more than those of all.
pub proof fn lemma_bps_total_of_prefix(owners: Seq<TreasuryOwner>, n: int)
    requires
        0 <= n <= owners.len(),
    ensures
        0 <= bps_total(owners.take(n)) <= bps_total(owners),
    decreases owners.len(),
{
    if n == owners.len() {
        assert(owners.take(n) =~= owners);
        if n > 0 {
            lemma_bps_total_of_prefix(owners.drop_last(), n - 1);
        }
    } else {
        lemma_bps_total_of_prefix(owners.drop_last(), n);
        assert(owners.drop_last().take(n) =~= owners.take(n));
    }
}

/// Initializes a new treasury with the provided owners and authority, paid
/// for by `payer`. The shares of the owners must add up to 10000 basis
/// points; the new treasury keeps them as given and is not closeable.
pub fn create_treasury(owners: Vec<TreasuryOwner>, authority: Address, payer: Address) -> (created:
    Result<Treasury, TreasuryError>)
    ensures
        bps_total(owners@) == 10000 ==> created == Ok::<Treasury, TreasuryError>(
            Treasury { is_closeable: false, authority, payer, owners },
        ),
        bps_total(owners@) != 10000 ==> created == Err::<Treasury, TreasuryError>(
            TreasuryError::InvalidBpsTotal,
        ),
        created matches Ok(treasury) ==> treasury.is_valid() && has_reduced_divisor(
            treasury.owners@,
        ),
{
    let mut bps_sum: u16 = 0;
    let mut i: usize = 0;
    while i < owners.len()
        invariant
            i <= owners.len(),
            bps_sum == bps_total(owners@.take(i as int)),
        decreases owners.len() - i,
    {
        proof {
            assert(owners@.take(i + 1).drop_last() =~= owners@.take(i as int));
            lemma_bps_total_of_prefix(owners@, i + 1);
        }
        match bps_sum.checked_add(owners[i].share_bps) {
            Some(sum) => {
                bps_sum = sum;
            },
            None => {
                return Err(TreasuryError::InvalidBpsTotal);
            },
        }
        i += 1;
    }
    proof {
        assert(owners@.take(owners.len() as int) =~= owners@);
    }
    if bps_sum != BPS_TOTAL {
        return Err(TreasuryError::InvalidBpsTotal);
    }
    proof {
        lemma_valid_shares_have_reduced_divisor(owners@);
    }
    Ok(Treasury { is_closeable: false, authority, payer, owners })
}

} // verus!
