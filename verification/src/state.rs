//! The treasury record and its owners.

use crate::address::Address;
use crate::divisor::{gcd, gcd_of};
use vstd::prelude::*;

verus! {

/// The whole of a treasury, in basis points.
pub const BPS_TOTAL: u16 = 10_000;

/// One of the treasury owners, recipient of a share of the treasury balance.
#[derive(Clone, Copy, Debug, PartialEq, Eq)]
pub struct TreasuryOwner {
    pub address: Address,
    /// The owner's part of each distribution, in basis points.
    pub share_bps: u16,
}

/// A treasury: who may mark it closeable, who paid for it, and who owns
/// which share of what it holds. The owners are fixed when it is created.
#[derive(Clone, Debug, PartialEq, Eq)]
pub struct Treasury {
    pub is_closeable: bool,
    pub authority: Address,
    pub payer: Address,
    pub owners: Vec<TreasuryOwner>,
}

/// A treasury as a plain value, its owners as a sequence.
pub struct TreasuryView {
    pub is_closeable: bool,
    pub authority: Address,
    pub payer: Address,
    pub owners: Seq<TreasuryOwner>,
}

impl View for Treasury {
    type V = TreasuryView;

    open spec fn view(&self) -> TreasuryView {
        TreasuryView {
            is_closeable: self.is_closeable,
            authority: self.authority,
            payer: self.payer,
            owners: self.owners@,
        }
    }
}

/// The sum of the owners' shares, in basis points.
pub open spec fn bps_total(owners: Seq<TreasuryOwner>) -> int
    decreases owners.len(),
{
    if owners.len() == 0 {
        0
    } else {
        bps_total(owners.drop_last()) + owners.last().share_bps
    }
}

/// The greatest common divisor of the owners' shares: the share itself where
/// there is one owner, and 1 where there is none.
pub open spec fn gcd_of_shares(owners: Seq<TreasuryOwner>) -> nat
    decreases owners.len(),
{
    if owners.len() == 0 {
        1
    } else if owners.len() == 1 {
        owners[0].share_bps as nat
    } else {
        gcd(gcd_of_shares(owners.drop_last()), owners.last().share_bps as nat)
    }
}

/// Whether the owners' shares have a reduced divisor: their greatest common
/// divisor is neither zero nor more than the whole.
pub open spec fn has_reduced_divisor(owners: Seq<TreasuryOwner>) -> bool {
    0 < gcd_of_shares(owners) <= 10000
}

/// The whole in units of the greatest common divisor of the shares. Amounts
/// that are multiples of it split among the owners without loss.
pub open spec fn reduced_divisor(owners: Seq<TreasuryOwner>) -> int {
    10000int / (gcd_of_shares(owners) as int)
}

/// The part of `amount` that cannot be split among the owners by their shares.
pub open spec fn remainder_of(owners: Seq<TreasuryOwner>, amount: int) -> int {
    amount % reduced_divisor(owners)
}

/// The part of `amount` that a share of `share_bps` basis points is entitled
/// to, rounded down.
pub open spec fn share_of(share_bps: int, amount: int) -> int {
    (amount * share_bps) / 10000
}

impl Treasury {
    /// Whether the owners' shares add up to the whole, as those of every
    /// treasury that was created do.
    pub open spec fn is_valid(&self) -> bool {
        bps_total(self.owners@) == 10000
    }

    /// The number of bytes that a stored treasury with `owners_count` owners
    /// takes: the closeable flag, the two addresses, and the owners behind
    /// their four-byte count.
    pub fn space(owners_count: usize) -> (bytes: usize)
        requires
            69 + 34 * owners_count <= usize::MAX,
        ensures
            bytes == 1 + 32 + 32 + 4 + (32 + 2) * owners_count,
    {
        let space_is_closeable: usize = 1;
        let space_authority: usize = 32;
        let space_payer: usize = 32;
        let space_owners: usize = 4 + TreasuryOwner::space() * owners_count;
        space_is_closeable + space_authority + space_payer + space_owners
    }

    /// The greatest common divisor of the owners' shares.
    pub fn gcd_bps(&self) -> (g: u16)
        ensures
            g == gcd_of_shares(self.owners@),
    {
        let n = self.owners.len();
        if n == 0 {
            return 1;
        }
        let mut g: u16 = self.owners[0].share_bps;
        let mut i: usize = 1;
        while i < n
            invariant
                n == self.owners.len(),
                1 <= i <= n,
                g == gcd_of_shares(self.owners@.take(i as int)),
            decreases n - i,
        {
            g = gcd_of(g, self.owners[i].share_bps);
            proof {
                let next = self.owners@.take(i + 1);
                assert(next.drop_last() =~= self.owners@.take(i as int));
            }
            i += 1;
        }
        proof {
            assert(self.owners@.take(n as int) =~= self.owners@);
        }
        g
    }

    /// Calculates the amount that cannot be evenly distributed based on the
    /// owners' shares in basis points. In the worst-case scenario, it is
    /// equal to `balance % 10000`.
    pub fn get_remaining_balance(&self, balance: u64) -> (remaining: u64)
        requires
            has_reduced_divisor(self.owners@),
        ensures
            remaining == remainder_of(self.owners@, balance as int),
            remaining <= balance,
            remaining < reduced_divisor(self.owners@),
    {
        let gcd_bps = self.gcd_bps();
        let reduced_divisor: u16 = BPS_TOTAL / gcd_bps;
        assert(reduced_divisor > 0) by (nonlinear_arith)
            requires
                0 < gcd_bps <= 10000,
                reduced_divisor == 10000int / (gcd_bps as int),
        ;
        let remaining = balance % (reduced_divisor as u64);
        assert(remaining <= balance) by (nonlinear_arith)
            requires
                0 < reduced_divisor,
                remaining == balance % (reduced_divisor as u64),
        ;
        remaining
    }
}

impl TreasuryOwner {
    /// What the owner is paid out of `amount`: its share, which is less than
    /// 2^64 unless the owner's share is more than the whole.
    pub open spec fn share(&self, amount: int) -> int {
        share_of(self.share_bps as int, amount) % 0x1_0000_0000_0000_0000
    }

    /// The number of bytes that a stored owner takes: the address and the share.
    pub fn space() -> (bytes: usize)
        ensures
            bytes == 32 + 2,
    {
        32 + 2
    }

    /// Calculates the owner's proportional share of a given amount. A share
    /// of more than the whole may come to more than 64 bits hold: the result
    /// is then what remains modulo 2^64.
    pub fn get_share(&self, amount: u64) -> (share: u64)
        ensures
            share == self.share(amount as int),
            self.share_bps <= 10000 ==> share == share_of(self.share_bps as int, amount as int),
    {
        assert(amount * self.share_bps <= 0xffff_ffff_ffff_ffff * 0xffff) by (nonlinear_arith)
            requires
                amount <= 0xffff_ffff_ffff_ffff,
                self.share_bps <= 0xffff,
        ;
        let product: u128 = (amount as u128).checked_mul(self.share_bps as u128).unwrap();
        let quotient: u128 = product / 10_000;
        proof {
            if self.share_bps <= 10000 {
                assert(amount * self.share_bps <= amount * 10000) by (nonlinear_arith)
                    requires
                        self.share_bps <= 10000,
                ;
            }
        }
        (quotient % 0x1_0000_0000_0000_0000) as u64
    }
}

} // verus!
