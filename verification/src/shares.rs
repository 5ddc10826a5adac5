//! How an amount splits among the owners of a treasury.

use crate::divisor::{
    divides, gcd, lemma_divides_sum, lemma_divides_transitive, lemma_divisor_is_at_most,
    lemma_gcd_divides_both, lemma_multiple_is_product, lemma_product_is_multiple,
};
use crate::state::{
    bps_total, gcd_of_shares, has_reduced_divisor, reduced_divisor, remainder_of, share_of,
    TreasuryOwner,
};
use vstd::prelude::*;

verus! {

/// What the owners' shares of `amount` add up to, each rounded down.
pub open spec fn shares_total(owners: Seq<TreasuryOwner>, amount: int) -> int
    decreases owners.len(),
{
    if owners.len() == 0 {
        0
    } else {
        shares_total(owners.drop_last(), amount) + share_of(
            owners.last().share_bps as int,
            amount,
        )
    }
}

/// Whether `d` divides the share of every owner.
pub open spec fn divides_every_share(d: nat, owners: Seq<TreasuryOwner>) -> bool {
    forall|i: int| 0 <= i < owners.len() ==> divides(d, #[trigger] owners[i].share_bps as nat)
}

/// The greatest common divisor of the shares divides each of them.
pub proof fn lemma_gcd_of_shares_divides_every_share(owners: Seq<TreasuryOwner>)
    ensures
        divides_every_share(gcd_of_shares(owners), owners),
    decreases owners.len(),
{
    let g = gcd_of_shares(owners);
    if owners.len() == 1 {
        lemma_product_is_multiple(g, 1);
        assert(g * 1 == g) by (nonlinear_arith);
    } else if owners.len() > 1 {
        let front = owners.drop_last();
        let last = owners.last().share_bps as nat;
        lemma_gcd_of_shares_divides_every_share(front);
        lemma_gcd_divides_both(gcd_of_shares(front), last);
        assert forall|i: int| 0 <= i < owners.len() implies divides(
            g,
            #[trigger] owners[i].share_bps as nat,
        ) by {
            if i < front.len() {
                assert(front[i] == owners[i]);
                lemma_divides_transitive(g, gcd_of_shares(front), owners[i].share_bps as nat);
            }
        }
    }
}

/// The shares add up to a number that is not negative.
pub proof fn lemma_bps_total_is_nat(owners: Seq<TreasuryOwner>)
    ensures
        0 <= bps_total(owners),
    decreases owners.len(),
{
    if owners.len() > 0 {
        lemma_bps_total_is_nat(owners.drop_last());
    }
}

/// No share is more than all the shares together.
pub proof fn lemma_share_is_at_most_total(owners: Seq<TreasuryOwner>, i: int)
    requires
        0 <= i < owners.len(),
    ensures
        owners[i].share_bps <= bps_total(owners),
    decreases owners.len(),
{
    lemma_bps_total_is_nat(owners.drop_last());
    if i < owners.len() - 1 {
        lemma_share_is_at_most_total(owners.drop_last(), i);
    }
}

/// What divides every share divides their sum.
pub proof fn lemma_divides_bps_total(d: nat, owners: Seq<TreasuryOwner>)
    requires
        divides_every_share(d, owners),
    ensures
        0 <= bps_total(owners),
        divides(d, bps_total(owners) as nat),
    decreases owners.len(),
{
    lemma_bps_total_is_nat(owners);
    if owners.len() > 0 {
        let front = owners.drop_last();
        assert forall|i: int| 0 <= i < front.len() implies divides(
            d,
            #[trigger] front[i].share_bps as nat,
        ) by {
            assert(front[i] == owners[i]);
        }
        lemma_divides_bps_total(d, front);
        lemma_divides_sum(d, bps_total(front) as nat, owners.last().share_bps as nat);
    }
}

/// Shares that add up to the whole have a reduced divisor, and it is the
/// whole divided by their greatest common divisor without rest.
pub proof fn lemma_valid_shares_have_reduced_divisor(owners: Seq<TreasuryOwner>)
    requires
        bps_total(owners) == 10000,
    ensures
        has_reduced_divisor(owners),
        1 <= reduced_divisor(owners) <= 10000,
        gcd_of_shares(owners) * reduced_divisor(owners) == 10000,
{
    let g = gcd_of_shares(owners);
    lemma_gcd_of_shares_divides_every_share(owners);
    lemma_divides_bps_total(g, owners);
    lemma_divisor_is_at_most(g, 10000);
    lemma_multiple_is_product(g, 10000);
    assert(1 <= 10000nat / g <= 10000) by (nonlinear_arith)
        requires
            0 < g <= 10000,
            10000 == g * (10000nat / g),
    ;
}

/// The share of a multiple of the reduced divisor comes out without
/// rounding: it is that many times the share in units of the divisor `g`.
proof fn lemma_share_of_multiple(share_bps: int, g: int, d: int, q: int)
    requires
        0 < g,
        g * d == 10000,
        0 <= share_bps,
        share_bps % g == 0,
    ensures
        (q * d) * share_bps == (q * (share_bps / g)) * 10000,
        share_of(share_bps, q * d) == q * (share_bps / g),
{
    let b = share_bps / g;
    assert(share_bps == g * b) by (nonlinear_arith)
        requires
            0 < g,
            share_bps % g == 0,
            b == share_bps / g,
    ;
    assert((q * d) * share_bps == (q * b) * 10000) by (nonlinear_arith)
        requires
            share_bps == g * b,
            g * d == 10000,
    ;
}

/// The shares of a multiple of the reduced divisor, counted in units of the
/// common divisor `g`, are that many times the sum of the shares.
proof fn lemma_shares_total_of_multiple(owners: Seq<TreasuryOwner>, g: int, d: int, q: int)
    requires
        0 < g,
        g * d == 10000,
        divides_every_share(g as nat, owners),
    ensures
        shares_total(owners, q * d) * g == q * bps_total(owners),
    decreases owners.len(),
{
    if owners.len() == 0 {
        assert(0 * g == q * 0) by (nonlinear_arith);
    } else {
        let front = owners.drop_last();
        let last = owners.last().share_bps as int;
        assert(divides(g as nat, owners[owners.len() - 1].share_bps as nat));
        assert forall|i: int| 0 <= i < front.len() implies divides(
            g as nat,
            #[trigger] front[i].share_bps as nat,
        ) by {
            assert(front[i] == owners[i]);
        }
        lemma_shares_total_of_multiple(front, g, d, q);
        lemma_share_of_multiple(last, g, d, q);
        let b = last / g;
        assert(last == g * b) by (nonlinear_arith)
            requires
                0 < g,
                last % g == 0,
                b == last / g,
        ;
        let s = shares_total(front, q * d);
        let t = bps_total(front);
        assert((s + q * b) * g == q * (t + last)) by (nonlinear_arith)
            requires
                s * g == q * t,
                last == g * b,
        ;
    }
}

/// The share of a sum is the sum of the shares where one of the two parts
/// takes no rounding.
proof fn lemma_share_of_sum(share_bps: int, exact: int, rest: int, k: int)
    requires
        exact * share_bps == k * 10000,
    ensures
        share_of(share_bps, exact + rest) == k + share_of(share_bps, rest),
{
    assert((exact + rest) * share_bps == k * 10000 + rest * share_bps) by (nonlinear_arith)
        requires
            exact * share_bps == k * 10000,
    ;
}

/// The shares of an amount are those of its part that splits evenly and
/// those of the rest.
proof fn lemma_shares_total_of_sum(owners: Seq<TreasuryOwner>, g: int, d: int, q: int, rest: int)
    requires
        0 < g,
        g * d == 10000,
        divides_every_share(g as nat, owners),
    ensures
        shares_total(owners, q * d + rest) == shares_total(owners, q * d) + shares_total(
            owners,
            rest,
        ),
    decreases owners.len(),
{
    if owners.len() > 0 {
        let front = owners.drop_last();
        let last = owners.last().share_bps as int;
        assert(divides(g as nat, owners[owners.len() - 1].share_bps as nat));
        assert forall|i: int| 0 <= i < front.len() implies divides(
            g as nat,
            #[trigger] front[i].share_bps as nat,
        ) by {
            assert(front[i] == owners[i]);
        }
        lemma_shares_total_of_sum(front, g, d, q, rest);
        lemma_share_of_multiple(last, g, d, q);
        lemma_share_of_sum(last, q * d, rest, q * (last / g));
    }
}

/// What cannot be split is less than the reduced divisor, and none of it can
/// be split in a second attempt: it is its own remainder.
pub proof fn lemma_remainder_is_final(owners: Seq<TreasuryOwner>, amount: int)
    requires
        has_reduced_divisor(owners),
        0 <= amount,
    ensures
        0 <= remainder_of(owners, amount) <= amount,
        remainder_of(owners, amount) < reduced_divisor(owners),
        remainder_of(owners, remainder_of(owners, amount)) == remainder_of(owners, amount),
{
    let g = gcd_of_shares(owners) as int;
    let d = reduced_divisor(owners);
    assert(1 <= d) by (nonlinear_arith)
        requires
            0 < g <= 10000,
            d == 10000int / g,
    ;
    let r = amount % d;
    assert(0 <= r < d && r <= amount && r % d == r) by (nonlinear_arith)
        requires
            0 < d,
            0 <= amount,
            r == amount % d,
    ;
}

/// What can be distributed of an amount, the amount less its remainder, is
/// split among the owners in full: their shares of it add up to it.
pub proof fn lemma_distributable_is_shared_in_full(owners: Seq<TreasuryOwner>, amount: int)
    requires
        bps_total(owners) == 10000,
        0 <= amount,
    ensures
        shares_total(owners, amount - remainder_of(owners, amount)) + remainder_of(owners, amount)
            == amount,
{
    let g = gcd_of_shares(owners) as int;
    let d = reduced_divisor(owners);
    let q = amount / d;
    let r = remainder_of(owners, amount);
    lemma_valid_shares_have_reduced_divisor(owners);
    lemma_gcd_of_shares_divides_every_share(owners);
    assert(amount - r == q * d) by (nonlinear_arith)
        requires
            0 < d,
            q == amount / d,
            r == amount % d,
    ;
    lemma_shares_total_of_multiple(owners, g, d, q);
    let s = shares_total(owners, q * d);
    assert(s == q * d) by (nonlinear_arith)
        requires
            0 < g,
            g * d == 10000,
            s * g == q * 10000,
    ;
}

/// The shares of any amount and its remainder make up the amount and the
/// shares of the remainder. So the shares fall short of the amount by the
/// remainder exactly where no owner has a share in the remainder.
pub proof fn lemma_shares_total_and_remainder(owners: Seq<TreasuryOwner>, amount: int)
    requires
        bps_total(owners) == 10000,
        0 <= amount,
    ensures
        shares_total(owners, amount) + remainder_of(owners, amount) == amount + shares_total(
            owners,
            remainder_of(owners, amount),
        ),
{
    let g = gcd_of_shares(owners) as int;
    let d = reduced_divisor(owners);
    let q = amount / d;
    let r = remainder_of(owners, amount);
    lemma_valid_shares_have_reduced_divisor(owners);
    lemma_gcd_of_shares_divides_every_share(owners);
    lemma_distributable_is_shared_in_full(owners, amount);
    assert(amount == q * d + r) by (nonlinear_arith)
        requires
            0 < d,
            q == amount / d,
            r == amount % d,
    ;
    lemma_shares_total_of_sum(owners, g, d, q, r);
}

/// Where no owner has a share in the remainder of an amount, the shares of
/// the amount and the remainder add up to the amount, and the remainder is
/// less than the whole divided by the greatest common divisor of the shares.
pub proof fn lemma_shares_and_remainder_make_amount(owners: Seq<TreasuryOwner>, amount: int)
    requires
        bps_total(owners) == 10000,
        0 <= amount,
        shares_total(owners, remainder_of(owners, amount)) == 0,
    ensures
        shares_total(owners, amount) + remainder_of(owners, amount) == amount,
        remainder_of(owners, amount) < 10000int / (gcd_of_shares(owners) as int),
{
    lemma_valid_shares_have_reduced_divisor(owners);
    lemma_shares_total_and_remainder(owners, amount);
    lemma_remainder_is_final(owners, amount);
}

/// What cannot be split depends on the amount and on the shares alone, in
/// their order: not on who the owners are.
pub proof fn lemma_remainder_depends_on_shares(
    owners: Seq<TreasuryOwner>,
    others: Seq<TreasuryOwner>,
    amount: int,
)
    requires
        owners.len() == others.len(),
        forall|i: int| 0 <= i < owners.len() ==> owners[i].share_bps == others[i].share_bps,
    ensures
        gcd_of_shares(owners) == gcd_of_shares(others),
        remainder_of(owners, amount) == remainder_of(others, amount),
    decreases owners.len(),
{
    if owners.len() > 1 {
        lemma_remainder_depends_on_shares(owners.drop_last(), others.drop_last(), amount);
    }
}

} // verus!
