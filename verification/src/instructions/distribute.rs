use crate::address::Address;
use crate::error::TreasuryError;
use crate::shares::{
    lemma_distributable_is_shared_in_full, lemma_share_is_at_most_total, shares_total,
};
use crate::state::{has_reduced_divisor, remainder_of, share_of, Treasury, TreasuryOwner};
use vstd::prelude::*;

verus! {

/// What a distribution moves.
#[derive(Clone, Debug, PartialEq, Eq)]
pub struct Distribution {
    /// What the treasury holds afterwards: the reserve and the remainder.
    pub treasury_balance: u64,
    /// What each recipient is credited, in the order in which they were given.
    pub payouts: Vec<u64>,
}

/// Whether the owner at `i` has the address.
pub open spec fn owns(owners: Seq<TreasuryOwner>, i: int, address: Address) -> bool {
    0 <= i < owners.len() && owners[i].address == address
}

/// Whether some owner has the address.
pub open spec fn is_owner(owners: Seq<TreasuryOwner>, address: Address) -> bool {
    exists|i: int| owns(owners, i, address)
}

/// Whether the owner at `i` is the first that has the address. A recipient
/// is paid as the first owner with its address.
pub open spec fn is_first_to_own(owners: Seq<TreasuryOwner>, i: int, address: Address) -> bool {
    owns(owners, i, address) && forall|j: int| 0 <= j < i ==> !owns(owners, j, address)
}

/// The place of the first owner that has the address.
pub open spec fn owner_index(owners: Seq<TreasuryOwner>, address: Address) -> int {
    choose|i: int| is_first_to_own(owners, i, address)
}

/// Whether the recipients at `j` and at `k`, which comes later, are the same.
pub open spec fn repeats(recipients: Seq<Address>, j: int, k: int) -> bool {
    0 <= j < k && recipients[j] == recipients[k]
}

/// Whether the recipient at `k` stands among the recipients before it.
pub open spec fn is_repeated(recipients: Seq<Address>, k: int) -> bool {
    exists|j: int| repeats(recipients, j, k)
}

/// Whether the recipient at `k` cannot be paid: it is no owner, or it has
/// been given before.
pub open spec fn is_rejected(owners: Seq<TreasuryOwner>, recipients: Seq<Address>, k: int) -> bool {
    !is_owner(owners, recipients[k]) || is_repeated(recipients, k)
}

/// Whether the recipient at `k` is the first that cannot be paid.
pub open spec fn is_first_rejected(
    owners: Seq<TreasuryOwner>,
    recipients: Seq<Address>,
    k: int,
) -> bool {
    &&& 0 <= k < recipients.len()
    &&& is_rejected(owners, recipients, k)
    &&& forall|j: int| 0 <= j < k ==> !is_rejected(owners, recipients, j)
}

/// Why the recipients cannot be paid, if they cannot: their number is not
/// that of the owners, or else the first of them that is rejected is no
/// owner or has been given before.
pub open spec fn rejection(owners: Seq<TreasuryOwner>, recipients: Seq<Address>) -> Option<
    TreasuryError,
> {
    if recipients.len() != owners.len() {
        Some(TreasuryError::InvalidOwnersCount)
    } else if exists|k: int| is_first_rejected(owners, recipients, k) {
        let k = choose|k: int| is_first_rejected(owners, recipients, k);
        if is_owner(owners, recipients[k]) {
            Some(TreasuryError::DuplicateOwner)
        } else {
            Some(TreasuryError::OwnerNotFound)
        }
    } else {
        None
    }
}

/// Whether the owner at `i` is the one that one of the first `count`
/// recipients is paid as.
pub open spec fn is_paid_within(
    owners: Seq<TreasuryOwner>,
    recipients: Seq<Address>,
    count: int,
    i: int,
) -> bool {
    exists|k: int| 0 <= k < count && #[trigger] is_first_to_own(owners, i, recipients[k])
}

/// Whether every owner is the one that some recipient is paid as.
pub open spec fn pays_every_owner(owners: Seq<TreasuryOwner>, recipients: Seq<Address>) -> bool {
    forall|i: int|
        0 <= i < owners.len() ==> is_paid_within(owners, recipients, recipients.len() as int, i)
}

/// What a treasury that holds `balance`, of which `reserved` keeps it alive,
/// hands out in a distribution: what it holds above the reserve, less what
/// cannot be split.
pub open spec fn distributable(owners: Seq<TreasuryOwner>, balance: int, reserved: int) -> int {
    (balance - reserved) - remainder_of(owners, balance - reserved)
}

/// What the amounts add up to.
pub open spec fn amounts_total(amounts: Seq<u64>) -> int
    decreases amounts.len(),
{
    if amounts.len() == 0 {
        0
    } else {
        amounts_total(amounts.drop_last()) + amounts.last()
    }
}

/// What the shares of `amount` of the owners marked in `paid` add up to.
spec fn paid_total(owners: Seq<TreasuryOwner>, paid: Seq<bool>, amount: int) -> int
    decreases owners.len(),
{
    if owners.len() == 0 || paid.len() != owners.len() {
        0
    } else {
        paid_total(owners.drop_last(), paid.drop_last(), amount) + if paid.last() {
            share_of(owners.last().share_bps as int, amount)
        } else {
            0
        }
    }
}

/// How many owners are marked in `paid`.
spec fn paid_count(paid: Seq<bool>) -> int
    decreases paid.len(),
{
    if paid.len() == 0 {
        0
    } else {
        paid_count(paid.drop_last()) + if paid.last() {
            1int
        } else {
            0int
        }
    }
}

/// Where no owner is marked, the count and the total are zero.
proof fn lemma_none_paid(owners: Seq<TreasuryOwner>, paid: Seq<bool>, amount: int)
    requires
        paid.len() == owners.len(),
        forall|i: int| 0 <= i < paid.len() ==> !paid[i],
    ensures
        paid_count(paid) == 0,
        paid_total(owners, paid, amount) == 0,
    decreases paid.len(),
{
    if paid.len() > 0 {
        lemma_none_paid(owners.drop_last(), paid.drop_last(), amount);
    }
}

/// Marking one more owner adds one to the count and the owner's share to
/// the total.
proof fn lemma_mark_paid(owners: Seq<TreasuryOwner>, paid: Seq<bool>, i: int, amount: int)
    requires
        paid.len() == owners.len(),
        0 <= i < paid.len(),
        !paid[i],
    ensures
        paid_count(paid.update(i, true)) == paid_count(paid) + 1,
        paid_total(owners, paid.update(i, true), amount) == paid_total(owners, paid, amount)
            + share_of(owners[i].share_bps as int, amount),
    decreases paid.len(),
{
    let marked = paid.update(i, true);
    if i == paid.len() - 1 {
        assert(marked.drop_last() =~= paid.drop_last());
    } else {
        assert(marked.drop_last() =~= paid.drop_last().update(i, true));
        lemma_mark_paid(owners.drop_last(), paid.drop_last(), i, amount);
    }
}

/// No more owners are marked than there are.
proof fn lemma_paid_count_is_at_most_len(paid: Seq<bool>)
    ensures
        0 <= paid_count(paid) <= paid.len(),
    decreases paid.len(),
{
    if paid.len() > 0 {
        lemma_paid_count_is_at_most_len(paid.drop_last());
    }
}

/// Where as many owners are marked as there are, each is, and their shares
/// are the shares of all.
proof fn lemma_all_paid(owners: Seq<TreasuryOwner>, paid: Seq<bool>, amount: int)
    requires
        paid.len() == owners.len(),
        paid_count(paid) == paid.len(),
    ensures
        forall|i: int| 0 <= i < paid.len() ==> paid[i],
        paid_total(owners, paid, amount) == shares_total(owners, amount),
    decreases paid.len(),
{
    if paid.len() > 0 {
        lemma_paid_count_is_at_most_len(paid.drop_last());
        lemma_all_paid(owners.drop_last(), paid.drop_last(), amount);
        assert forall|i: int| 0 <= i < paid.len() implies paid[i] by {
            if i < paid.len() - 1 {
                assert(paid.drop_last()[i] == paid[i]);
            }
        }
    }
}

/// No two owners are the first to own one address.
proof fn lemma_first_to_own_is_one(owners: Seq<TreasuryOwner>, i: int, j: int, address: Address)
    requires
        is_first_to_own(owners, i, address),
        is_first_to_own(owners, j, address),
    ensures
        i == j,
{
}

/// Where a recipient is rejected, one of the recipients up to it is the
/// first to be.
pub proof fn lemma_some_rejection_is_first(
    owners: Seq<TreasuryOwner>,
    recipients: Seq<Address>,
    k: int,
) -> (first: int)
    requires
        0 <= k < recipients.len(),
        is_rejected(owners, recipients, k),
    ensures
        0 <= first <= k,
        is_first_rejected(owners, recipients, first),
    decreases k,
{
    if exists|j: int| 0 <= j < k && is_rejected(owners, recipients, j) {
        let j = choose|j: int| 0 <= j < k && is_rejected(owners, recipients, j);
        lemma_some_rejection_is_first(owners, recipients, j)
    } else {
        k
    }
}

/// The recipients are accepted where there are as many as owners, each of
/// them is an owner, and none is given twice; and nowhere else.
pub proof fn lemma_accepted_recipients(owners: Seq<TreasuryOwner>, recipients: Seq<Address>)
    ensures
        rejection(owners, recipients) is None <==> {
            &&& recipients.len() == owners.len()
            &&& forall|k: int|
                0 <= k < recipients.len() ==> is_owner(owners, #[trigger] recipients[k])
                    && !is_repeated(recipients, k)
        },
{
    if recipients.len() == owners.len() {
        if rejection(owners, recipients) is None {
            assert forall|k: int| 0 <= k < recipients.len() implies is_owner(
                owners,
                #[trigger] recipients[k],
            ) && !is_repeated(recipients, k) by {
                if is_rejected(owners, recipients, k) {
                    lemma_some_rejection_is_first(owners, recipients, k);
                }
            }
        }
    }
}

/// A distribution with a recipient that is no owner fails with
/// `OwnerNotFound`, unless the number of recipients is wrong or one of the
/// recipients before it has been given twice.
pub proof fn lemma_stranger_is_not_found(
    owners: Seq<TreasuryOwner>,
    recipients: Seq<Address>,
    k: int,
)
    requires
        recipients.len() == owners.len(),
        0 <= k < recipients.len(),
        !is_owner(owners, recipients[k]),
        forall|j: int| 0 <= j < k ==> !is_repeated(recipients, j),
    ensures
        rejection(owners, recipients) == Some(TreasuryError::OwnerNotFound),
{
    let first = lemma_some_rejection_is_first(owners, recipients, k);
    let chosen = choose|c: int| is_first_rejected(owners, recipients, c);
    assert(chosen == first);
}

/// A distribution with a recipient that is given a second time fails with
/// `DuplicateOwner`, unless the number of recipients is wrong or one of the
/// recipients before the second time is no owner.
pub proof fn lemma_repeated_owner_is_duplicate(
    owners: Seq<TreasuryOwner>,
    recipients: Seq<Address>,
    k: int,
)
    requires
        recipients.len() == owners.len(),
        0 <= k < recipients.len(),
        is_repeated(recipients, k),
        forall|j: int| 0 <= j < k ==> is_owner(owners, #[trigger] recipients[j]),
    ensures
        rejection(owners, recipients) == Some(TreasuryError::DuplicateOwner),
{
    let first = lemma_some_rejection_is_first(owners, recipients, k);
    let chosen = choose|c: int| is_first_rejected(owners, recipients, c);
    assert(chosen == first);
    if first == k {
        let j = choose|j: int| repeats(recipients, j, k);
        assert(is_owner(owners, recipients[j]));
    } else {
        assert(is_owner(owners, recipients[first]));
    }
}

/// The place of the first owner with the address, if there is one.
fn find_owner(owners: &Vec<TreasuryOwner>, address: &Address) -> (found: Option<usize>)
    ensures
        match found {
            Some(i) => is_first_to_own(owners@, i as int, *address),
            None => !is_owner(owners@, *address),
        },
{
    let mut i: usize = 0;
    while i < owners.len()
        invariant
            i <= owners.len(),
            forall|j: int| 0 <= j < i ==> !owns(owners@, j, *address),
        decreases owners.len() - i,
    {
        if owners[i].address == *address {
            return Some(i);
        }
        i += 1;
    }
    None
}

/// The first step of a distribution: there must be as many recipients as
/// the treasury has owners.
pub fn check_owners_count(treasury: &Treasury, recipients: usize) -> (checked: Result<
    (),
    TreasuryError,
>)
    ensures
        recipients == treasury.owners.len() ==> checked == Ok::<(), TreasuryError>(()),
        recipients != treasury.owners.len() ==> checked == Err::<(), TreasuryError>(
            TreasuryError::InvalidOwnersCount,
        ),
{
    if recipients == treasury.owners.len() {
        Ok(())
    } else {
        Err(TreasuryError::InvalidOwnersCount)
    }
}

/// Distributes the treasury funds according to the owner shares.
///
/// The treasury holds `balance`, of which `reserved` keeps the record alive.
/// The accounts of the owners are given in `recipients`, each owner once, in
/// any order. What cannot be split stays in the treasury with the reserve;
/// of the rest each recipient is credited the share of the owner that has
/// its address. The caller moves the funds as the result says, all or none.
pub fn distribute(
    treasury: &Treasury,
    balance: u64,
    reserved: u64,
    recipients: &Vec<Address>,
) -> (outcome: Result<Distribution, TreasuryError>)
    requires
        recipients.len() == treasury.owners.len() ==> reserved <= balance && has_reduced_divisor(
            treasury.owners@,
        ),
    ensures
        match outcome {
            Ok(distribution) => {
                &&& rejection(treasury.owners@, recipients@) is None
                &&& distribution.treasury_balance == reserved + remainder_of(
                    treasury.owners@,
                    balance - reserved,
                )
                &&& distribution.payouts@.len() == recipients@.len()
                &&& forall|k: int|
                    0 <= k < recipients@.len() ==> #[trigger] distribution.payouts@[k]
                        == treasury.owners@[owner_index(treasury.owners@, recipients@[k])].share(
                        distributable(treasury.owners@, balance as int, reserved as int),
                    )
                &&& pays_every_owner(treasury.owners@, recipients@)
                &&& treasury.is_valid() ==> amounts_total(distribution.payouts@) == distributable(
                    treasury.owners@,
                    balance as int,
                    reserved as int,
                )
            },
            Err(error) => rejection(treasury.owners@, recipients@) == Some(error),
        },
{
    match check_owners_count(treasury, recipients.len()) {
        Err(error) => {
            return Err(error);
        },
        Ok(_) => {},
    }
    let total_treasury_balance = balance - reserved;
    let remaining_balance = treasury.get_remaining_balance(total_treasury_balance);
    let to_distribute = total_treasury_balance - remaining_balance;

    let n = treasury.owners.len();
    let ghost owners = treasury.owners@;
    let ghost amount = to_distribute as int;

    let mut paid_owners: Vec<bool> = Vec::new();
    while paid_owners.len() < n
        invariant
            paid_owners.len() <= n,
            forall|i: int| 0 <= i < paid_owners.len() ==> !paid_owners@[i],
        decreases n - paid_owners.len(),
    {
        paid_owners.push(false);
    }
    proof {
        lemma_none_paid(owners, paid_owners@, amount);
    }

    let mut payouts: Vec<u64> = Vec::new();
    let mut k: usize = 0;
    while k < n
        invariant
            owners == treasury.owners@,
            n == owners.len(),
            n == recipients.len(),
            n == paid_owners.len(),
            k <= n,
            payouts.len() == k,
            amount == to_distribute,
            forall|j: int| 0 <= j < k ==> !is_rejected(owners, recipients@, j),
            forall|i: int|
                0 <= i < n ==> (paid_owners@[i] <==> is_paid_within(
                    owners,
                    recipients@,
                    k as int,
                    i,
                )),
            forall|j: int|
                0 <= j < k ==> #[trigger] payouts@[j] == owners[owner_index(
                    owners,
                    recipients@[j],
                )].share(amount),
            paid_count(paid_owners@) == k,
            treasury.is_valid() ==> amounts_total(payouts@) == paid_total(
                owners,
                paid_owners@,
                amount,
            ),
        decreases n - k,
    {
        let account = recipients[k];
        let i = match find_owner(&treasury.owners, &account) {
            Some(i) => i,
            None => {
                proof {
                    assert(is_first_rejected(owners, recipients@, k as int));
                }
                return Err(TreasuryError::OwnerNotFound);
            },
        };
        if paid_owners[i] {
            proof {
                let j = choose|j: int|
                    0 <= j < k && #[trigger] is_first_to_own(owners, i as int, recipients@[j]);
                assert(repeats(recipients@, j, k as int));
                assert(is_first_rejected(owners, recipients@, k as int));
            }
            return Err(TreasuryError::DuplicateOwner);
        }
        proof {
            if is_repeated(recipients@, k as int) {
                let j = choose|j: int| repeats(recipients@, j, k as int);
                assert(is_first_to_own(owners, i as int, recipients@[j]));
            }
            lemma_mark_paid(owners, paid_owners@, i as int, amount);
            if treasury.is_valid() {
                lemma_share_is_at_most_total(owners, i as int);
            }
        }
        let ghost paid_before = paid_owners@;
        paid_owners.set(i, true);
        let lamports = treasury.owners[i].get_share(to_distribute);
        proof {
            assert(payouts@.push(lamports).drop_last() =~= payouts@);
            assert forall|other: int| 0 <= other < n implies (paid_owners@[other]
                <==> is_paid_within(owners, recipients@, k + 1, other)) by {
                if other == i {
                    assert(is_first_to_own(owners, other, recipients@[k as int]));
                } else if paid_before[other] {
                    let j = choose|j: int|
                        0 <= j < k && #[trigger] is_first_to_own(owners, other, recipients@[j]);
                    assert(is_first_to_own(owners, other, recipients@[j]));
                } else if is_paid_within(owners, recipients@, k + 1, other) {
                    let j = choose|j: int|
                        0 <= j < k + 1 && #[trigger] is_first_to_own(owners, other, recipients@[j]);
                    if j == k {
                        lemma_first_to_own_is_one(owners, other, i as int, account);
                    } else {
                        assert(is_paid_within(owners, recipients@, k as int, other));
                    }
                }
            }
        }
        payouts.push(lamports);
        k += 1;
    }
    proof {
        lemma_all_paid(owners, paid_owners@, amount);
        if treasury.is_valid() {
            lemma_distributable_is_shared_in_full(owners, total_treasury_balance as int);
        }
        assert forall|i: int| 0 <= i < owners.len() implies is_paid_within(
            owners,
            recipients@,
            recipients@.len() as int,
            i,
        ) by {
            assert(paid_owners@[i]);
        }
    }
    Ok(Distribution { treasury_balance: reserved + remaining_balance, payouts })
}

} // verus!
