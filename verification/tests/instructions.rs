use treasury::instructions::close_treasury::check_closeable;
use treasury::instructions::distribute::check_owners_count;
use treasury::{
    close_treasury, create_treasury, distribute, set_treasury_is_closeable, Address,
    Distribution, Refund, Treasury, TreasuryError, TreasuryOwner,
};

const RESERVED: u64 = 1_000_000;

fn key(tag: u8) -> Address {
    Address::new([tag; 32])
}

fn record(shares: &[u16]) -> Treasury {
    let mut owners = Vec::new();
    for (i, share_bps) in shares.iter().enumerate() {
        owners.push(TreasuryOwner { address: key(i as u8 + 1), share_bps: *share_bps });
    }
    create_treasury(owners, key(100), key(101)).unwrap()
}

#[test]
fn three_owners_split_ten_thousand_and_three() {
    let t = record(&[5000, 3000, 2000]);
    assert_eq!(t.gcd_bps(), 1000);
    assert_eq!(t.get_remaining_balance(10003), 3);
    let recipients = vec![key(1), key(2), key(3)];
    let done = distribute(&t, RESERVED + 10003, RESERVED, &recipients).unwrap();
    assert_eq!(done.payouts, vec![5000, 3000, 2000]);
    assert_eq!(done.treasury_balance, RESERVED + 3);
}

#[test]
fn two_owners_cannot_split_seven() {
    let t = record(&[1, 9999]);
    assert_eq!(t.gcd_bps(), 1);
    assert_eq!(t.get_remaining_balance(7), 7);
    let recipients = vec![key(1), key(2)];
    let done = distribute(&t, RESERVED + 7, RESERVED, &recipients).unwrap();
    assert_eq!(done.payouts, vec![0, 0]);
    assert_eq!(done.treasury_balance, RESERVED + 7);
}

#[test]
fn recipients_are_paid_in_the_order_given() {
    let t = record(&[5000, 3000, 2000]);
    let recipients = vec![key(3), key(1), key(2)];
    let done = distribute(&t, 20_000, 0, &recipients).unwrap();
    assert_eq!(done, Distribution { treasury_balance: 0, payouts: vec![4000, 10_000, 6000] });
}

#[test]
fn distribution_leaves_reserve_and_remainder() {
    let ledgers: [&[u16]; 4] = [&[10000], &[1, 9999], &[5000, 3000, 2000], &[3333, 3333, 3334]];
    for shares in ledgers {
        let t = record(shares);
        let recipients: Vec<Address> = t.owners.iter().map(|o| o.address).collect();
        for above in [0u64, 1, 9, 10, 9999, 10_000, 123_456_789] {
            for reserved in [0u64, 1, RESERVED] {
                let done = distribute(&t, reserved + above, reserved, &recipients).unwrap();
                let remainder = t.get_remaining_balance(above);
                assert_eq!(done.treasury_balance, reserved + remainder);
                let paid: u64 = done.payouts.iter().sum();
                assert_eq!(paid, above - remainder);
                assert_eq!(done.payouts.len(), recipients.len());
            }
        }
    }
}

#[test]
fn distribution_of_the_largest_balance() {
    let t = record(&[5000, 5000]);
    let recipients = vec![key(2), key(1)];
    let done = distribute(&t, u64::MAX, 0, &recipients).unwrap();
    assert_eq!(done.treasury_balance, 1);
    assert_eq!(done.payouts, vec![u64::MAX / 2, u64::MAX / 2]);
}

#[test]
fn distribution_of_nothing_pays_nothing() {
    let t = record(&[6000, 4000]);
    let recipients = vec![key(1), key(2)];
    let done = distribute(&t, RESERVED, RESERVED, &recipients).unwrap();
    assert_eq!(done, Distribution { treasury_balance: RESERVED, payouts: vec![0, 0] });
}

#[test]
fn distribution_does_not_change_the_treasury() {
    let t = record(&[6000, 4000]);
    let before = t.clone();
    let recipients = vec![key(1), key(2)];
    distribute(&t, RESERVED + 55, RESERVED, &recipients).unwrap();
    assert_eq!(t, before);
}

#[test]
fn second_distribution_pays_nothing() {
    let t = record(&[5000, 3000, 2000]);
    let recipients = vec![key(1), key(2), key(3)];
    let first = distribute(&t, RESERVED + 10_007, RESERVED, &recipients).unwrap();
    assert_eq!(first.treasury_balance, RESERVED + 7);
    let second = distribute(&t, first.treasury_balance, RESERVED, &recipients).unwrap();
    assert_eq!(second.treasury_balance, RESERVED + 7);
    assert_eq!(second.payouts, vec![0, 0, 0]);
}

#[test]
fn wrong_number_of_recipients() {
    let t = record(&[5000, 3000, 2000]);
    for recipients in [vec![], vec![key(1), key(2)], vec![key(1), key(2), key(3), key(3)]] {
        let done = distribute(&t, RESERVED + 10, RESERVED, &recipients);
        assert_eq!(done, Err(TreasuryError::InvalidOwnersCount));
        assert_eq!(
            check_owners_count(&t, recipients.len()),
            Err(TreasuryError::InvalidOwnersCount)
        );
    }
    assert_eq!(check_owners_count(&t, 3), Ok(()));
}

#[test]
fn wrong_number_of_recipients_comes_before_the_balances() {
    let t = record(&[5000, 5000]);
    // less is held than is reserved, which nothing looks at
    let done = distribute(&t, 5, 10, &vec![key(1)]);
    assert_eq!(done, Err(TreasuryError::InvalidOwnersCount));
}

#[test]
fn recipient_that_is_no_owner() {
    let t = record(&[5000, 3000, 2000]);
    for recipients in [
        vec![key(9), key(2), key(3)],
        vec![key(1), key(9), key(3)],
        vec![key(1), key(2), key(9)],
        vec![key(9), key(9), key(9)],
    ] {
        let done = distribute(&t, RESERVED + 10_000, RESERVED, &recipients);
        assert_eq!(done, Err(TreasuryError::OwnerNotFound));
    }
}

#[test]
fn recipient_given_twice() {
    let t = record(&[5000, 3000, 2000]);
    for recipients in [
        vec![key(1), key(1), key(3)],
        vec![key(1), key(2), key(1)],
        vec![key(2), key(3), key(3)],
        vec![key(3), key(3), key(3)],
    ] {
        let done = distribute(&t, RESERVED + 10_000, RESERVED, &recipients);
        assert_eq!(done, Err(TreasuryError::DuplicateOwner));
    }
}

#[test]
fn the_first_recipient_that_is_rejected_decides() {
    let t = record(&[5000, 3000, 2000]);
    let done = distribute(&t, 10_000, 0, &vec![key(1), key(1), key(9)]);
    assert_eq!(done, Err(TreasuryError::DuplicateOwner));
    let done = distribute(&t, 10_000, 0, &vec![key(9), key(1), key(1)]);
    assert_eq!(done, Err(TreasuryError::OwnerNotFound));
    let done = distribute(&t, 10_000, 0, &vec![key(9), key(9), key(1)]);
    assert_eq!(done, Err(TreasuryError::OwnerNotFound));
}

#[test]
fn owners_with_one_address_cannot_both_be_paid() {
    let owners = vec![
        TreasuryOwner { address: key(1), share_bps: 4000 },
        TreasuryOwner { address: key(1), share_bps: 6000 },
    ];
    let t = create_treasury(owners, key(100), key(101)).unwrap();
    let done = distribute(&t, 10_000, 0, &vec![key(1), key(1)]);
    assert_eq!(done, Err(TreasuryError::DuplicateOwner));
}

#[test]
fn set_closeable_changes_the_flag_alone() {
    let mut t = record(&[5000, 3000, 2000]);
    let before = t.clone();
    set_treasury_is_closeable(&mut t);
    assert!(t.is_closeable);
    assert_eq!(t.authority, before.authority);
    assert_eq!(t.payer, before.payer);
    assert_eq!(t.owners, before.owners);
    set_treasury_is_closeable(&mut t);
    assert!(t.is_closeable);
}

#[test]
fn close_needs_the_mark() {
    let mut t = record(&[5000, 3000, 2000]);
    assert_eq!(check_closeable(&t), Err(TreasuryError::TreasuryIsNotCloseable));
    assert_eq!(close_treasury(&t, RESERVED, RESERVED), Err(TreasuryError::TreasuryIsNotCloseable));
    assert_eq!(
        close_treasury(&t, RESERVED + 50, RESERVED),
        Err(TreasuryError::TreasuryIsNotCloseable)
    );
    // not closeable comes before the balances are looked at
    assert_eq!(close_treasury(&t, 5, 10), Err(TreasuryError::TreasuryIsNotCloseable));
    set_treasury_is_closeable(&mut t);
    assert_eq!(check_closeable(&t), Ok(()));
    assert_eq!(
        close_treasury(&t, RESERVED, RESERVED),
        Ok(Refund { payer: key(101), lamports: RESERVED })
    );
}

#[test]
fn close_needs_all_funds_distributed() {
    let mut t = record(&[5000, 3000, 2000]);
    set_treasury_is_closeable(&mut t);
    for above in [0u64, 1, 9] {
        let closed = close_treasury(&t, RESERVED + above, RESERVED);
        assert_eq!(closed, Ok(Refund { payer: t.payer, lamports: RESERVED + above }));
    }
    for above in [10u64, 11, 10_003, u64::MAX - RESERVED] {
        assert_eq!(
            close_treasury(&t, RESERVED + above, RESERVED),
            Err(TreasuryError::TreasuryIsNotEmpty)
        );
    }
}

#[test]
fn close_succeeds_after_a_distribution() {
    let mut t = record(&[3333, 3333, 3334]);
    set_treasury_is_closeable(&mut t);
    let recipients = vec![key(1), key(2), key(3)];
    let balance = RESERVED + 1_234_567;
    assert_eq!(close_treasury(&t, balance, RESERVED), Err(TreasuryError::TreasuryIsNotEmpty));
    let done = distribute(&t, balance, RESERVED, &recipients).unwrap();
    assert_eq!(done.treasury_balance, RESERVED + 4567);
    assert_eq!(
        close_treasury(&t, done.treasury_balance, RESERVED),
        Ok(Refund { payer: key(101), lamports: RESERVED + 4567 })
    );
}

#[test]
fn single_owner_takes_all() {
    let mut t = record(&[10000]);
    let done = distribute(&t, RESERVED + 77, RESERVED, &vec![key(1)]).unwrap();
    assert_eq!(done, Distribution { treasury_balance: RESERVED, payouts: vec![77] });
    set_treasury_is_closeable(&mut t);
    assert_eq!(close_treasury(&t, RESERVED + 1, RESERVED), Err(TreasuryError::TreasuryIsNotEmpty));
    assert_eq!(
        close_treasury(&t, RESERVED, RESERVED),
        Ok(Refund { payer: key(101), lamports: RESERVED })
    );
}
