use kitties::{
    derive_dna, encode_dna_payload, Error, Event, ExecutionContext, Kitty, Ledger, LedgerError,
    Pallet,
};

const A: u64 = 1;
const B: u64 = 2;
const C: u64 = 3;

/// A ledger of plain balances that keeps a minimum on the payer when asked.
struct TestLedger {
    balances: Vec<(u64, u128)>,
    minimum: u128,
    calls: Vec<(u64, u64, u128, bool)>,
}

impl TestLedger {
    fn new(balances: Vec<(u64, u128)>, minimum: u128) -> TestLedger {
        TestLedger { balances, minimum, calls: Vec::new() }
    }

    fn balance(&self, who: u64) -> u128 {
        self.balances.iter().find(|(a, _)| *a == who).map(|(_, b)| *b).unwrap_or(0)
    }

    fn set(&mut self, who: u64, amount: u128) {
        match self.balances.iter_mut().find(|(a, _)| *a == who) {
            Some(entry) => entry.1 = amount,
            None => self.balances.push((who, amount)),
        }
    }
}

impl Ledger for TestLedger {
    fn transfer(
        &mut self,
        from: u64,
        to: u64,
        amount: u128,
        keep_alive: bool,
    ) -> Result<(), LedgerError> {
        self.calls.push((from, to, amount, keep_alive));
        let have = self.balance(from);
        if have < amount {
            return Err(LedgerError::FundsUnavailable);
        }
        if keep_alive && have - amount < self.minimum {
            return Err(LedgerError::BelowMinimum);
        }
        self.set(from, have - amount);
        let to_have = self.balance(to);
        self.set(to, to_have + amount);
        Ok(())
    }
}

fn dna(n: u8) -> [u8; 32] {
    [n; 32]
}

fn ctx() -> ExecutionContext {
    ExecutionContext { parent_hash: [7u8; 32], block_number: 42, extrinsic_index: Some(3) }
}

fn snapshot(p: &Pallet, ids: &[[u8; 32]], accounts: &[u64]) -> (u32, Vec<Option<Kitty>>, Vec<Vec<[u8; 32]>>, usize) {
    (
        p.count(),
        ids.iter().map(|d| p.kitty(d)).collect(),
        accounts.iter().map(|a| p.kitties_owned(*a)).collect(),
        p.events().len(),
    )
}

#[test]
fn new_registry_is_empty() {
    let p = Pallet::new(3);
    assert_eq!(p.count(), 0);
    assert_eq!(p.max_owned(), 3);
    assert_eq!(p.kitty(&dna(1)), None);
    assert!(p.kitties_owned(A).is_empty());
    assert!(p.events().is_empty());
}

#[test]
fn mint_fresh_id() {
    let mut p = Pallet::new(3);
    assert_eq!(p.mint(A, dna(1)), Ok(()));
    assert_eq!(p.count(), 1);
    assert_eq!(p.kitty(&dna(1)), Some(Kitty { dna: dna(1), owner: A, price: None }));
    assert_eq!(p.kitties_owned(A), vec![dna(1)]);
    assert_eq!(p.events(), &vec![Event::Created { owner: A }]);
    assert_eq!(p.mint(A, dna(2)), Ok(()));
    assert_eq!(p.count(), 2);
    assert_eq!(p.kitties_owned(A), vec![dna(1), dna(2)]);
}

#[test]
fn mint_duplicate_changes_nothing() {
    let mut p = Pallet::new(3);
    p.mint(A, dna(1)).unwrap();
    let before = snapshot(&p, &[dna(1)], &[A, B]);
    assert_eq!(p.mint(B, dna(1)), Err(Error::DuplicateAsset));
    assert_eq!(p.mint(A, dna(1)), Err(Error::DuplicateAsset));
    assert_eq!(snapshot(&p, &[dna(1)], &[A, B]), before);
}

#[test]
fn mint_into_full_list_changes_nothing() {
    let mut p = Pallet::new(2);
    p.mint(A, dna(1)).unwrap();
    p.mint(A, dna(2)).unwrap();
    let before = snapshot(&p, &[dna(1), dna(2), dna(3)], &[A]);
    assert_eq!(p.mint(A, dna(3)), Err(Error::TooManyOwned));
    assert_eq!(snapshot(&p, &[dna(1), dna(2), dna(3)], &[A]), before);
    assert_eq!(p.mint(B, dna(3)), Ok(()));
}

#[test]
fn mint_with_zero_capacity() {
    let mut p = Pallet::new(0);
    assert_eq!(p.mint(A, dna(1)), Err(Error::TooManyOwned));
    assert_eq!(p.count(), 0);
    assert_eq!(p.kitty(&dna(1)), None);
}

#[test]
fn transfer_moves_ownership() {
    let mut p = Pallet::new(3);
    p.mint(A, dna(1)).unwrap();
    p.mint(A, dna(2)).unwrap();
    p.mint(A, dna(3)).unwrap();
    p.mint(B, dna(4)).unwrap();
    assert_eq!(p.do_transfer(A, B, dna(1)), Ok(()));
    assert_eq!(p.count(), 4);
    assert_eq!(p.kitty(&dna(1)), Some(Kitty { dna: dna(1), owner: B, price: None }));
    // removal by swap: the last identifier takes the place of the removed one
    assert_eq!(p.kitties_owned(A), vec![dna(3), dna(2)]);
    assert_eq!(p.kitties_owned(B), vec![dna(4), dna(1)]);
    let total: usize = [A, B, C].iter().map(|a| p.kitties_owned(*a).len()).sum();
    assert_eq!(total, 4);
    assert_eq!(
        p.events().last(),
        Some(&Event::Transferred { from: A, to: B, kitty_id: dna(1) })
    );
}

#[test]
fn transfer_to_self_is_refused() {
    let mut p = Pallet::new(3);
    p.mint(A, dna(1)).unwrap();
    let before = snapshot(&p, &[dna(1)], &[A]);
    assert_eq!(p.do_transfer(A, A, dna(1)), Err(Error::TransferToSelf));
    assert_eq!(snapshot(&p, &[dna(1)], &[A]), before);
}

#[test]
fn transfer_missing_or_not_owned() {
    let mut p = Pallet::new(3);
    p.mint(A, dna(1)).unwrap();
    let before = snapshot(&p, &[dna(1), dna(9)], &[A, B, C]);
    assert_eq!(p.do_transfer(A, B, dna(9)), Err(Error::NoAsset));
    assert_eq!(p.do_transfer(B, C, dna(1)), Err(Error::NotOwner));
    assert_eq!(snapshot(&p, &[dna(1), dna(9)], &[A, B, C]), before);
}

#[test]
fn transfer_to_full_list_is_refused() {
    let mut p = Pallet::new(1);
    p.mint(A, dna(1)).unwrap();
    p.mint(B, dna(2)).unwrap();
    let before = snapshot(&p, &[dna(1), dna(2)], &[A, B]);
    assert_eq!(p.do_transfer(A, B, dna(1)), Err(Error::TooManyOwned));
    assert_eq!(snapshot(&p, &[dna(1), dna(2)], &[A, B]), before);
}

#[test]
fn set_price_by_owner_only() {
    let mut p = Pallet::new(3);
    p.mint(A, dna(1)).unwrap();
    assert_eq!(p.do_set_price(A, dna(1), Some(100)), Ok(()));
    assert_eq!(p.kitty(&dna(1)).unwrap().price, Some(100));
    assert_eq!(
        p.events().last(),
        Some(&Event::PriceSet { owner: A, kitty_id: dna(1), new_price: Some(100) })
    );
    assert_eq!(p.do_set_price(B, dna(1), Some(5)), Err(Error::NotOwner));
    assert_eq!(p.kitty(&dna(1)).unwrap().price, Some(100));
    assert_eq!(p.do_set_price(A, dna(9), Some(5)), Err(Error::NoAsset));
    assert_eq!(p.do_set_price(A, dna(1), None), Ok(()));
    assert_eq!(p.kitty(&dna(1)).unwrap().price, None);
}

#[test]
fn buy_below_price_moves_nothing() {
    let mut p = Pallet::new(3);
    p.mint(A, dna(1)).unwrap();
    p.do_set_price(A, dna(1), Some(100)).unwrap();
    let mut ledger = TestLedger::new(vec![(A, 0), (B, 1000)], 1);
    let before = snapshot(&p, &[dna(1)], &[A, B]);
    assert_eq!(p.do_buy_kitty(&mut ledger, B, dna(1), 99), Err(Error::MaxPriceTooLow));
    assert!(ledger.calls.is_empty());
    assert_eq!(ledger.balance(B), 1000);
    assert_eq!(snapshot(&p, &[dna(1)], &[A, B]), before);
}

#[test]
fn buy_unlisted_or_missing() {
    let mut p = Pallet::new(3);
    p.mint(A, dna(1)).unwrap();
    let mut ledger = TestLedger::new(vec![(B, 1000)], 1);
    assert_eq!(p.do_buy_kitty(&mut ledger, B, dna(1), 500), Err(Error::NotForSale));
    assert_eq!(p.do_buy_kitty(&mut ledger, B, dna(9), 500), Err(Error::NoAsset));
    assert!(ledger.calls.is_empty());
}

#[test]
fn buy_own_kitty_is_refused_before_payment() {
    let mut p = Pallet::new(3);
    p.mint(A, dna(1)).unwrap();
    p.do_set_price(A, dna(1), Some(10)).unwrap();
    let mut ledger = TestLedger::new(vec![(A, 1000)], 1);
    assert_eq!(p.do_buy_kitty(&mut ledger, A, dna(1), 10), Err(Error::TransferToSelf));
    assert!(ledger.calls.is_empty());
}

#[test]
fn buy_into_full_list_is_refused_before_payment() {
    let mut p = Pallet::new(1);
    p.mint(A, dna(1)).unwrap();
    p.mint(B, dna(2)).unwrap();
    p.do_set_price(A, dna(1), Some(10)).unwrap();
    let mut ledger = TestLedger::new(vec![(B, 1000)], 1);
    assert_eq!(p.do_buy_kitty(&mut ledger, B, dna(1), 10), Err(Error::TooManyOwned));
    assert!(ledger.calls.is_empty());
}

#[test]
fn buy_with_refused_payment_changes_nothing() {
    let mut p = Pallet::new(3);
    p.mint(A, dna(1)).unwrap();
    p.do_set_price(A, dna(1), Some(100)).unwrap();
    let before = snapshot(&p, &[dna(1)], &[A, B]);
    let mut poor = TestLedger::new(vec![(B, 50)], 1);
    assert_eq!(
        p.do_buy_kitty(&mut poor, B, dna(1), 150),
        Err(Error::Ledger(LedgerError::FundsUnavailable))
    );
    let mut exact = TestLedger::new(vec![(B, 100)], 1);
    assert_eq!(
        p.do_buy_kitty(&mut exact, B, dna(1), 150),
        Err(Error::Ledger(LedgerError::BelowMinimum))
    );
    assert_eq!(exact.calls, vec![(B, A, 100, true)]);
    assert_eq!(snapshot(&p, &[dna(1)], &[A, B]), before);
}

#[test]
fn quote_and_settle() {
    let mut p = Pallet::new(3);
    p.mint(A, dna(1)).unwrap();
    p.do_set_price(A, dna(1), Some(30)).unwrap();
    assert_eq!(p.buy_quote(B, dna(1), 30), Ok((A, 30)));
    assert_eq!(p.buy_quote(B, dna(1), 29), Err(Error::MaxPriceTooLow));
    assert_eq!(
        p.settle_buy(B, dna(1), Err(LedgerError::Other)),
        Err(Error::Ledger(LedgerError::Other))
    );
    assert_eq!(p.kitty(&dna(1)).unwrap().owner, A);
    assert_eq!(p.settle_buy(B, dna(1), Ok(())), Ok(()));
    assert_eq!(p.kitty(&dna(1)).unwrap().owner, B);
    assert_eq!(p.events().last(), Some(&Event::Sold { buyer: B, kitty_id: dna(1), price: 30 }));
}

#[test]
fn mint_price_and_sell_end_to_end() {
    let mut p = Pallet::new(5);
    let h = p.gen_dna(&ctx());
    assert_eq!(p.mint(A, h), Ok(()));
    assert_eq!(p.count(), 1);
    assert_eq!(p.do_set_price(A, h, Some(100)), Ok(()));
    let mut ledger = TestLedger::new(vec![(A, 0), (B, 1000)], 1);
    assert_eq!(p.do_buy_kitty(&mut ledger, B, h, 150), Ok(()));
    assert_eq!(ledger.calls, vec![(B, A, 100, true)]);
    assert_eq!(ledger.balance(B), 900);
    assert_eq!(ledger.balance(A), 100);
    assert_eq!(p.kitty(&h), Some(Kitty { dna: h, owner: B, price: Some(100) }));
    assert!(p.kitties_owned(A).is_empty());
    assert_eq!(p.kitties_owned(B), vec![h]);
    assert_eq!(p.count(), 1);
    assert_eq!(
        p.events(),
        &vec![
            Event::Created { owner: A },
            Event::PriceSet { owner: A, kitty_id: h, new_price: Some(100) },
            Event::Transferred { from: A, to: B, kitty_id: h },
            Event::Sold { buyer: B, kitty_id: h, price: 100 },
        ]
    );
}

#[test]
fn dna_payload_bytes() {
    let c = ExecutionContext {
        parent_hash: [0xab; 32],
        block_number: 0x0102_0304,
        extrinsic_index: Some(5),
    };
    let mut expected = vec![0xab; 32];
    expected.extend_from_slice(&[0x04, 0x03, 0x02, 0x01]);
    expected.extend_from_slice(&[1, 5, 0, 0, 0]);
    expected.extend_from_slice(&[0xff, 0, 0, 0]);
    assert_eq!(encode_dna_payload(&c, 255), expected);

    let none = ExecutionContext { parent_hash: [0; 32], block_number: 1, extrinsic_index: None };
    let mut expected = vec![0; 32];
    expected.extend_from_slice(&[1, 0, 0, 0, 0, 0xff, 0xff, 0xff, 0xff]);
    assert_eq!(encode_dna_payload(&none, u32::MAX), expected);
}

#[test]
fn dna_is_the_digest_of_the_payload() {
    let c = ctx();
    let d = derive_dna(&c, 0);
    assert_eq!(d, sp_crypto_hashing::blake2_256(&encode_dna_payload(&c, 0)));
    assert_ne!(&d[..], &encode_dna_payload(&c, 0)[..32]);
    assert_ne!(d, c.parent_hash);
    assert_eq!(derive_dna(&c, 0), d);
    assert_ne!(derive_dna(&c, 1), d);
}

#[test]
fn gen_dna_follows_the_counter() {
    let mut p = Pallet::new(3);
    let first = p.gen_dna(&ctx());
    assert_eq!(first, derive_dna(&ctx(), 0));
    p.mint(A, first).unwrap();
    let second = p.gen_dna(&ctx());
    assert_eq!(second, derive_dna(&ctx(), 1));
    assert_ne!(first, second);
    assert_eq!(p.mint(A, second), Ok(()));
    assert_eq!(p.mint(B, first), Err(Error::DuplicateAsset));
}
