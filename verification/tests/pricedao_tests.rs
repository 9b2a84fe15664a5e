use dico_pallets::currency::{Ledger, ReservableCurrency};
use dico_pallets::pricedao::{Config, DepositBalanceInfo, Error, Event, OracleRequest, Pallet, PriceSource};
use dico_pallets::system::Origin;

const TREASURY: u64 = 99;
const POOR: u64 = 4;

fn config() -> Config {
    Config { pledged_balance: 100, treasury_account: TREASURY, withdraw_expiration_period: 10, feed_origin: Origin::Signed(50) }
}

fn ledger() -> Ledger {
    let mut l = Ledger::new();
    for who in [1u64, 2, 3] {
        l.deposit_creating(who, 1000).unwrap();
    }
    l
}

fn joined() -> (Pallet, Ledger) {
    let mut p = Pallet::new(config());
    let mut l = ledger();
    assert_eq!(
        p.insert_feed_account(&mut l, Origin::Root, vec![1, 2, POOR]),
        Ok(OracleRequest::InsertMembers(vec![1, 2]))
    );
    (p, l)
}

/// Prices from fixed tables; a swap gives `amount_in * reserve_out / reserve_in`.
struct Source {
    oracle: Vec<(u32, u128)>,
    decimals: Vec<(u32, u8)>,
    pools: Vec<((u32, u32), (u128, u128))>,
}

impl PriceSource for Source {
    fn oracle_price(&self, currency_id: u32) -> Option<u128> {
        self.oracle.iter().find(|(c, _)| *c == currency_id).map(|(_, p)| *p)
    }

    fn asset_decimals(&self, currency_id: u32) -> Option<u8> {
        self.decimals.iter().find(|(c, _)| *c == currency_id).map(|(_, d)| *d)
    }

    fn liquidity(&self, currency_id1: u32, currency_id2: u32) -> Option<(u128, u128)> {
        let key = if currency_id1 < currency_id2 { (currency_id1, currency_id2) } else { (currency_id2, currency_id1) };
        self.pools.iter().find(|(k, _)| *k == key).map(|(_, r)| *r)
    }

    fn amount_out(&self, amount_in: u128, reserve_in: u128, reserve_out: u128) -> Option<u128> {
        if reserve_in == 0 {
            None
        } else {
            Some(amount_in * reserve_out / reserve_in)
        }
    }
}

fn source() -> Source {
    Source {
        oracle: vec![(1, 777)],
        decimals: vec![(2, 2), (3, 2), (9, 39)],
        pools: vec![((2, 3), (2, 6000)), ((3, 9), (1, 1))],
    }
}

#[test]
fn insert_feed_account_pledges_deposits() {
    let (p, l) = joined();
    assert_eq!(p.deposit_balance(&1), Some(DepositBalanceInfo { amount: 100, expiration: 0 }));
    assert_eq!(p.deposit_balance(&POOR), None);
    assert_eq!(l.reserved_balance(1), 100);
    assert_eq!(l.free_balance(2), 900);
    assert_eq!(p.events().last(), Some(&Event::DepositAccounts(vec![1, 2], 100)));
}

#[test]
fn insert_feed_account_refusals() {
    let mut p = Pallet::new(config());
    let mut l = ledger();
    assert_eq!(p.insert_feed_account(&mut l, Origin::Signed(1), vec![1]), Err(Error::BadOrigin));
    assert_eq!(p.insert_feed_account(&mut l, Origin::Root, vec![POOR]), Err(Error::NoneValue));
    assert!(p.events().is_empty());
    // The configured origin may manage the feeders too.
    assert_eq!(p.insert_feed_account(&mut l, Origin::Signed(50), vec![3]), Ok(OracleRequest::InsertMembers(vec![3])));
}

#[test]
fn exit_then_withdraw_after_expiration() {
    let (mut p, mut l) = joined();
    assert_eq!(p.exit_feed(Origin::Signed(1), 5), Ok(OracleRequest::DelMembers(vec![1])));
    assert_eq!(p.deposit_balance(&1), Some(DepositBalanceInfo { amount: 100, expiration: 15 }));
    assert_eq!(p.exit_feed(Origin::Signed(1), 6), Err(Error::ExpirationNotEmpty));
    assert_eq!(p.withdraw(&mut l, Origin::Signed(1), 14), Err(Error::NotExpired));
    assert_eq!(l.reserved_balance(1), 100);
    assert_eq!(p.withdraw(&mut l, Origin::Signed(1), 15), Ok(()));
    assert_eq!(l.reserved_balance(1), 0);
    assert_eq!(l.free_balance(1), 1000);
    assert_eq!(p.deposit_balance(&1), None);
    assert_eq!(p.withdraw(&mut l, Origin::Signed(1), 16), Err(Error::NoneValue));
}

#[test]
fn exit_and_withdraw_refusals() {
    let (mut p, mut l) = joined();
    assert_eq!(p.exit_feed(Origin::Unsigned, 1), Err(Error::BadOrigin));
    assert_eq!(p.exit_feed(Origin::Signed(7), 1), Err(Error::NoneValue));
    assert_eq!(p.withdraw(&mut l, Origin::Root, 1), Err(Error::BadOrigin));
    assert_eq!(p.withdraw(&mut l, Origin::Signed(2), 100), Err(Error::ExpirationEmpty));
    assert_eq!(p.set_expiration(&9, 1), Err(Error::NoneValue));
}

#[test]
fn del_feed_account_slashes_to_treasury() {
    let (mut p, mut l) = joined();
    assert_eq!(p.del_feed_account(&mut l, Origin::Signed(1), vec![2]), Err(Error::BadOrigin));
    assert_eq!(p.del_feed_account(&mut l, Origin::Root, vec![2, 7]), Ok(OracleRequest::DelMembers(vec![2])));
    assert_eq!(l.free_balance(TREASURY), 100);
    assert_eq!(l.reserved_balance(2), 0);
    assert_eq!(l.free_balance(2), 900);
    assert_eq!(p.deposit_balance(&2), None);
    assert_eq!(p.deposit_balance(&1), Some(DepositBalanceInfo { amount: 100, expiration: 0 }));
}

#[test]
fn deposit_and_slash_report_success() {
    let mut p = Pallet::new(config());
    let mut l = ledger();
    assert!(p.deposit(&mut l, 3, 30));
    assert!(!p.deposit(&mut l, POOR, 30));
    assert!(p.slash(&mut l, 3));
    assert!(!p.slash(&mut l, 3));
    assert_eq!(l.free_balance(TREASURY), 30);
    assert_eq!(l.free_balance(3), 970);
}

#[test]
fn unlock_price_asks_the_oracle() {
    let mut p = Pallet::new(config());
    assert_eq!(p.unlock_price(Origin::Root, 5), Ok(OracleRequest::UnlockPrice(5)));
    assert_eq!(p.unlock_price(Origin::Signed(1), 5), Err(Error::BadOrigin));
    assert_eq!(p.events(), &vec![Event::UnlockPrice(5)]);
    assert_eq!(p.locked_price(&5), None);
    assert!(p.members().is_empty());
}

#[test]
fn swap_reserves_scales_by_decimals() {
    assert_eq!(Pallet::swap_reserves(2, 3, 2, (2, 6000)), (2, 60));
    assert_eq!(Pallet::swap_reserves(3, 2, 2, (2, 6000)), (6000, 0));
    assert_eq!(Pallet::swap_reserves(3, 2, 0, (2, 6000)), (6000, 2));
    assert_eq!(Pallet::swap_reserves(1, 2, 38, (5, u128::MAX)), (5, 3));
}

#[test]
fn prices_from_oracle_then_swap() {
    let s = source();
    assert_eq!(Pallet::get_price_from_oracle(&s, 1), Some(777));
    assert_eq!(Pallet::query_price(&s, 1, 2), Some(777));
    // Reserves (2, 6000 / 100): one unit swaps for 30.
    assert_eq!(Pallet::get_price_from_swap(&s, 2, 3), Some(30));
    assert_eq!(Pallet::query_price(&s, 2, 3), Some(30));
    // No decimals known for 4, too many decimals for 9.
    assert_eq!(Pallet::query_price(&s, 4, 3), None);
    assert_eq!(Pallet::query_price(&s, 9, 3), None);
}

#[test]
fn get_price_reports_or_refuses() {
    let s = source();
    let mut p = Pallet::new(config());
    assert_eq!(p.get_price(&s, Origin::Signed(1), 2, 3), Ok(()));
    assert_eq!(p.events(), &vec![Event::GetPrice(2, 30)]);
    assert_eq!(p.get_price(&s, Origin::Signed(1), 4, 3), Err(Error::DivisionByZero));
    assert_eq!(p.events().len(), 1);
}

#[test]
fn swap_reserves_from_needs_both_parts() {
    assert_eq!(Pallet::swap_reserves_from(2, 3, Some(2), Some((2, 6000))), Some((2, 60)));
    assert_eq!(Pallet::swap_reserves_from(2, 3, None, Some((2, 6000))), None);
    assert_eq!(Pallet::swap_reserves_from(2, 3, Some(2), None), None);
    assert_eq!(Pallet::swap_reserves_from(2, 3, Some(39), Some((2, 6000))), None);
}
