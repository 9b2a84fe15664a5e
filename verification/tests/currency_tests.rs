use dico_pallets::currency::{
    BalanceStatus, CurrencyError, ExistenceRequirement, Ledger, ReservableCurrency, WithdrawReasons,
};

fn funded() -> Ledger {
    let mut l = Ledger::new();
    l.deposit_creating(1, 100).unwrap();
    l.deposit_creating(2, 50).unwrap();
    l
}

#[test]
fn reserve_and_unreserve() {
    let mut l = funded();
    l.reserve(1, 30).unwrap();
    assert_eq!(l.free_balance(1), 70);
    assert_eq!(l.reserved_balance(1), 30);
    assert_eq!(l.reserve(1, 71), Err(CurrencyError::InsufficientBalance));
    assert_eq!(l.free_balance(1), 70);
    // Unreserving more than is reserved moves what there is and gives back the rest.
    assert_eq!(l.unreserve(1, 40), 10);
    assert_eq!(l.free_balance(1), 100);
    assert_eq!(l.reserved_balance(1), 0);
}

#[test]
fn unreserve_undoes_reserve() {
    let mut l = funded();
    l.reserve(2, 20).unwrap();
    assert_eq!(l.unreserve(2, 20), 0);
    assert_eq!(l.free_balance(2), 50);
    assert_eq!(l.reserved_balance(2), 0);
}

#[test]
fn repatriate_to_free_and_reserved() {
    let mut l = funded();
    l.reserve(1, 30).unwrap();
    assert_eq!(l.repatriate_reserved(1, 2, 10, BalanceStatus::Free), Ok(0));
    assert_eq!(l.reserved_balance(1), 20);
    assert_eq!(l.free_balance(2), 60);
    assert_eq!(l.repatriate_reserved(1, 2, 25, BalanceStatus::Reserved), Ok(5));
    assert_eq!(l.reserved_balance(1), 0);
    assert_eq!(l.reserved_balance(2), 20);
}

#[test]
fn withdraw_and_transfer() {
    let mut l = funded();
    l.withdraw(1, 40, WithdrawReasons::Transfer, ExistenceRequirement::AllowDeath).unwrap();
    assert_eq!(l.free_balance(1), 60);
    assert_eq!(
        l.withdraw(1, 61, WithdrawReasons::Fee, ExistenceRequirement::KeepAlive),
        Err(CurrencyError::InsufficientBalance)
    );
    l.transfer(1, 3, 60, ExistenceRequirement::AllowDeath).unwrap();
    assert_eq!(l.free_balance(1), 0);
    assert_eq!(l.free_balance(3), 60);
    assert_eq!(l.transfer(1, 3, 1, ExistenceRequirement::AllowDeath), Err(CurrencyError::InsufficientBalance));
}

#[test]
fn deposit_creating_refuses_overflow() {
    let mut l = Ledger::new();
    l.deposit_creating(9, u128::MAX).unwrap();
    assert_eq!(l.deposit_creating(9, 1), Err(CurrencyError::Overflow));
    assert_eq!(l.free_balance(9), u128::MAX);
    assert_eq!(l.free_balance(8), 0);
}
