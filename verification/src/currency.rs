//! Balances of accounts as the pallets see them: a free part and a part held in reserve.
//!
//! The pallets are generic over the runtime's currency; [`ReservableCurrency`] is
//! what they need of it. Each operation is a function of the balances before the
//! call, which an implementation names in its `*_outcome` spec functions.
//! [`Ledger`] is an implementation held in memory.

use std::collections::HashMap;
use vstd::prelude::*;

verus! {

/// An account on chain.
pub type AccountId = u64;

/// An amount of the native currency.
pub type Balance = u128;

/// The two parts of an account's balance.
#[derive(Clone, Copy, Debug, PartialEq, Eq, Structural)]
pub struct AccountData {
    pub free: Balance,
    pub reserved: Balance,
}

/// Why a currency operation was refused.
#[derive(Clone, Copy, Debug, PartialEq, Eq, Structural)]
pub enum CurrencyError {
    /// The free balance is lower than the amount asked for.
    InsufficientBalance,
    /// The account that receives the amount could not hold it.
    Overflow,
}

/// Which part of the beneficiary's balance repatriated funds go to.
#[derive(Clone, Copy, Debug, PartialEq, Eq, Structural)]
pub enum BalanceStatus {
    Free,
    Reserved,
}

/// Whether an operation may leave the account with nothing.
#[derive(Clone, Copy, Debug, PartialEq, Eq, Structural)]
pub enum ExistenceRequirement {
    KeepAlive,
    AllowDeath,
}

/// What a withdrawal pays for.
#[derive(Clone, Copy, Debug, PartialEq, Eq, Structural)]
pub enum WithdrawReasons {
    Fee,
    Transfer,
}

/// A currency whose balances can be moved in and out of reserve.
pub trait ReservableCurrency {
    /// The balances of all accounts.
    spec fn balances(&self) -> Map<AccountId, AccountData>;

    /// Balances after `reserve(who, value)`, and its result.
    spec fn reserve_outcome(b: Map<AccountId, AccountData>, who: AccountId, value: Balance) -> (Map<AccountId, AccountData>, Result<(), CurrencyError>);

    /// Balances after `unreserve(who, value)`, and the part of `value` that was not unreserved.
    spec fn unreserve_outcome(b: Map<AccountId, AccountData>, who: AccountId, value: Balance) -> (Map<AccountId, AccountData>, Balance);

    /// Balances after `repatriate_reserved(slashed, beneficiary, value, status)`, and its result.
    spec fn repatriate_outcome(
        b: Map<AccountId, AccountData>,
        slashed: AccountId,
        beneficiary: AccountId,
        value: Balance,
        status: BalanceStatus,
    ) -> (Map<AccountId, AccountData>, Result<Balance, CurrencyError>);

    /// Balances after `withdraw(who, value, reasons, liveness)`, and its result.
    spec fn withdraw_outcome(
        b: Map<AccountId, AccountData>,
        who: AccountId,
        value: Balance,
        reasons: WithdrawReasons,
        liveness: ExistenceRequirement,
    ) -> (Map<AccountId, AccountData>, Result<(), CurrencyError>);

    /// Balances after `transfer(source, dest, value, existence)`, and its result.
    spec fn transfer_outcome(
        b: Map<AccountId, AccountData>,
        source: AccountId,
        dest: AccountId,
        value: Balance,
        existence: ExistenceRequirement,
    ) -> (Map<AccountId, AccountData>, Result<(), CurrencyError>);

    /// Unreserving what was just reserved gives every account back what it had.
    proof fn law_unreserve_undoes_reserve(b: Map<AccountId, AccountData>, who: AccountId, value: Balance)
        requires
            Self::reserve_outcome(b, who, value).1 is Ok,
        ensures
            Self::unreserve_outcome(Self::reserve_outcome(b, who, value).0, who, value).1 == 0,
            forall|a: AccountId| #[trigger] account_of(Self::unreserve_outcome(Self::reserve_outcome(b, who, value).0, who, value).0, a)
                == account_of(b, a),
    ;

    /// Unreserving nothing changes no balance.
    proof fn law_unreserve_nothing(b: Map<AccountId, AccountData>, who: AccountId)
        ensures
            Self::unreserve_outcome(b, who, 0).1 == 0,
            forall|a: AccountId| #[trigger] account_of(Self::unreserve_outcome(b, who, 0).0, a) == account_of(b, a),
    ;

    /// Repatriating reserved funds only moves funds from `slashed` to
    /// `beneficiary`: what the two hold together is kept, `slashed` holds no more
    /// than before, and every other account is left as it was.
    proof fn law_repatriate_moves(
        b: Map<AccountId, AccountData>,
        slashed: AccountId,
        beneficiary: AccountId,
        value: Balance,
        status: BalanceStatus,
    )
        ensures
            moved_between(b, Self::repatriate_outcome(b, slashed, beneficiary, value, status).0, slashed, beneficiary),
    ;

    /// Unreserving changes no account's whole balance.
    proof fn law_unreserve_moves(b: Map<AccountId, AccountData>, who: AccountId, value: Balance)
        ensures
            moved_between(b, Self::unreserve_outcome(b, who, value).0, who, who),
    ;

    /// Moves `value` from the free balance of `who` to its reserved balance.
    fn reserve(&mut self, who: AccountId, value: Balance) -> (r: Result<(), CurrencyError>)
        ensures
            (final(self).balances(), r) == Self::reserve_outcome(old(self).balances(), who, value),
    ;

    /// Moves up to `value` from the reserved balance of `who` to its free balance;
    /// gives back what could not be moved.
    fn unreserve(&mut self, who: AccountId, value: Balance) -> (r: Balance)
        ensures
            (final(self).balances(), r) == Self::unreserve_outcome(old(self).balances(), who, value),
    ;

    /// Moves up to `value` from the reserved balance of `slashed` to the balance of
    /// `beneficiary` named by `status`; gives back what could not be moved.
    fn repatriate_reserved(
        &mut self,
        slashed: AccountId,
        beneficiary: AccountId,
        value: Balance,
        status: BalanceStatus,
    ) -> (r: Result<Balance, CurrencyError>)
        ensures
            (final(self).balances(), r) == Self::repatriate_outcome(old(self).balances(), slashed, beneficiary, value, status),
    ;

    /// Removes `value` from the free balance of `who`.
    fn withdraw(
        &mut self,
        who: AccountId,
        value: Balance,
        reasons: WithdrawReasons,
        liveness: ExistenceRequirement,
    ) -> (r: Result<(), CurrencyError>)
        ensures
            (final(self).balances(), r) == Self::withdraw_outcome(old(self).balances(), who, value, reasons, liveness),
    ;

    /// Moves `value` from the free balance of `source` to the free balance of `dest`.
    fn transfer(
        &mut self,
        source: AccountId,
        dest: AccountId,
        value: Balance,
        existence: ExistenceRequirement,
    ) -> (r: Result<(), CurrencyError>)
        ensures
            (final(self).balances(), r) == Self::transfer_outcome(old(self).balances(), source, dest, value, existence),
    ;
}

/// The balance of `who`, zero where it has none.
pub open spec fn account_of(b: Map<AccountId, AccountData>, who: AccountId) -> AccountData {
    if b.contains_key(who) { b[who] } else { AccountData { free: 0, reserved: 0 } }
}

/// The whole balance of `who`, free and reserved.
pub open spec fn total_of(b: Map<AccountId, AccountData>, who: AccountId) -> int {
    account_of(b, who).free + account_of(b, who).reserved
}

/// Whether going from `b0` to `b1` only moves funds from `x` to `y`: what the two
/// hold together is kept, `x` holds no more than before, and every other account
/// is left as it was.
pub open spec fn moved_between(b0: Map<AccountId, AccountData>, b1: Map<AccountId, AccountData>, x: AccountId, y: AccountId) -> bool {
    &&& (if x == y {
        total_of(b1, x) == total_of(b0, x)
    } else {
        total_of(b1, x) + total_of(b1, y) == total_of(b0, x) + total_of(b0, y)
    })
    &&& total_of(b1, x) <= total_of(b0, x)
    &&& forall|a: AccountId| a != x && a != y ==> #[trigger] account_of(b1, a) == account_of(b0, a)
}

pub open spec fn min_balance(a: Balance, b: Balance) -> Balance {
    if a <= b { a } else { b }
}

/// Balances kept in memory, with no existential deposit and no locks.
pub struct Ledger {
    accounts: HashMap<AccountId, AccountData>,
}

impl Ledger {
    /// `deposit_creating(who, value)`: balances after it, and its result.
    pub open spec fn deposit_outcome(b: Map<AccountId, AccountData>, who: AccountId, value: Balance) -> (Map<AccountId, AccountData>, Result<(), CurrencyError>) {
        let a = account_of(b, who);
        if a.free + value > u128::MAX {
            (b, Err(CurrencyError::Overflow))
        } else {
            (b.insert(who, AccountData { free: (a.free + value) as Balance, reserved: a.reserved }), Ok(()))
        }
    }

    /// A ledger where no account holds anything.
    pub fn new() -> (l: Ledger)
        ensures
            l.balances() == Map::<AccountId, AccountData>::empty(),
    {
        Ledger { accounts: HashMap::new() }
    }

    fn get_account(&self, who: AccountId) -> (a: AccountData)
        ensures
            a == account_of(self.accounts@, who),
    {
        match self.accounts.get(&who) {
            Some(a) => *a,
            None => AccountData { free: 0, reserved: 0 },
        }
    }

    fn set_account(&mut self, who: AccountId, a: AccountData)
        ensures
            final(self).accounts@ == old(self).accounts@.insert(who, a),
    {
        self.accounts.insert(who, a);
    }

    /// Adds `value` to the free balance of `who`, unless `who` could not hold it.
    pub fn deposit_creating(&mut self, who: AccountId, value: Balance) -> (r: Result<(), CurrencyError>)
        ensures
            (final(self).balances(), r) == Self::deposit_outcome(old(self).balances(), who, value),
    {
        let a = self.get_account(who);
        if value > u128::MAX - a.free {
            return Err(CurrencyError::Overflow);
        }
        self.set_account(who, AccountData { free: a.free + value, reserved: a.reserved });
        Ok(())
    }

    /// The free balance of `who`.
    pub fn free_balance(&self, who: AccountId) -> (r: Balance)
        ensures
            r == account_of(self.balances(), who).free,
    {
        self.get_account(who).free
    }

    /// The reserved balance of `who`.
    pub fn reserved_balance(&self, who: AccountId) -> (r: Balance)
        ensures
            r == account_of(self.balances(), who).reserved,
    {
        self.get_account(who).reserved
    }
}

impl ReservableCurrency for Ledger {
    closed spec fn balances(&self) -> Map<AccountId, AccountData> {
        self.accounts@
    }

    open spec fn reserve_outcome(b: Map<AccountId, AccountData>, who: AccountId, value: Balance) -> (Map<AccountId, AccountData>, Result<(), CurrencyError>) {
        let a = account_of(b, who);
        if a.free < value {
            (b, Err(CurrencyError::InsufficientBalance))
        } else if a.reserved + value > u128::MAX {
            (b, Err(CurrencyError::Overflow))
        } else {
            (b.insert(who, AccountData { free: (a.free - value) as Balance, reserved: (a.reserved + value) as Balance }), Ok(()))
        }
    }

    open spec fn unreserve_outcome(b: Map<AccountId, AccountData>, who: AccountId, value: Balance) -> (Map<AccountId, AccountData>, Balance) {
        let a = account_of(b, who);
        let moved = min_balance(min_balance(value, a.reserved), (u128::MAX - a.free) as Balance);
        (b.insert(who, AccountData { free: (a.free + moved) as Balance, reserved: (a.reserved - moved) as Balance }), (value - moved) as Balance)
    }

    open spec fn repatriate_outcome(
        b: Map<AccountId, AccountData>,
        slashed: AccountId,
        beneficiary: AccountId,
        value: Balance,
        status: BalanceStatus,
    ) -> (Map<AccountId, AccountData>, Result<Balance, CurrencyError>) {
        let s = account_of(b, slashed);
        let moved = min_balance(value, s.reserved);
        if slashed == beneficiary {
            match status {
                BalanceStatus::Free => {
                    let freed = min_balance(moved, (u128::MAX - s.free) as Balance);
                    (b.insert(slashed, AccountData { free: (s.free + freed) as Balance, reserved: (s.reserved - freed) as Balance }), Ok((value - freed) as Balance))
                },
                BalanceStatus::Reserved => (b, Ok((value - moved) as Balance)),
            }
        } else {
            let t = account_of(b, beneficiary);
            let full = match status {
                BalanceStatus::Free => t.free + moved > u128::MAX,
                BalanceStatus::Reserved => t.reserved + moved > u128::MAX,
            };
            if full {
                (b, Err(CurrencyError::Overflow))
            } else {
                let b1 = b.insert(slashed, AccountData { free: s.free, reserved: (s.reserved - moved) as Balance });
                let t1 = match status {
                    BalanceStatus::Free => AccountData { free: (t.free + moved) as Balance, reserved: t.reserved },
                    BalanceStatus::Reserved => AccountData { free: t.free, reserved: (t.reserved + moved) as Balance },
                };
                (b1.insert(beneficiary, t1), Ok((value - moved) as Balance))
            }
        }
    }

    open spec fn withdraw_outcome(
        b: Map<AccountId, AccountData>,
        who: AccountId,
        value: Balance,
        reasons: WithdrawReasons,
        liveness: ExistenceRequirement,
    ) -> (Map<AccountId, AccountData>, Result<(), CurrencyError>) {
        let a = account_of(b, who);
        if a.free < value {
            (b, Err(CurrencyError::InsufficientBalance))
        } else {
            (b.insert(who, AccountData { free: (a.free - value) as Balance, reserved: a.reserved }), Ok(()))
        }
    }

    open spec fn transfer_outcome(
        b: Map<AccountId, AccountData>,
        source: AccountId,
        dest: AccountId,
        value: Balance,
        existence: ExistenceRequirement,
    ) -> (Map<AccountId, AccountData>, Result<(), CurrencyError>) {
        let s = account_of(b, source);
        let t = account_of(b, dest);
        if s.free < value {
            (b, Err(CurrencyError::InsufficientBalance))
        } else if source == dest {
            (b, Ok(()))
        } else if t.free + value > u128::MAX {
            (b, Err(CurrencyError::Overflow))
        } else {
            let b1 = b.insert(source, AccountData { free: (s.free - value) as Balance, reserved: s.reserved });
            (b1.insert(dest, AccountData { free: (t.free + value) as Balance, reserved: t.reserved }), Ok(()))
        }
    }

    proof fn law_unreserve_undoes_reserve(b: Map<AccountId, AccountData>, who: AccountId, value: Balance) {
    }

    proof fn law_unreserve_nothing(b: Map<AccountId, AccountData>, who: AccountId) {
    }

    proof fn law_repatriate_moves(
        b: Map<AccountId, AccountData>,
        slashed: AccountId,
        beneficiary: AccountId,
        value: Balance,
        status: BalanceStatus,
    ) {
        let b1 = Self::repatriate_outcome(b, slashed, beneficiary, value, status).0;
        assert forall|a: AccountId| a != slashed && a != beneficiary implies #[trigger] account_of(b1, a) == account_of(b, a) by {}
    }

    proof fn law_unreserve_moves(b: Map<AccountId, AccountData>, who: AccountId, value: Balance) {
        let b1 = Self::unreserve_outcome(b, who, value).0;
        assert forall|a: AccountId| a != who implies #[trigger] account_of(b1, a) == account_of(b, a) by {}
    }

    fn reserve(&mut self, who: AccountId, value: Balance) -> (r: Result<(), CurrencyError>) {
        let a = self.get_account(who);
        if a.free < value {
            return Err(CurrencyError::InsufficientBalance);
        }
        if value > u128::MAX - a.reserved {
            return Err(CurrencyError::Overflow);
        }
        self.set_account(who, AccountData { free: a.free - value, reserved: a.reserved + value });
        Ok(())
    }

    fn unreserve(&mut self, who: AccountId, value: Balance) -> (r: Balance) {
        let a = self.get_account(who);
        let m = if value <= a.reserved { value } else { a.reserved };
        let moved = if m <= u128::MAX - a.free { m } else { u128::MAX - a.free };
        self.set_account(who, AccountData { free: a.free + moved, reserved: a.reserved - moved });
        value - moved
    }

    fn repatriate_reserved(
        &mut self,
        slashed: AccountId,
        beneficiary: AccountId,
        value: Balance,
        status: BalanceStatus,
    ) -> (r: Result<Balance, CurrencyError>) {
        let s = self.get_account(slashed);
        let moved = if value <= s.reserved { value } else { s.reserved };
        if slashed == beneficiary {
            match status {
                BalanceStatus::Free => {
                    let freed = if moved <= u128::MAX - s.free { moved } else { u128::MAX - s.free };
                    self.set_account(slashed, AccountData { free: s.free + freed, reserved: s.reserved - freed });
                    return Ok(value - freed);
                },
                BalanceStatus::Reserved => {
                    return Ok(value - moved);
                },
            }
        }
        let t = self.get_account(beneficiary);
        let full = match status {
            BalanceStatus::Free => moved > u128::MAX - t.free,
            BalanceStatus::Reserved => moved > u128::MAX - t.reserved,
        };
        if full {
            return Err(CurrencyError::Overflow);
        }
        self.set_account(slashed, AccountData { free: s.free, reserved: s.reserved - moved });
        let t1 = match status {
            BalanceStatus::Free => AccountData { free: t.free + moved, reserved: t.reserved },
            BalanceStatus::Reserved => AccountData { free: t.free, reserved: t.reserved + moved },
        };
        self.set_account(beneficiary, t1);
        Ok(value - moved)
    }

    fn withdraw(
        &mut self,
        who: AccountId,
        value: Balance,
        reasons: WithdrawReasons,
        liveness: ExistenceRequirement,
    ) -> (r: Result<(), CurrencyError>) {
        let a = self.get_account(who);
        if a.free < value {
            return Err(CurrencyError::InsufficientBalance);
        }
        self.set_account(who, AccountData { free: a.free - value, reserved: a.reserved });
        Ok(())
    }

    fn transfer(
        &mut self,
        source: AccountId,
        dest: AccountId,
        value: Balance,
        existence: ExistenceRequirement,
    ) -> (r: Result<(), CurrencyError>) {
        let s = self.get_account(source);
        let t = self.get_account(dest);
        if s.free < value {
            return Err(CurrencyError::InsufficientBalance);
        }
        if source == dest {
            return Ok(());
        }
        if value > u128::MAX - t.free {
            return Err(CurrencyError::Overflow);
        }
        self.set_account(source, AccountData { free: s.free - value, reserved: s.reserved });
        self.set_account(dest, AccountData { free: t.free + value, reserved: t.reserved });
        Ok(())
    }
}

/// Reserving fails, and changes nothing, when the free balance is lower than the amount.
pub proof fn law_reserve_needs_free_balance(b: Map<AccountId, AccountData>, who: AccountId, value: Balance)
    requires
        account_of(b, who).free < value,
    ensures
        Ledger::reserve_outcome(b, who, value) == (b, Err::<(), CurrencyError>(CurrencyError::InsufficientBalance)),
{
}

} // verus!
