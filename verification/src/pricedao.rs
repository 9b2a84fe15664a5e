//! The price DAO pallet: price feeders pledge a deposit to join the oracle, are
//! slashed by the council, and may leave after an expiration period; prices come
//! from the oracle or, failing that, from the swap pools.

use std::collections::HashMap;
use vstd::prelude::*;

use crate::currency::{account_of, AccountData, AccountId, Balance, ExistenceRequirement, Ledger, ReservableCurrency};
use crate::oracle::Price;
use crate::system::{allows, ensure_signed, origin_allowed, signer_of, Origin};

verus! {

/// A block number.
pub type BlockNumber = u32;

/// Identifier of a currency.
pub type CurrencyId = u32;

/// The deposit a feeder pledged, and the block from which it may be withdrawn;
/// an expiration of 0 means that none is set.
#[derive(Clone, Copy, Debug, PartialEq, Eq, Structural)]
pub struct DepositBalanceInfo {
    pub amount: Balance,
    pub expiration: BlockNumber,
}

/// What the runtime configures the pallet with.
#[derive(Clone, Copy, Debug, PartialEq, Eq)]
pub struct Config {
    /// The deposit a feeder pledges.
    pub pledged_balance: Balance,
    /// The account of the treasury, which slashed deposits go to.
    pub treasury_account: AccountId,
    /// How long a leaving feeder waits before it can withdraw its deposit.
    pub withdraw_expiration_period: BlockNumber,
    /// The origin, besides root, that may manage the feeders.
    pub feed_origin: Origin,
}

/// What the pallet asks the oracle pallet to do once a call has succeeded.
#[derive(Clone, Debug, PartialEq, Eq)]
pub enum OracleRequest {
    /// Add these accounts to the oracle's members.
    InsertMembers(Vec<AccountId>),
    /// Remove these accounts from the oracle's members.
    DelMembers(Vec<AccountId>),
    /// Unlock the price of this currency.
    UnlockPrice(CurrencyId),
}

/// Where prices come from: the oracle, the assets pallet and the swap pools.
pub trait PriceSource {
    /// The price of `currency_id` that the oracle holds, if any.
    fn oracle_price(&self, currency_id: CurrencyId) -> Option<Price>;

    /// The number of decimals of `currency_id`, if its metadata is known.
    fn asset_decimals(&self, currency_id: CurrencyId) -> Option<u8>;

    /// The reserves of the pool of the pair, the one of the lower currency id first.
    fn liquidity(&self, currency_id1: CurrencyId, currency_id2: CurrencyId) -> Option<(Balance, Balance)>;

    /// What a swap of `amount_in` gives out of a pool with these reserves, if it can be made.
    fn amount_out(&self, amount_in: Balance, reserve_in: Balance, reserve_out: Balance) -> Option<Balance>;
}

/// Why a call of the pallet was refused.
#[derive(Clone, Copy, Debug, PartialEq, Eq, Structural)]
pub enum Error {
    /// The origin may not make this call.
    BadOrigin,
    /// No price could be found: a division by zero in the runtime's terms.
    DivisionByZero,
    /// Error names should be descriptive.
    NoneValue,
    /// Errors should have helpful documentation associated with them.
    StorageOverflow,
    /// Expiration time is empty
    ExpirationEmpty,
    /// Expiration time is already set
    ExpirationNotEmpty,
    /// Not expired
    NotExpired,
}

/// What the pallet reports of the calls that succeed.
#[derive(Clone, Debug, PartialEq, Eq)]
pub enum Event {
    LockPrice(CurrencyId, Price),
    UnlockPrice(CurrencyId),
    WhoLock(AccountId),
    /// Some accounts deposit successfully
    DepositAccounts(Vec<AccountId>, Balance),
    /// slash some accounts and transfer balance to treasury
    SlashAccounts(Vec<AccountId>),
    GetPrice(CurrencyId, Price),
}

/// The storage of the pallet.
pub struct PriceDaoStorage {
    /// The members, as stored by genesis.
    pub members: Seq<AccountId>,
    /// Locked prices, as stored by genesis.
    pub locked_price: Map<CurrencyId, Price>,
    /// The deposits of the feeders.
    pub deposit_balance: Map<AccountId, DepositBalanceInfo>,
    /// The events deposited so far.
    pub events: Seq<Event>,
    /// The configuration, which no call changes.
    pub config: Config,
}

/// Deposits and balances after `who` pledges `amount`, and whether it could.
pub open spec fn deposit_step<C: ReservableCurrency>(
    b: Map<AccountId, AccountData>,
    d: Map<AccountId, DepositBalanceInfo>,
    who: AccountId,
    amount: Balance,
) -> (Map<AccountId, AccountData>, Map<AccountId, DepositBalanceInfo>, bool) {
    let (b1, reserved) = C::reserve_outcome(b, who, amount);
    if reserved is Ok {
        (b1, d.insert(who, DepositBalanceInfo { amount, expiration: 0 }), true)
    } else {
        (b1, d, false)
    }
}

/// Deposits and balances after the deposit of `who` is slashed to the treasury,
/// and whether it was.
pub open spec fn slash_step<C: ReservableCurrency>(
    b: Map<AccountId, AccountData>,
    d: Map<AccountId, DepositBalanceInfo>,
    who: AccountId,
    treasury: AccountId,
) -> (Map<AccountId, AccountData>, Map<AccountId, DepositBalanceInfo>, bool) {
    if !d.contains_key(who) {
        (b, d, false)
    } else {
        let amount = d[who].amount;
        let b1 = C::unreserve_outcome(b, who, amount).0;
        let (b2, moved) = C::transfer_outcome(b1, who, treasury, amount,
            ExistenceRequirement::AllowDeath);
        if moved is Ok {
            (b2, d.remove(who), true)
        } else {
            (b2, d, false)
        }
    }
}

/// Balances, deposits, and the accounts that pledged, after each of `accounts`
/// in turn pledges `amount`.
pub open spec fn deposit_all<C: ReservableCurrency>(
    b: Map<AccountId, AccountData>,
    d: Map<AccountId, DepositBalanceInfo>,
    accounts: Seq<AccountId>,
    amount: Balance,
) -> (Map<AccountId, AccountData>, Map<AccountId, DepositBalanceInfo>, Seq<AccountId>)
    decreases accounts.len(),
{
    if accounts.len() == 0 {
        (b, d, Seq::empty())
    } else {
        let (b0, d0, done) = deposit_all::<C>(b, d, accounts.drop_last(), amount);
        let who = accounts.last();
        let (b1, d1, ok) = deposit_step::<C>(b0, d0, who, amount);
        (b1, d1, if ok { done.push(who) } else { done })
    }
}

/// Balances, deposits, and the accounts that were slashed, after each of
/// `accounts` in turn is slashed.
pub open spec fn slash_all<C: ReservableCurrency>(
    b: Map<AccountId, AccountData>,
    d: Map<AccountId, DepositBalanceInfo>,
    accounts: Seq<AccountId>,
    treasury: AccountId,
) -> (Map<AccountId, AccountData>, Map<AccountId, DepositBalanceInfo>, Seq<AccountId>)
    decreases accounts.len(),
{
    if accounts.len() == 0 {
        (b, d, Seq::empty())
    } else {
        let (b0, d0, done) = slash_all::<C>(b, d, accounts.drop_last(), treasury);
        let who = accounts.last();
        let (b1, d1, ok) = slash_step::<C>(b0, d0, who, treasury);
        (b1, d1, if ok { done.push(who) } else { done })
    }
}

/// `10^e`.
pub open spec fn pow10(e: nat) -> nat
    decreases e,
{
    if e == 0 { 1 } else { 10 * pow10((e - 1) as nat) }
}

/// The reserves a swap price is read from: the reserve of `currency_id1` as the
/// input, and the reserve of `currency_id2` in whole units of `currency_id1`'s
/// decimals as the output.
pub open spec fn swap_reserves_of(
    currency_id1: CurrencyId,
    currency_id2: CurrencyId,
    decimals: u8,
    liquidity: (Balance, Balance),
) -> (Balance, Balance) {
    let unit = pow10(decimals as nat);
    if currency_id1 < currency_id2 {
        (liquidity.0, (liquidity.1 as nat / unit) as Balance)
    } else {
        (liquidity.1, (liquidity.0 as nat / unit) as Balance)
    }
}

/// The reserves a swap price is read from, given the decimals of `currency_id1`
/// and the liquidity of the pool as far as they are known: none when either is
/// missing or when the decimals exceed 38.
pub open spec fn swap_reserves_opt(
    currency_id1: CurrencyId,
    currency_id2: CurrencyId,
    decimals: Option<u8>,
    liquidity: Option<(Balance, Balance)>,
) -> Option<(Balance, Balance)> {
    match (decimals, liquidity) {
        (Some(d), Some(l)) => if d <= 38 {
            Some(swap_reserves_of(currency_id1, currency_id2, d, l))
        } else {
            None
        },
        _ => None,
    }
}

/// Whether `r` is what the oracle of `source` answers when asked for the price of
/// `currency_id`.
pub open spec fn oracle_answer<S: PriceSource>(source: &S, currency_id: CurrencyId, r: Option<Price>) -> bool {
    call_ensures(S::oracle_price, (source, currency_id), r)
}

/// Whether `r` is a price of `currency_id1` in `currency_id2` that the swap pool
/// of `source` gives: the decimals of `currency_id1` are asked for, then, if
/// known, the liquidity of the pool; from the reserves these give, if any, the
/// price is what a swap of one unit gives out, and none otherwise.
pub open spec fn swap_answer<S: PriceSource>(
    source: &S,
    currency_id1: CurrencyId,
    currency_id2: CurrencyId,
    r: Option<Price>,
) -> bool {
    exists|decimals: Option<u8>| {
        &&& #[trigger] call_ensures(S::asset_decimals, (source, currency_id1), decimals)
        &&& match decimals {
            None => r == None::<Price>,
            Some(_) => exists|liquidity: Option<(Balance, Balance)>| {
                &&& #[trigger] call_ensures(S::liquidity, (source, currency_id1, currency_id2), liquidity)
                &&& match swap_reserves_opt(currency_id1, currency_id2, decimals, liquidity) {
                    None => r == None::<Price>,
                    Some(reserves) => call_ensures(S::amount_out, (source, 1u128, reserves.0, reserves.1), r),
                }
            },
        }
    }
}

/// Whether `r` is the price of `currency_id1` in `currency_id2` that `source`
/// gives: the oracle's price if it answers with one, else the swap price.
pub open spec fn price_answer<S: PriceSource>(
    source: &S,
    currency_id1: CurrencyId,
    currency_id2: CurrencyId,
    r: Option<Price>,
) -> bool {
    exists|o: Option<Price>| {
        &&& #[trigger] oracle_answer(source, currency_id1, o)
        &&& match o {
            Some(p) => r == Some(p),
            None => swap_answer(source, currency_id1, currency_id2, r),
        }
    }
}

/// The outcome of reporting the price of `currency_id1` in `currency_id2` that
/// `source` gives: refused with `DivisionByZero` when there is none, else the
/// price reported in a `GetPrice` event.
pub open spec fn get_price_outcome<S: PriceSource>(
    source: &S,
    old: PriceDaoStorage,
    new: PriceDaoStorage,
    currency_id1: CurrencyId,
    currency_id2: CurrencyId,
    r: Result<(), Error>,
) -> bool {
    exists|a: Option<Price>| {
        &&& #[trigger] price_answer(source, currency_id1, currency_id2, a)
        &&& match a {
            None => r == Err::<(), Error>(Error::DivisionByZero) && new == old,
            Some(p) => r == Ok::<(), Error>(()) && new == (PriceDaoStorage {
                events: old.events.push(Event::GetPrice(currency_id1, p)),
                ..old
            }),
        }
    }
}

/// Whether the expiration that leaving at block `now` would set for `who` fits in
/// a block number; nothing is asked when no expiration would be set.
pub open spec fn expiration_fits(s: PriceDaoStorage, who: AccountId, now: BlockNumber) -> bool {
    s.deposit_balance.contains_key(who) && s.deposit_balance[who].expiration == 0
        ==> now + s.config.withdraw_expiration_period <= u32::MAX
}

/// The outcome of the feeder signing `origin` leaving at block `now`.
pub open spec fn exit_feed_outcome(
    old: PriceDaoStorage,
    new: PriceDaoStorage,
    origin: Origin,
    now: BlockNumber,
    r: Result<OracleRequest, Error>,
) -> bool {
    match signer_of(origin) {
        None => r == Err::<OracleRequest, Error>(Error::BadOrigin) && new == old,
        Some(who) => {
            let d = old.deposit_balance;
            if !d.contains_key(who) {
                r == Err::<OracleRequest, Error>(Error::NoneValue) && new == old
            } else if d[who].expiration != 0 {
                r == Err::<OracleRequest, Error>(Error::ExpirationNotEmpty) && new == old
            } else {
                &&& r matches Ok(OracleRequest::DelMembers(gone)) && gone@ == seq![who]
                &&& new == (PriceDaoStorage {
                    deposit_balance: d.insert(who, DepositBalanceInfo {
                        expiration: (now + old.config.withdraw_expiration_period) as BlockNumber,
                        ..d[who]
                    }),
                    ..old
                })
            }
        },
    }
}

/// The outcome of the feeder signing `origin` withdrawing its deposit at block `now`.
pub open spec fn withdraw_outcome<C: ReservableCurrency>(
    old: PriceDaoStorage,
    new: PriceDaoStorage,
    b_old: Map<AccountId, AccountData>,
    b_new: Map<AccountId, AccountData>,
    origin: Origin,
    now: BlockNumber,
    r: Result<(), Error>,
) -> bool {
    match signer_of(origin) {
        None => r == Err::<(), Error>(Error::BadOrigin) && new == old
            && b_new == b_old,
        Some(who) => {
            let d = old.deposit_balance;
            if !d.contains_key(who) {
                r == Err::<(), Error>(Error::NoneValue) && new == old
                    && b_new == b_old
            } else if d[who].expiration == 0 {
                r == Err::<(), Error>(Error::ExpirationEmpty) && new == old
                    && b_new == b_old
            } else if now < d[who].expiration {
                r == Err::<(), Error>(Error::NotExpired) && new == old
                    && b_new == b_old
            } else {
                &&& r == Ok::<(), Error>(())
                &&& b_new == C::unreserve_outcome(b_old, who, d[who].amount).0
                &&& new == (PriceDaoStorage { deposit_balance: d.remove(who), ..old })
            }
        },
    }
}

/// A copy of a list of accounts.
pub fn copy_accounts(v: &Vec<AccountId>) -> (r: Vec<AccountId>)
    ensures
        r@ == v@,
{
    let mut r: Vec<AccountId> = Vec::new();
    let n = v.len();
    let mut i: usize = 0;
    while i < n
        invariant
            n == v@.len(),
            i <= n,
            r@ == v@.take(i as int),
        decreases n - i,
    {
        r.push(v[i]);
        proof { assert(r@ =~= v@.take(i + 1)); }
        i = i + 1;
    }
    assert(v@.take(n as int) =~= v@);
    r
}

/// The price DAO pallet: its storage, which the calls change.
pub struct Pallet {
    members: Vec<AccountId>,
    locked_price: HashMap<CurrencyId, Price>,
    deposit_balance: HashMap<AccountId, DepositBalanceInfo>,
    events: Vec<Event>,
    config: Config,
}

impl Pallet {
    /// The storage of the pallet.
    pub closed spec fn storage(&self) -> PriceDaoStorage {
        PriceDaoStorage {
            members: self.members@,
            locked_price: self.locked_price@,
            deposit_balance: self.deposit_balance@,
            events: self.events@,
            config: self.config,
        }
    }

    /// The pallet at genesis with the configuration `config`: nothing stored.
    pub fn new(config: Config) -> (p: Self)
        ensures
            p.storage() == (PriceDaoStorage {
                members: Seq::empty(),
                locked_price: Map::empty(),
                deposit_balance: Map::empty(),
                events: Seq::empty(),
                config,
            }),
    {
        Pallet {
            members: Vec::new(),
            locked_price: HashMap::new(),
            deposit_balance: HashMap::new(),
            events: Vec::new(),
            config,
        }
    }

    fn deposit_event(&mut self, e: Event)
        ensures
            final(self).storage() == (PriceDaoStorage { events: old(self).storage().events.push(e), ..old(self).storage() }),
    {
        self.events.push(e);
    }

    /// Holds `deposit_balance` of `who` in reserve and records it as its deposit,
    /// with no expiration; gives whether the currency could hold it.
    pub fn deposit<C: ReservableCurrency>(&mut self, currency: &mut C, who: AccountId, deposit_balance: Balance) -> (r: bool)
        ensures
            ({
                let (b, d, ok) = deposit_step::<C>(old(currency).balances(), old(self).storage().deposit_balance, who, deposit_balance);
                &&& final(currency).balances() == b
                &&& r == ok
                &&& final(self).storage() == (PriceDaoStorage { deposit_balance: d, ..old(self).storage() })
            }),
    {
        match currency.reserve(who, deposit_balance) {
            Ok(()) => {
                self.deposit_balance.insert(who, DepositBalanceInfo { amount: deposit_balance, expiration: 0 });
                true
            },
            Err(_) => false,
        }
    }

    /// Sets the block from which the feeder `who` may withdraw its deposit: the
    /// expiration period after `now`.
    pub fn set_expiration(&mut self, who: &AccountId, now: BlockNumber) -> (r: Result<(), Error>)
        requires
            expiration_fits(old(self).storage(), *who, now),
        ensures
            ({
                let d = old(self).storage().deposit_balance;
                if !d.contains_key(*who) {
                    r == Err::<(), Error>(Error::NoneValue) && final(self).storage() == old(self).storage()
                } else if d[*who].expiration != 0 {
                    r == Err::<(), Error>(Error::ExpirationNotEmpty) && final(self).storage() == old(self).storage()
                } else {
                    r == Ok::<(), Error>(()) && final(self).storage() == (PriceDaoStorage {
                        deposit_balance: d.insert(*who, DepositBalanceInfo {
                            expiration: (now + old(self).storage().config.withdraw_expiration_period) as BlockNumber,
                            ..d[*who]
                        }),
                        ..old(self).storage()
                    })
                }
            }),
    {
        let info = match self.deposit_balance.get(who) {
            Some(info) => *info,
            None => {
                return Err(Error::NoneValue);
            },
        };
        if info.expiration != 0 {
            return Err(Error::ExpirationNotEmpty);
        }
        let expiration = now + self.config.withdraw_expiration_period;
        self.deposit_balance.insert(*who, DepositBalanceInfo { expiration, ..info });
        Ok(())
    }

    /// Slashes the deposit of `who` to the treasury; gives whether it was.
    pub fn slash<C: ReservableCurrency>(&mut self, currency: &mut C, who: AccountId) -> (r: bool)
        ensures
            ({
                let (b, d, ok) = slash_step::<C>(old(currency).balances(), old(self).storage().deposit_balance, who,
                    old(self).storage().config.treasury_account);
                &&& final(currency).balances() == b
                &&& r == ok
                &&& final(self).storage() == (PriceDaoStorage { deposit_balance: d, ..old(self).storage() })
            }),
    {
        let info = match self.deposit_balance.get(&who) {
            Some(info) => *info,
            None => {
                return false;
            },
        };
        let _ = currency.unreserve(who, info.amount);
        match currency.transfer(who, self.config.treasury_account, info.amount, ExistenceRequirement::AllowDeath) {
            Ok(()) => {
                self.deposit_balance.remove(&who);
                true
            },
            Err(_) => false,
        }
    }

    /// Gives back the deposit of the feeder `who` once its expiration is reached.
    pub fn do_withdraw<C: ReservableCurrency>(&mut self, currency: &mut C, who: &AccountId, now: BlockNumber) -> (r: Result<(), Error>)
        ensures
            ({
                let d = old(self).storage().deposit_balance;
                if !d.contains_key(*who) {
                    r == Err::<(), Error>(Error::NoneValue) && final(self).storage() == old(self).storage()
                        && final(currency).balances() == old(currency).balances()
                } else if d[*who].expiration == 0 {
                    r == Err::<(), Error>(Error::ExpirationEmpty) && final(self).storage() == old(self).storage()
                        && final(currency).balances() == old(currency).balances()
                } else if now < d[*who].expiration {
                    r == Err::<(), Error>(Error::NotExpired) && final(self).storage() == old(self).storage()
                        && final(currency).balances() == old(currency).balances()
                } else {
                    &&& r == Ok::<(), Error>(())
                    &&& final(currency).balances() == C::unreserve_outcome(old(currency).balances(), *who, d[*who].amount).0
                    &&& final(self).storage() == (PriceDaoStorage { deposit_balance: d.remove(*who), ..old(self).storage() })
                }
            }),
    {
        let info = match self.deposit_balance.get(who) {
            Some(info) => *info,
            None => {
                return Err(Error::NoneValue);
            },
        };
        if info.expiration == 0 {
            return Err(Error::ExpirationEmpty);
        }
        if now < info.expiration {
            return Err(Error::NotExpired);
        }
        let _ = currency.unreserve(*who, info.amount);
        self.deposit_balance.remove(who);
        Ok(())
    }

    /// The council slashes the deposits of `accounts`, in turn; the oracle is to
    /// remove those slashed from its members.
    pub fn del_feed_account<C: ReservableCurrency>(
        &mut self,
        currency: &mut C,
        origin: Origin,
        accounts: Vec<AccountId>,
    ) -> (r: Result<OracleRequest, Error>)
        ensures
            !allows(old(self).storage().config.feed_origin, origin) ==> r == Err::<OracleRequest, Error>(Error::BadOrigin)
                && final(self).storage() == old(self).storage()
                && final(currency).balances() == old(currency).balances(),
            allows(old(self).storage().config.feed_origin, origin) ==> {
                let (b, d, slashed) = slash_all::<C>(old(currency).balances(), old(self).storage().deposit_balance,
                    accounts@, old(self).storage().config.treasury_account);
                &&& r matches Ok(OracleRequest::DelMembers(gone)) && gone@ == slashed
                &&& final(currency).balances() == b
                &&& final(self).storage() == (PriceDaoStorage { deposit_balance: d, ..old(self).storage() })
            },
    {
        if !origin_allowed(self.config.feed_origin, origin) {
            return Err(Error::BadOrigin);
        }
        let ghost b0 = currency.balances();
        let ghost s0 = self.storage();
        let mut new_account: Vec<AccountId> = Vec::new();
        let n = accounts.len();
        let mut i: usize = 0;
        while i < n
            invariant
                n == accounts@.len(),
                i <= n,
                ({
                    let (b, d, slashed) = slash_all::<C>(b0, s0.deposit_balance, accounts@.take(i as int), s0.config.treasury_account);
                    &&& currency.balances() == b
                    &&& self.storage() == (PriceDaoStorage { deposit_balance: d, ..s0 })
                    &&& new_account@ == slashed
                }),
            decreases n - i,
        {
            proof {
                assert(accounts@.take(i + 1).drop_last() =~= accounts@.take(i as int));
                assert(accounts@.take(i + 1).last() == accounts@[i as int]);
            }
            let who = accounts[i];
            if self.slash(currency, who) {
                new_account.push(who);
            }
            i = i + 1;
        }
        assert(accounts@.take(n as int) =~= accounts@);
        Ok(OracleRequest::DelMembers(new_account))
    }

    /// The council has each of `accounts` pledge the deposit, in turn; the oracle
    /// is to add those that could to its members. Refused when none could.
    pub fn insert_feed_account<C: ReservableCurrency>(
        &mut self,
        currency: &mut C,
        origin: Origin,
        accounts: Vec<AccountId>,
    ) -> (r: Result<OracleRequest, Error>)
        ensures
            !allows(old(self).storage().config.feed_origin, origin) ==> r == Err::<OracleRequest, Error>(Error::BadOrigin)
                && final(self).storage() == old(self).storage()
                && final(currency).balances() == old(currency).balances(),
            allows(old(self).storage().config.feed_origin, origin) ==> {
                let pledged = old(self).storage().config.pledged_balance;
                let (b, d, joined) = deposit_all::<C>(old(currency).balances(), old(self).storage().deposit_balance, accounts@, pledged);
                &&& final(currency).balances() == b
                &&& joined.len() == 0 ==> r == Err::<OracleRequest, Error>(Error::NoneValue)
                    && final(self).storage() == (PriceDaoStorage { deposit_balance: d, ..old(self).storage() })
                &&& joined.len() > 0 ==> {
                    let ev = final(self).storage().events;
                    &&& r matches Ok(OracleRequest::InsertMembers(added)) && added@ == joined
                    &&& final(self).storage() == (PriceDaoStorage { deposit_balance: d, events: ev, ..old(self).storage() })
                    &&& ev.len() == old(self).storage().events.len() + 1
                    &&& ev.drop_last() == old(self).storage().events
                    &&& ev.last() matches Event::DepositAccounts(v, amount) && v@ == joined && amount == pledged
                }
            },
    {
        if !origin_allowed(self.config.feed_origin, origin) {
            return Err(Error::BadOrigin);
        }
        let pledged = self.config.pledged_balance;
        let ghost b0 = currency.balances();
        let ghost s0 = self.storage();
        let mut new_account: Vec<AccountId> = Vec::new();
        let n = accounts.len();
        let mut i: usize = 0;
        while i < n
            invariant
                n == accounts@.len(),
                i <= n,
                pledged == s0.config.pledged_balance,
                ({
                    let (b, d, joined) = deposit_all::<C>(b0, s0.deposit_balance, accounts@.take(i as int), pledged);
                    &&& currency.balances() == b
                    &&& self.storage() == (PriceDaoStorage { deposit_balance: d, ..s0 })
                    &&& new_account@ == joined
                }),
            decreases n - i,
        {
            proof {
                assert(accounts@.take(i + 1).drop_last() =~= accounts@.take(i as int));
                assert(accounts@.take(i + 1).last() == accounts@[i as int]);
            }
            let who = accounts[i];
            if self.deposit(currency, who, pledged) {
                new_account.push(who);
            }
            i = i + 1;
        }
        assert(accounts@.take(n as int) =~= accounts@);
        if new_account.len() == 0 {
            return Err(Error::NoneValue);
        }
        let members = copy_accounts(&new_account);
        let ghost before = self.storage();
        self.deposit_event(Event::DepositAccounts(new_account, pledged));
        assert(self.storage().events.drop_last() =~= before.events);
        Ok(OracleRequest::InsertMembers(members))
    }

    /// The council has the oracle unlock the price of `currency_id`.
    pub fn unlock_price(&mut self, origin: Origin, currency_id: CurrencyId) -> (r: Result<OracleRequest, Error>)
        ensures
            !allows(old(self).storage().config.feed_origin, origin) ==> r == Err::<OracleRequest, Error>(Error::BadOrigin)
                && final(self).storage() == old(self).storage(),
            allows(old(self).storage().config.feed_origin, origin) ==>
                r == Ok::<OracleRequest, Error>(OracleRequest::UnlockPrice(currency_id))
                && final(self).storage() == (PriceDaoStorage {
                    events: old(self).storage().events.push(Event::UnlockPrice(currency_id)),
                    ..old(self).storage()
                }),
    {
        if !origin_allowed(self.config.feed_origin, origin) {
            return Err(Error::BadOrigin);
        }
        self.deposit_event(Event::UnlockPrice(currency_id));
        Ok(OracleRequest::UnlockPrice(currency_id))
    }

    /// The feeder signing `origin` leaves at block `now`: its deposit may be
    /// withdrawn after the expiration period, and the oracle is to remove it from
    /// its members.
    pub fn exit_feed(&mut self, origin: Origin, now: BlockNumber) -> (r: Result<OracleRequest, Error>)
        requires
            signer_of(origin) matches Some(who) ==> expiration_fits(old(self).storage(), who, now),
        ensures
            exit_feed_outcome(old(self).storage(), final(self).storage(), origin, now, r),
    {
        let feeder = match ensure_signed(origin) {
            Some(who) => who,
            None => {
                return Err(Error::BadOrigin);
            },
        };
        match self.set_expiration(&feeder, now) {
            Ok(()) => {},
            Err(e) => {
                return Err(e);
            },
        }
        let mut gone: Vec<AccountId> = Vec::new();
        gone.push(feeder);
        assert(gone@ =~= seq![feeder]);
        Ok(OracleRequest::DelMembers(gone))
    }

    /// The feeder signing `origin` withdraws its deposit, once expired.
    pub fn withdraw<C: ReservableCurrency>(&mut self, currency: &mut C, origin: Origin, now: BlockNumber) -> (r: Result<(), Error>)
        ensures
            withdraw_outcome::<C>(old(self).storage(), final(self).storage(), old(currency).balances(),
                final(currency).balances(), origin, now, r),
    {
        let feeder = match ensure_signed(origin) {
            Some(who) => who,
            None => {
                return Err(Error::BadOrigin);
            },
        };
        self.do_withdraw(currency, &feeder, now)
    }

    /// The reserves a swap price is read from, for `decimals` of at most 38 (so
    /// that `10^decimals` is a `Balance`).
    pub fn swap_reserves(
        currency_id1: CurrencyId,
        currency_id2: CurrencyId,
        decimals: u8,
        liquidity: (Balance, Balance),
    ) -> (r: (Balance, Balance))
        requires
            decimals <= 38,
        ensures
            r == swap_reserves_of(currency_id1, currency_id2, decimals, liquidity),
    {
        let mut unit: Balance = 1;
        let mut k: u8 = 0;
        proof {
            lemma_pow10_mono(0, 38);
            reveal_with_fuel(pow10, 39);
            assert(pow10(38) == 100_000_000_000_000_000_000_000_000_000_000_000_000);
        }
        while k < decimals
            invariant
                k <= decimals <= 38,
                unit == pow10(k as nat),
                pow10(k as nat) <= pow10(38),
                pow10(38) == 100_000_000_000_000_000_000_000_000_000_000_000_000,
            decreases decimals - k,
        {
            proof { lemma_pow10_mono((k + 1) as nat, 38); }
            unit = unit * 10;
            k = k + 1;
        }
        proof { lemma_pow10_positive(decimals as nat); }
        if currency_id1 < currency_id2 {
            (liquidity.0, liquidity.1 / unit)
        } else {
            (liquidity.1, liquidity.0 / unit)
        }
    }

    /// The reserves a swap price is read from, given the decimals of
    /// `currency_id1` and the liquidity of the pool as far as they are known: none
    /// when either is missing or when the decimals exceed 38.
    pub fn swap_reserves_from(
        currency_id1: CurrencyId,
        currency_id2: CurrencyId,
        decimals: Option<u8>,
        liquidity: Option<(Balance, Balance)>,
    ) -> (r: Option<(Balance, Balance)>)
        ensures
            r == swap_reserves_opt(currency_id1, currency_id2, decimals, liquidity),
    {
        match (decimals, liquidity) {
            (Some(d), Some(l)) => if d <= 38 {
                Some(Self::swap_reserves(currency_id1, currency_id2, d, l))
            } else {
                None
            },
            _ => None,
        }
    }

    /// The price of `currency_id1` in `currency_id2` from their swap pool: what one
    /// unit swaps for against the reserves scaled by the decimals of
    /// `currency_id1`. None when a piece of information is missing, when the
    /// decimals exceed 38, or when the swap cannot be made.
    pub fn get_price_from_swap<S: PriceSource>(source: &S, currency_id1: CurrencyId, currency_id2: CurrencyId) -> (r: Option<Price>)
        ensures
            swap_answer(source, currency_id1, currency_id2, r),
    {
        let decimals = source.asset_decimals(currency_id1);
        match decimals {
            None => {
                return None;
            },
            Some(_) => {},
        }
        let liquidity = source.liquidity(currency_id1, currency_id2);
        match Self::swap_reserves_from(currency_id1, currency_id2, decimals, liquidity) {
            Some((reserve_in, reserve_out)) => source.amount_out(1, reserve_in, reserve_out),
            None => None,
        }
    }

    /// The price of `currency_id` that the oracle holds, if any.
    pub fn get_price_from_oracle<S: PriceSource>(source: &S, currency_id: CurrencyId) -> (r: Option<Price>)
        ensures
            oracle_answer(source, currency_id, r),
    {
        source.oracle_price(currency_id)
    }

    /// The price of `currency_id1` in `currency_id2`: the oracle's price if it has
    /// one, else the price from the swap pool.
    pub fn query_price<S: PriceSource>(source: &S, currency_id1: CurrencyId, currency_id2: CurrencyId) -> (r: Option<Price>)
        ensures
            price_answer(source, currency_id1, currency_id2, r),
    {
        let o = Self::get_price_from_oracle(source, currency_id1);
        match o {
            Some(p) => Some(p),
            None => Self::get_price_from_swap(source, currency_id1, currency_id2),
        }
    }

    /// Reports the price of `currency_id1` in `currency_id2`; refused when there is none.
    pub fn get_price<S: PriceSource>(&mut self, source: &S, origin: Origin, currency_id1: CurrencyId, currency_id2: CurrencyId) -> (r: Result<(), Error>)
        ensures
            get_price_outcome(source, old(self).storage(), final(self).storage(), currency_id1, currency_id2, r),
    {
        let answer = Self::query_price(source, currency_id1, currency_id2);
        let price = match answer {
            Some(p) => p,
            None => {
                return Err(Error::DivisionByZero);
            },
        };
        self.deposit_event(Event::GetPrice(currency_id1, price));
        Ok(())
    }

    /// The members stored by genesis.
    pub fn members(&self) -> (r: &Vec<AccountId>)
        ensures
            r@ == self.storage().members,
    {
        &self.members
    }

    /// The locked price of `currency_id`, if any.
    pub fn locked_price(&self, currency_id: &CurrencyId) -> (r: Option<Price>)
        ensures
            r == (if self.storage().locked_price.contains_key(*currency_id) {
                Some(self.storage().locked_price[*currency_id])
            } else {
                None::<Price>
            }),
    {
        match self.locked_price.get(currency_id) {
            Some(p) => Some(*p),
            None => None,
        }
    }

    /// The deposit of `who`, if any.
    pub fn deposit_balance(&self, who: &AccountId) -> (r: Option<DepositBalanceInfo>)
        ensures
            r == (if self.storage().deposit_balance.contains_key(*who) {
                Some(self.storage().deposit_balance[*who])
            } else {
                None::<DepositBalanceInfo>
            }),
    {
        match self.deposit_balance.get(who) {
            Some(d) => Some(*d),
            None => None,
        }
    }

    /// The events deposited so far, oldest first.
    pub fn events(&self) -> (r: &Vec<Event>)
        ensures
            r@ == self.storage().events,
    {
        &self.events
    }
}

/// A feeder that leaves at block `now` can withdraw its deposit from the block at
/// which the expiration period ends: the deposit is unreserved and forgotten.
pub proof fn law_withdraw_after_expiration<C: ReservableCurrency>(
    s0: PriceDaoStorage,
    s1: PriceDaoStorage,
    s2: PriceDaoStorage,
    b1: Map<AccountId, AccountData>,
    b2: Map<AccountId, AccountData>,
    who: AccountId,
    now: BlockNumber,
    later: BlockNumber,
    r1: Result<OracleRequest, Error>,
    r2: Result<(), Error>,
)
    requires
        0 < now + s0.config.withdraw_expiration_period <= u32::MAX,
        exit_feed_outcome(s0, s1, Origin::Signed(who), now, r1),
        r1 is Ok,
        later >= now + s0.config.withdraw_expiration_period,
        withdraw_outcome::<C>(s1, s2, b1, b2, Origin::Signed(who), later, r2),
    ensures
        r2 is Ok,
        s2.deposit_balance == s0.deposit_balance.remove(who),
        b2 == C::unreserve_outcome(b1, who, s0.deposit_balance[who].amount).0,
{
    assert(s2.deposit_balance =~= s0.deposit_balance.remove(who));
}

/// A feeder that leaves at block `now` cannot withdraw its deposit before the
/// expiration period ends.
pub proof fn law_no_withdraw_before_expiration<C: ReservableCurrency>(
    s0: PriceDaoStorage,
    s1: PriceDaoStorage,
    s2: PriceDaoStorage,
    b1: Map<AccountId, AccountData>,
    b2: Map<AccountId, AccountData>,
    who: AccountId,
    now: BlockNumber,
    later: BlockNumber,
    r1: Result<OracleRequest, Error>,
    r2: Result<(), Error>,
)
    requires
        0 < now + s0.config.withdraw_expiration_period <= u32::MAX,
        exit_feed_outcome(s0, s1, Origin::Signed(who), now, r1),
        r1 is Ok,
        later < now + s0.config.withdraw_expiration_period,
        withdraw_outcome::<C>(s1, s2, b1, b2, Origin::Signed(who), later, r2),
    ensures
        r2 == Err::<(), Error>(Error::NotExpired),
        s2 == s1,
        b2 == b1,
{
}

/// A feeder that pledges its deposit, leaves, and withdraws once the expiration
/// period has ended gets the whole pledge back: every balance is what it was
/// before the pledge, and no deposit is recorded for it any more.
pub proof fn law_withdraw_returns_pledge<C: ReservableCurrency>(
    s0: PriceDaoStorage,
    s1: PriceDaoStorage,
    s2: PriceDaoStorage,
    s3: PriceDaoStorage,
    b0: Map<AccountId, AccountData>,
    b1: Map<AccountId, AccountData>,
    b2: Map<AccountId, AccountData>,
    who: AccountId,
    amount: Balance,
    now: BlockNumber,
    later: BlockNumber,
    r1: Result<OracleRequest, Error>,
    r2: Result<(), Error>,
)
    requires
        !s0.deposit_balance.contains_key(who),
        deposit_step::<C>(b0, s0.deposit_balance, who, amount) == (b1, s1.deposit_balance, true),
        s1 == (PriceDaoStorage { deposit_balance: s1.deposit_balance, ..s0 }),
        0 < now + s0.config.withdraw_expiration_period <= u32::MAX,
        exit_feed_outcome(s1, s2, Origin::Signed(who), now, r1),
        later >= now + s0.config.withdraw_expiration_period,
        withdraw_outcome::<C>(s2, s3, b1, b2, Origin::Signed(who), later, r2),
    ensures
        r1 is Ok,
        r2 is Ok,
        s3.deposit_balance == s0.deposit_balance,
        forall|a: AccountId| #[trigger] account_of(b2, a) == account_of(b0, a),
{
    C::law_unreserve_undoes_reserve(b0, who, amount);
    assert(s3.deposit_balance =~= s0.deposit_balance);
}

/// The swap price of one unit of `currency_id1`: with `decimals` decimals of at
/// most 38 and a pool of reserves `liquidity` (the lower currency id's first), it
/// is what a swap of 1 gives out against the reserve of `currency_id1` and the
/// reserve of `currency_id2` divided by `10^decimals`.
pub proof fn law_swap_price_from_pool<S: PriceSource>(
    source: &S,
    currency_id1: CurrencyId,
    currency_id2: CurrencyId,
    decimals: u8,
    liquidity: (Balance, Balance),
    reserve_in: Balance,
    reserve_out: Balance,
    out: Option<Price>,
    r: Option<Price>,
)
    requires
        forall|d: Option<u8>| #[trigger] call_ensures(S::asset_decimals, (source, currency_id1), d) ==> d == Some(decimals),
        decimals <= 38,
        forall|l: Option<(Balance, Balance)>| #[trigger] call_ensures(S::liquidity, (source, currency_id1, currency_id2), l)
            ==> l == Some(liquidity),
        reserve_in == (if currency_id1 < currency_id2 { liquidity.0 } else { liquidity.1 }),
        reserve_out as nat == (if currency_id1 < currency_id2 { liquidity.1 } else { liquidity.0 }) as nat / pow10(decimals as nat),
        forall|x: Option<Price>| #[trigger] call_ensures(S::amount_out, (source, 1u128, reserve_in, reserve_out), x) ==> x == out,
        swap_answer(source, currency_id1, currency_id2, r),
    ensures
        r == out,
{
}

/// Without the decimals of `currency_id1`, or with more than 38 of them, the swap
/// pool gives no price.
pub proof fn law_no_swap_price_without_decimals<S: PriceSource>(
    source: &S,
    currency_id1: CurrencyId,
    currency_id2: CurrencyId,
    r: Option<Price>,
)
    requires
        forall|d: Option<u8>| #[trigger] call_ensures(S::asset_decimals, (source, currency_id1), d)
            ==> (d is None || d->0 > 38),
        swap_answer(source, currency_id1, currency_id2, r),
    ensures
        r == None::<Price>,
{
}

/// When the oracle has a price for `currency_id1`, that is the price given,
/// whatever the swap pool would give: the pool is only the fallback.
pub proof fn law_oracle_price_comes_first<S: PriceSource>(
    source: &S,
    currency_id1: CurrencyId,
    currency_id2: CurrencyId,
    p: Price,
    r: Option<Price>,
)
    requires
        forall|o: Option<Price>| #[trigger] call_ensures(S::oracle_price, (source, currency_id1), o) ==> o == Some(p),
        price_answer(source, currency_id1, currency_id2, r),
    ensures
        r == Some(p),
{
}

/// When the oracle has no price for `currency_id1`, the price given is the one
/// the swap pool gives.
pub proof fn law_swap_price_is_the_fallback<S: PriceSource>(
    source: &S,
    currency_id1: CurrencyId,
    currency_id2: CurrencyId,
    r: Option<Price>,
)
    requires
        forall|o: Option<Price>| #[trigger] call_ensures(S::oracle_price, (source, currency_id1), o) ==> o == None::<Price>,
        price_answer(source, currency_id1, currency_id2, r),
    ensures
        swap_answer(source, currency_id1, currency_id2, r),
{
}

/// When the oracle has the price `p` for `currency_id1`, reporting the price of
/// `currency_id1` succeeds and reports `p`, whatever the swap pool would give.
pub proof fn law_reported_price_is_the_oracle_price<S: PriceSource>(
    source: &S,
    old: PriceDaoStorage,
    new: PriceDaoStorage,
    currency_id1: CurrencyId,
    currency_id2: CurrencyId,
    p: Price,
    r: Result<(), Error>,
)
    requires
        forall|o: Option<Price>| #[trigger] call_ensures(S::oracle_price, (source, currency_id1), o) ==> o == Some(p),
        get_price_outcome(source, old, new, currency_id1, currency_id2, r),
    ensures
        r == Ok::<(), Error>(()),
        new.events == old.events.push(Event::GetPrice(currency_id1, p)),
        new == (PriceDaoStorage { events: new.events, ..old }),
{
    let a = choose|a: Option<Price>| #[trigger] price_answer(source, currency_id1, currency_id2, a) && match a {
        None => r == Err::<(), Error>(Error::DivisionByZero) && new == old,
        Some(q) => r == Ok::<(), Error>(()) && new == (PriceDaoStorage {
            events: old.events.push(Event::GetPrice(currency_id1, q)),
            ..old
        }),
    };
    law_oracle_price_comes_first(source, currency_id1, currency_id2, p, a);
}

/// Slashing a feeder whose deposit is held in reserve moves the deposit to the
/// treasury's free balance and forgets it; the feeder's free balance stays as it was.
pub proof fn law_slash_moves_deposit_to_treasury(
    b: Map<AccountId, AccountData>,
    d: Map<AccountId, DepositBalanceInfo>,
    who: AccountId,
    treasury: AccountId,
)
    requires
        d.contains_key(who),
        who != treasury,
        account_of(b, who).reserved >= d[who].amount,
        account_of(b, who).free + d[who].amount <= u128::MAX,
        account_of(b, treasury).free + d[who].amount <= u128::MAX,
    ensures
        ({
            let (b1, d1, ok) = slash_step::<Ledger>(b, d, who, treasury);
            let amount = d[who].amount;
            &&& ok
            &&& d1 == d.remove(who)
            &&& account_of(b1, treasury) == (AccountData {
                free: (account_of(b, treasury).free + amount) as Balance,
                ..account_of(b, treasury)
            })
            &&& account_of(b1, who) == (AccountData {
                reserved: (account_of(b, who).reserved - amount) as Balance,
                ..account_of(b, who)
            })
            &&& forall|a: AccountId| a != who && a != treasury ==> #[trigger] account_of(b1, a) == account_of(b, a)
        }),
{
}

/// Powers of ten grow with the exponent.
pub proof fn lemma_pow10_mono(a: nat, b: nat)
    requires
        a <= b,
    ensures
        pow10(a) <= pow10(b),
    decreases b,
{
    if a < b {
        lemma_pow10_mono(a, (b - 1) as nat);
        lemma_pow10_positive((b - 1) as nat);
    }
}

/// Powers of ten are positive.
pub proof fn lemma_pow10_positive(e: nat)
    ensures
        pow10(e) >= 1,
    decreases e,
{
    if e > 0 {
        lemma_pow10_positive((e - 1) as nat);
    }
}

} // verus!
