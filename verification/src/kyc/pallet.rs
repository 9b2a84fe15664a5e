//! The KYC pallet: its storage, its calls and the rules they follow.

use std::collections::HashMap;
use vstd::prelude::*;

use crate::currency::{
    AccountData, AccountId, Balance, BalanceStatus, CurrencyError, ExistenceRequirement, ReservableCurrency,
    WithdrawReasons,
};
use crate::kyc::types::{
    cap_balance, field_code, paid_fees, ApplicationForm, AreaCode, Authentication, Black, BlackInfo, Data,
    IASInfo, JudgementItem, Judgement, KYCFields, KYCIndex, KYCInfo, Message, Progress, Record,
    Registration, ExchangeKey,
};
use crate::randomness::{generate_random_number, le_value, random_answer, random_subject, PalletId, Randomness};
use crate::system::{allows, ensure_signed, origin_allowed, signer_of, EventEq, Origin};

verus! {

/// What the runtime configures the pallet with.
#[derive(Clone, Copy, Debug, PartialEq, Eq)]
pub struct Config {
    /// The pallet's identifier, mixed into the subject of random draws.
    pub pallet_id: PalletId,
    /// The amount held on deposit for a registered user.
    pub basic_deposit: Balance,
    /// The amount held on deposit for an IAS or a sword holder.
    pub service_deposit: Balance,
    /// Largest number of IAS per field.
    pub max_ias: u32,
    /// Largest number of sword holders per field.
    pub max_sword_holder: u32,
    /// The origin, besides root, that may remove a user's KYC.
    pub force_origin: Origin,
    /// The origin, besides root, that may add an IAS or a sword holder.
    pub ias_origin: Origin,
}


/// Why a call of the pallet was refused.
#[derive(Clone, Copy, Debug, PartialEq, Eq, Structural)]
pub enum Error {
    /// The origin may not make this call.
    BadOrigin,
    /// The currency refused to move the funds.
    Currency(CurrencyError),
    /// Nonce has overflowed past u64 limits
    NonceOverflow,
    /// Count Overflow
    CountOverflow,
    /// Account already exists
    AccountExists,
    /// Insufficient permissions
    InsufficientPermissions,
    /// out of bounds
    OutofBounds,
    /// Fee Non Negative
    FeeNonNegative,
    /// Maximum amount of IAS/SwordHolder reached. Cannot add any more.
    TooManyAccount,
    /// Account isn't found.
    NotFound,
    /// NO IAS
    NoIAS,
    /// No IAS Or SwordHolder
    NoIASOrSwordHolder,
    /// Fee is not enough.
    FeeNotEnough,
    /// Fee is changed.
    FeeChanged,
    /// No KYC found.
    NoKYC,
    /// not Unique identification code
    NotUniqueID,
    /// not contains Unique identification code
    NotContainsUniqueID,
    /// No application
    NoApplication,
    /// has been blacklisted
    Blacklisted,
    /// Repeat application
    RepeatApplication,
    /// IAS Judgement given.
    JudgementGiven,
    /// SwordHolder Authentication given
    AuthenticationGiven,
    /// Invalid judgement.
    InvalidJudgement,
    /// Invalid fee
    InvalidFee,
    /// Sticky judgement.
    StickyJudgement,
    /// The authentication's is pending.
    PendingAuthentication,
    /// Sticky judgement.
    EmptyIndex,
    /// The index is invalid.
    InvalidIndex,
    /// The target is invalid.
    InvalidTarget,
    /// The kyc field is invalid.
    InvalidKYCField,
    /// The kyc field is contained in list.
    KYCFieldFound,
    /// The kyc of account is contained in list.
    KYCFound,
}

/// What the pallet reports of the calls that succeed.
#[derive(Clone, Copy, Debug, PartialEq, Eq)]
pub enum Event {
    /// An identity authentication service (IAS) provider was added. \[kyc_index\]
    IASAdded(KYCIndex),
    /// A sword holder provider was added. \[kyc_index\]
    SwordHolderAdded(KYCIndex),
    /// A certification was applied for. \[who\]
    ApplyCertification(AccountId),
    /// A KYC was set. \[who\]
    KYCSet(AccountId),
    /// IAS killed. \[who\]
    IASKilled(AccountId),
    /// remove kyc. \[who\]
    KYCRemove(AccountId),
    /// A fee was set. \[fee\]
    SetFee(Balance),
    /// SwordHolder killed. \[who\]
    SwordHolderKilled(AccountId),
    /// A KYC was cleared, and the given balance returned. \[who, deposit\]
    KYCCleared(AccountId, Balance),
    /// Randomly got an IAS provider. \[kyc_index, exchange_key\]
    GetIAS(KYCIndex, ExchangeKey),
    /// Randomly got a sword holder provider. \[kyc_index, exchange_key\]
    GetSwordHolder(KYCIndex, ExchangeKey),
    /// A judgement was asked from an IAS. \[who, kyc_index\]
    JudgementRequested(AccountId, KYCIndex),
    /// A judgement request was retracted. \[who, kyc_index\]
    JudgementUnrequested(AccountId, KYCIndex),
    /// A judgement was given by an IAS. \[target, kyc_index\]
    JudgementGiven(AccountId, KYCIndex),
    /// An authentication was given by a sword holder. \[target, kyc_index\]
    AuthenticationGiven(AccountId, KYCIndex),
    /// A judgement was asked from an IAS. \[who, kyc_index\]
    IASJudgementRequested(AccountId, KYCIndex),
}

fn keys_eq(a: &ExchangeKey, b: &ExchangeKey) -> (r: bool)
    ensures
        r == (a@ == b@),
{
    let mut i: usize = 0;
    while i < 32
        invariant
            i <= 32,
            a@.len() == 32,
            b@.len() == 32,
            forall|j: int| 0 <= j < i ==> a@[j] == b@[j],
        decreases 32 - i,
    {
        if a[i] != b[i] {
            return false;
        }
        i = i + 1;
    }
    assert(a@ =~= b@);
    true
}

/// Whether two byte strings are equal.
pub fn bytes_eq(a: &Vec<u8>, b: &Vec<u8>) -> (r: bool)
    ensures
        r == (a@ == b@),
{
    if a.len() != b.len() {
        return false;
    }
    let n = a.len();
    let mut i: usize = 0;
    while i < n
        invariant
            n == a@.len(),
            n == b@.len(),
            i <= n,
            forall|j: int| 0 <= j < i ==> a@[j] == b@[j],
        decreases n - i,
    {
        if a[i] != b[i] {
            return false;
        }
        i = i + 1;
    }
    assert(a@ =~= b@);
    true
}

/// A copy of a vector of plain values.
pub fn copy_vec<X: Copy>(v: &Vec<X>) -> (r: Vec<X>)
    ensures
        r@ == v@,
{
    let mut r: Vec<X> = Vec::new();
    let n = v.len();
    let mut i: usize = 0;
    while i < n
        invariant
            n == v@.len(),
            i <= n,
            r@ == v@.take(i as int),
        decreases n - i,
    {
        r.push(v[i]);
        proof { assert(r@ =~= v@.take(i + 1)); }
        i = i + 1;
    }
    assert(v@.take(n as int) =~= v@);
    r
}

/// Two events are the same, with exchange keys compared by their bytes.
pub open spec fn same_event(a: Event, b: Event) -> bool {
    match (a, b) {
        (Event::GetIAS(i, k), Event::GetIAS(j, l)) => i == j && k@ == l@,
        (Event::GetSwordHolder(i, k), Event::GetSwordHolder(j, l)) => i == j && k@ == l@,
        _ => a == b,
    }
}

impl Event {
    /// Whether two events are the same.
    pub fn same_as(&self, other: &Event) -> (r: bool)
        ensures
            r == same_event(*self, *other),
    {
        match (self, other) {
            (Event::IASAdded(a), Event::IASAdded(b)) => *a == *b,
            (Event::SwordHolderAdded(a), Event::SwordHolderAdded(b)) => *a == *b,
            (Event::ApplyCertification(a), Event::ApplyCertification(b)) => *a == *b,
            (Event::KYCSet(a), Event::KYCSet(b)) => *a == *b,
            (Event::IASKilled(a), Event::IASKilled(b)) => *a == *b,
            (Event::KYCRemove(a), Event::KYCRemove(b)) => *a == *b,
            (Event::SetFee(a), Event::SetFee(b)) => *a == *b,
            (Event::SwordHolderKilled(a), Event::SwordHolderKilled(b)) => *a == *b,
            (Event::KYCCleared(a, x), Event::KYCCleared(b, y)) => *a == *b && *x == *y,
            (Event::GetIAS(a, k), Event::GetIAS(b, l)) => *a == *b && keys_eq(k, l),
            (Event::GetSwordHolder(a, k), Event::GetSwordHolder(b, l)) => *a == *b && keys_eq(k, l),
            (Event::JudgementRequested(a, x), Event::JudgementRequested(b, y)) => *a == *b && *x == *y,
            (Event::JudgementUnrequested(a, x), Event::JudgementUnrequested(b, y)) => *a == *b && *x == *y,
            (Event::JudgementGiven(a, x), Event::JudgementGiven(b, y)) => *a == *b && *x == *y,
            (Event::AuthenticationGiven(a, x), Event::AuthenticationGiven(b, y)) => *a == *b && *x == *y,
            (Event::IASJudgementRequested(a, x), Event::IASJudgementRequested(b, y)) => *a == *b && *x == *y,
            _ => false,
        }
    }
}

/// The storage of the pallet, as maps from storage keys to stored values.
pub struct KycStorage {
    /// Counts the random draws made so far.
    pub nonce: u64,
    /// Number of users verified in each area.
    pub area_data: Map<AreaCode, u64>,
    /// The KYC of each account.
    pub kyc_of: Map<AccountId, Registration>,
    /// The accounts on the black list.
    pub blacklist: Map<AccountId, BlackInfo>,
    /// The IAS of each field, by field code.
    pub ias_list: Map<u8, Vec<Option<IASInfo>>>,
    /// The sword holders of each field, by field code.
    pub sword_holder: Map<u8, Vec<Option<IASInfo>>>,
    /// The records of each account.
    pub records: Map<AccountId, Vec<Record>>,
    /// The identification codes used so far in each field, by field code.
    pub unique_id: Map<u8, Vec<Data>>,
    /// Messages from one account to another, by `message_key`.
    pub messages: Map<u128, Vec<Message>>,
    /// The applications of each account.
    pub forms: Map<AccountId, Vec<Option<ApplicationForm>>>,
    /// The events deposited so far.
    pub events: Seq<Event>,
    /// The configuration, which no call changes.
    pub config: Config,
}

/// The key under which messages from `sender` to `recipient` are kept.
pub open spec fn message_key(sender: AccountId, recipient: AccountId) -> u128 {
    (sender as int * 0x1_0000_0000_0000_0000 + recipient as int) as u128
}

/// Messages keys of distinct pairs are distinct.
pub proof fn lemma_message_key_injective(a: AccountId, b: AccountId, c: AccountId, d: AccountId)
    ensures
        message_key(a, b) == message_key(c, d) <==> (a == c && b == d),
{
    assert(a as int * 0x1_0000_0000_0000_0000 + b as int <= u128::MAX) by (nonlinear_arith)
        requires a <= u64::MAX, b <= u64::MAX;
    assert(c as int * 0x1_0000_0000_0000_0000 + d as int <= u128::MAX) by (nonlinear_arith)
        requires c <= u64::MAX, d <= u64::MAX;
    if message_key(a, b) == message_key(c, d) {
        assert(a == c && b == d) by (nonlinear_arith)
            requires
                a as int * 0x1_0000_0000_0000_0000 + b as int == c as int * 0x1_0000_0000_0000_0000 + d as int,
                b <= u64::MAX, d <= u64::MAX, a >= 0, c >= 0, b >= 0, d >= 0;
    }
}

/// The value kept under `k`, or nothing if there is none.
pub open spec fn seq_in<K, T>(m: Map<K, Vec<T>>, k: K) -> Seq<T> {
    if m.contains_key(k) { m[k]@ } else { Seq::empty() }
}

/// `new` is `old` with the value under `k` set to a vector holding `s`.
pub open spec fn vec_entry_set<K, T>(old: Map<K, Vec<T>>, new: Map<K, Vec<T>>, k: K, s: Seq<T>) -> bool {
    &&& new.dom() == old.dom().insert(k)
    &&& new.remove(k) == old.remove(k)
    &&& new[k]@ == s
}

/// The lists of IAS, or of sword holders.
pub open spec fn services(s: KycStorage, is_ias: bool) -> Map<u8, Vec<Option<IASInfo>>> {
    if is_ias { s.ias_list } else { s.sword_holder }
}

/// The list of IAS, or of sword holders, of a field.
pub open spec fn service_list(s: KycStorage, is_ias: bool, f: KYCFields) -> Seq<Option<IASInfo>> {
    seq_in(services(s, is_ias), field_code(f))
}

/// `s` with the lists of IAS, or of sword holders, replaced by `m`.
pub open spec fn with_services(s: KycStorage, is_ias: bool, m: Map<u8, Vec<Option<IASInfo>>>) -> KycStorage {
    if is_ias { KycStorage { ias_list: m, ..s } } else { KycStorage { sword_holder: m, ..s } }
}

/// `new` is `old` with the list of IAS, or of sword holders, of `f` set to `list`.
pub open spec fn services_set(old: KycStorage, new: KycStorage, is_ias: bool, f: KYCFields, list: Seq<Option<IASInfo>>) -> bool {
    &&& new == with_services(old, is_ias, services(new, is_ias))
    &&& vec_entry_set(services(old, is_ias), services(new, is_ias), field_code(f), list)
}

/// Whether an entry of a provider list is `who`.
pub open spec fn is_provider(x: Option<IASInfo>, who: AccountId) -> bool {
    x is Some && x->0.account == who
}

/// Whether `who` is in the provider list.
pub open spec fn has_provider(list: Seq<Option<IASInfo>>, who: AccountId) -> bool {
    exists|i: int| 0 <= i < list.len() && is_provider(#[trigger] list[i], who)
}

/// The provider list with the fee of `who` set to `fee`.
pub open spec fn with_fee(list: Seq<Option<IASInfo>>, who: AccountId, fee: Balance) -> Seq<Option<IASInfo>> {
    list.map_values(|x: Option<IASInfo>| if is_provider(x, who) { Some(IASInfo { fee, ..x->0 }) } else { x })
}

/// The applications of an account are all there, name the same field for the IAS
/// and the sword holder, and name no field twice.
pub open spec fn forms_well_formed(forms: Seq<Option<ApplicationForm>>) -> bool {
    &&& forall|i: int| 0 <= i < forms.len() ==> (#[trigger] forms[i]) is Some
        && forms[i]->0.ias.1.fields == forms[i]->0.supervisor.1.fields
    &&& forall|i: int, j: int| 0 <= i < j < forms.len() ==>
        (#[trigger] forms[i])->0.ias.1.fields != (#[trigger] forms[j])->0.ias.1.fields
}

/// Every provider list can be indexed by a `KYCIndex`.
pub open spec fn lists_bounded(m: Map<u8, Vec<Option<IASInfo>>>) -> bool {
    forall|c: u8| #[trigger] m.contains_key(c) ==> m[c]@.len() <= u32::MAX
}

/// A provider list of the field with the code `c`: at most `max` entries, all of
/// them there, each a provider of the field `c`, and no account twice.
pub open spec fn providers_wf(list: Seq<Option<IASInfo>>, c: u8, max: u32) -> bool {
    &&& list.len() <= max
    &&& forall|i: int| 0 <= i < list.len() ==> (#[trigger] list[i]) is Some && field_code(list[i]->0.fields) == c
    &&& forall|i: int, j: int| 0 <= i < j < list.len() ==>
        (#[trigger] list[i])->0.account != (#[trigger] list[j])->0.account
}

/// Every provider list of `m` is a well-formed list of its field, of at most `max` entries.
pub open spec fn lists_wf(m: Map<u8, Vec<Option<IASInfo>>>, max: u32) -> bool {
    forall|c: u8| #[trigger] m.contains_key(c) ==> providers_wf(m[c]@, c, max)
}

/// What holds of the storage between calls.
pub open spec fn storage_wf(s: KycStorage) -> bool {
    &&& lists_bounded(s.ias_list)
    &&& lists_bounded(s.sword_holder)
    &&& lists_wf(s.ias_list, s.config.max_ias)
    &&& lists_wf(s.sword_holder, s.config.max_sword_holder)
    &&& forall|a: AccountId| #[trigger] s.forms.contains_key(a) ==> forms_well_formed(s.forms[a]@)
}

/// `new` is `old` with the event `e` deposited.
pub open spec fn with_event(old: KycStorage, e: Event) -> KycStorage {
    KycStorage { events: old.events.push(e), ..old }
}

/// `new` is `mid` with the event `e` deposited, and `mid` agrees with `old` on events.
pub open spec fn then_event(old: KycStorage, mid: KycStorage, new: KycStorage, e: Event) -> bool {
    mid.events == old.events && new == with_event(mid, e)
}

/// The outcome of setting the fee of the signer of `origin`, an IAS (or a sword
/// holder) of `f`, to `fee`.
pub open spec fn set_fee_outcome(
    old: KycStorage,
    new: KycStorage,
    origin: Origin,
    f: KYCFields,
    fee: Balance,
    is_ias: bool,
    r: Result<(), Error>,
) -> bool {
    match signer_of(origin) {
        None => r == Err::<(), Error>(Error::BadOrigin) && new == old,
        Some(who) => if !has_provider(service_list(old, is_ias, f), who) {
            r == Err::<(), Error>(Error::InsufficientPermissions) && new == old
        } else {
            let mid = KycStorage { events: old.events, ..new };
            &&& r == Ok::<(), Error>(())
            &&& services_set(old, mid, is_ias, f, with_fee(service_list(old, is_ias, f), who, fee))
            &&& new == with_event(mid, Event::SetFee(fee))
        },
    }
}

/// Whether every entry of the provider list is some provider other than `who`.
pub open spec fn all_others(list: Seq<Option<IASInfo>>, who: AccountId) -> bool {
    forall|i: int| 0 <= i < list.len() ==> (#[trigger] list[i]) is Some && list[i]->0.account != who
}

/// The provider list after `info` is put at `index`: appended when `index` is the
/// length of the list, else in place of the provider there.
pub open spec fn placed(list: Seq<Option<IASInfo>>, index: KYCIndex, info: IASInfo) -> Seq<Option<IASInfo>> {
    if index == list.len() { list.push(Some(info)) } else { list.update(index as int, Some(info)) }
}

/// The error, if any, that adding `info` at `index` to a provider list of `len`
/// entries meets before any fund is moved.
pub open spec fn add_service_check(list: Seq<Option<IASInfo>>, index: KYCIndex, info: IASInfo, max: u32) -> Option<Error> {
    if !all_others(list, info.account) {
        Some(Error::AccountExists)
    } else if !(list.len() + 1 > index) {
        Some(Error::OutofBounds)
    } else if !(list.len() < max) {
        Some(Error::TooManyAccount)
    } else {
        None
    }
}

/// The outcome of adding `info` at `index` to the IAS (or sword holders) of its field.
pub open spec fn add_service_outcome<C: ReservableCurrency>(
    old: KycStorage,
    new: KycStorage,
    b_old: Map<AccountId, AccountData>,
    b_new: Map<AccountId, AccountData>,
    index: KYCIndex,
    info: IASInfo,
    is_ias: bool,
    r: Result<(), Error>,
) -> bool {
    let list = service_list(old, is_ias, info.fields);
    let (after, reserved) = C::reserve_outcome(b_old, info.account, old.config.service_deposit);
    let max = if is_ias { old.config.max_ias } else { old.config.max_sword_holder };
    match add_service_check(list, index, info, max) {
        Some(e) => r == Err::<(), Error>(e) && new == old && b_new == b_old,
        None => match reserved {
            Err(e) => r == Err::<(), Error>(Error::Currency(e)) && new == old && b_new == after,
            Ok(()) => r == Ok::<(), Error>(()) && b_new == after
                && services_set(old, new, is_ias, info.fields, placed(list, index, info)),
        },
    }
}

/// The outcome of a call that a privileged origin makes to add a provider, which
/// deposits `e` when it succeeds.
pub open spec fn add_service_call_outcome<C: ReservableCurrency>(
    old: KycStorage,
    new: KycStorage,
    b_old: Map<AccountId, AccountData>,
    b_new: Map<AccountId, AccountData>,
    origin: Origin,
    index: KYCIndex,
    info: IASInfo,
    is_ias: bool,
    e: Event,
    r: Result<(), Error>,
) -> bool {
    if !allows(old.config.ias_origin, origin) {
        r == Err::<(), Error>(Error::BadOrigin) && new == old && b_new == b_old
    } else if r is Ok {
        let mid = KycStorage { events: old.events, ..new };
        add_service_outcome::<C>(old, mid, b_old, b_new, index, info, is_ias, r) && new == with_event(mid, e)
    } else {
        add_service_outcome::<C>(old, new, b_old, b_new, index, info, is_ias, r)
    }
}

/// Whether a review is still paid for: it awaits the IAS with its fee paid, or a
/// fee is held for it.
pub open spec fn review_paid(e: JudgementItem) -> bool {
    e.2 is FeePaid || e.4 > 0
}

/// The reviews that a reset of a KYC keeps: those still paid for, in their order.
pub open spec fn kept_reviews(js: Seq<JudgementItem>) -> Seq<JudgementItem> {
    js.filter(|e: JudgementItem| review_paid(e))
}

/// `new` is `old` with `who` registered with the identity `info`, the reviews `js`
/// and the deposit `deposit`.
pub open spec fn registered(
    old: KycStorage,
    new: KycStorage,
    who: AccountId,
    info: KYCInfo,
    js: Seq<JudgementItem>,
    deposit: Balance,
) -> bool {
    &&& new == KycStorage { kyc_of: new.kyc_of, ..old }
    &&& new.kyc_of.dom() == old.kyc_of.dom().insert(who)
    &&& new.kyc_of.remove(who) == old.kyc_of.remove(who)
    &&& new.kyc_of[who].info == info
    &&& new.kyc_of[who].judgements@ == js
    &&& new.kyc_of[who].deposit == deposit
}

/// The outcome of setting, or resetting, the KYC of the signer of `origin` to
/// `info`. A reset keeps the reviews still paid for; the deposit held becomes the
/// basic deposit, the difference reserved or unreserved.
pub open spec fn set_kyc_outcome<C: ReservableCurrency>(
    old: KycStorage,
    new: KycStorage,
    b_old: Map<AccountId, AccountData>,
    b_new: Map<AccountId, AccountData>,
    origin: Origin,
    info: KYCInfo,
    r: Result<(), Error>,
) -> bool {
    match signer_of(origin) {
        None => r == Err::<(), Error>(Error::BadOrigin) && new == old && b_new == b_old,
        Some(who) => if old.blacklist.contains_key(who) {
            r == Err::<(), Error>(Error::Blacklisted) && new == old && b_new == b_old
        } else {
            let existing = old.kyc_of.contains_key(who);
            let old_deposit: Balance = if existing { old.kyc_of[who].deposit } else { 0 };
            let js = if existing { kept_reviews(old.kyc_of[who].judgements@) } else { Seq::<JudgementItem>::empty() };
            let deposit = old.config.basic_deposit;
            let (after, reserved) = if deposit > old_deposit {
                C::reserve_outcome(b_old, who, (deposit - old_deposit) as Balance)
            } else if old_deposit > deposit {
                (C::unreserve_outcome(b_old, who, (old_deposit - deposit) as Balance).0, Ok(()))
            } else {
                (b_old, Ok(()))
            };
            match reserved {
                Err(e) => r == Err::<(), Error>(Error::Currency(e)) && new == old && b_new == after,
                Ok(()) => {
                    let mid = KycStorage { events: old.events, ..new };
                    &&& r == Ok::<(), Error>(())
                    &&& b_new == after
                    &&& registered(old, mid, who, info, js, deposit)
                    &&& new == with_event(mid, Event::KYCSet(who))
                },
            }
        },
    }
}

/// The outcome of the signer of `origin` clearing its KYC.
pub open spec fn clear_kyc_outcome<C: ReservableCurrency>(
    old: KycStorage,
    new: KycStorage,
    b_old: Map<AccountId, AccountData>,
    b_new: Map<AccountId, AccountData>,
    origin: Origin,
    r: Result<(), Error>,
) -> bool {
    match signer_of(origin) {
        None => r == Err::<(), Error>(Error::BadOrigin) && new == old && b_new == b_old,
        Some(who) => if !old.kyc_of.contains_key(who) {
            r == Err::<(), Error>(Error::NotFound) && new == old && b_new == b_old
        } else {
            let deposit = old.kyc_of[who].spec_total_deposit();
            &&& r == Ok::<(), Error>(())
            &&& b_new == C::unreserve_outcome(b_old, who, deposit).0
            &&& new == with_event(
                KycStorage { kyc_of: old.kyc_of.remove(who), forms: old.forms.remove(who), ..old },
                Event::KYCCleared(who, deposit),
            )
        },
    }
}

/// The outcome of a privileged origin removing the KYC of `target` for the reason `black`.
pub open spec fn remove_kyc_outcome<C: ReservableCurrency>(
    old: KycStorage,
    new: KycStorage,
    b_old: Map<AccountId, AccountData>,
    b_new: Map<AccountId, AccountData>,
    origin: Origin,
    target: AccountId,
    black: Black,
    r: Result<(), Error>,
) -> bool {
    if !allows(old.config.force_origin, origin) {
        r == Err::<(), Error>(Error::BadOrigin) && new == old && b_new == b_old
    } else if old.blacklist.contains_key(target) {
        r == Err::<(), Error>(Error::Blacklisted) && new == old && b_new == b_old
    } else if !old.kyc_of.contains_key(target) {
        r == Err::<(), Error>(Error::NoKYC) && new == old && b_new == b_old
    } else {
        let deposit = old.config.basic_deposit;
        let unreserved = C::unreserve_outcome(b_old, target, deposit).0;
        &&& r == Ok::<(), Error>(())
        &&& b_new == C::withdraw_outcome(unreserved, target, deposit, WithdrawReasons::Fee,
            ExistenceRequirement::KeepAlive).0
        &&& new == (KycStorage {
            blacklist: new.blacklist,
            kyc_of: old.kyc_of.remove(target),
            forms: old.forms.remove(target),
            events: old.events.push(Event::KYCRemove(target)),
            ..old
        })
        &&& new.blacklist.dom() == old.blacklist.dom().insert(target)
        &&& new.blacklist.remove(target) == old.blacklist
        &&& new.blacklist[target].info@ == seq![black]
    }
}

/// Whether a provider entry may be drawn for `f` at a fee of at most `max_fee`.
pub open spec fn eligible(x: Option<IASInfo>, f: KYCFields, max_fee: Balance) -> bool {
    x is Some && x->0.fee <= max_fee && x->0.fields == f
}

/// The providers of the list that may be drawn, with their indices, in list order.
pub open spec fn candidates(list: Seq<Option<IASInfo>>, f: KYCFields, max_fee: Balance) -> Seq<(KYCIndex, IASInfo)>
    decreases list.len(),
{
    if list.len() == 0 {
        Seq::empty()
    } else {
        let prev = candidates(list.drop_last(), f, max_fee);
        if eligible(list.last(), f, max_fee) {
            prev.push(((list.len() - 1) as KYCIndex, list.last()->0))
        } else {
            prev
        }
    }
}

/// Each candidate is an eligible entry of the list, at its index.
pub proof fn lemma_candidates(list: Seq<Option<IASInfo>>, f: KYCFields, max_fee: Balance)
    requires
        list.len() <= u32::MAX,
    ensures
        forall|k: int| 0 <= k < candidates(list, f, max_fee).len() ==> {
            let c = #[trigger] candidates(list, f, max_fee)[k];
            &&& c.0 < list.len()
            &&& list[c.0 as int] == Some(c.1)
            &&& c.1.fields == f
            &&& c.1.fee <= max_fee
        },
    decreases list.len(),
{
    if list.len() > 0 {
        let prev = list.drop_last();
        lemma_candidates(prev, f, max_fee);
        assert forall|k: int| 0 <= k < candidates(list, f, max_fee).len() implies {
            let c = #[trigger] candidates(list, f, max_fee)[k];
            &&& c.0 < list.len()
            &&& list[c.0 as int] == Some(c.1)
            &&& c.1.fields == f
            &&& c.1.fee <= max_fee
        } by {
            if k < candidates(prev, f, max_fee).len() {
                let c = candidates(prev, f, max_fee)[k];
                assert(prev[c.0 as int] == list[c.0 as int]);
            }
        }
    }
}

/// The outcome of drawing a provider of `f` at a fee of at most `max_fee` with
/// the random number `random`: the candidate at `random` modulo their number,
/// and one more draw counted.
pub open spec fn draw_outcome(
    old: KycStorage,
    new: KycStorage,
    f: KYCFields,
    max_fee: Balance,
    is_ias: bool,
    random: u64,
    r: Result<(KYCIndex, IASInfo), Error>,
) -> bool {
    let cands = candidates(service_list(old, is_ias, f), f, max_fee);
    if cands.len() == 0 {
        r == Err::<(KYCIndex, IASInfo), Error>(Error::NoIASOrSwordHolder) && new == old
    } else if old.nonce == u64::MAX {
        r == Err::<(KYCIndex, IASInfo), Error>(Error::NonceOverflow) && new == old
    } else {
        r == Ok::<(KYCIndex, IASInfo), Error>(cands[(random as int) % (cands.len() as int)])
            && new == KycStorage { nonce: (old.nonce + 1) as u64, ..old }
    }
}

/// Whether every application in the list is there and is for another field than `f`.
pub open spec fn no_repeat(forms: Seq<Option<ApplicationForm>>, f: KYCFields) -> bool {
    forall|i: int| 0 <= i < forms.len() ==> (#[trigger] forms[i]) is Some && forms[i]->0.ias.1.fields != f
}

/// Whether `h1` is a hash that `randomness` answers for the draw of the IAS, whose
/// seed is `nonce`, and, when `nonce + 1` is a `u64`, `h2` one that it answers for
/// the draw of the sword holder, whose seed is `nonce + 1`.
pub open spec fn apply_draws<R: Randomness>(randomness: &R, pallet_id: PalletId, nonce: u64, h1: [u8; 32], h2: [u8; 32]) -> bool {
    &&& random_answer(randomness, random_subject(pallet_id, nonce), h1)
    &&& nonce < u64::MAX ==> random_answer(randomness, random_subject(pallet_id, (nonce + 1) as u64), h2)
}

/// The outcome of the signer of `origin` applying for the review of `f`, offering
/// at most `max_fee`, where `random_ias` and `random_sword` are the random numbers
/// that draw its IAS and its sword holder.
pub open spec fn apply_outcome(
    old: KycStorage,
    new: KycStorage,
    origin: Origin,
    f: KYCFields,
    max_fee: Balance,
    random_ias: u64,
    random_sword: u64,
    r: Result<(), Error>,
) -> bool {
    match signer_of(origin) {
        None => r == Err::<(), Error>(Error::BadOrigin) && new == old,
        Some(who) => {
            let forms = seq_in(old.forms, who);
            let search_fee = (max_fee / 2) as Balance;
            let ias_cands = candidates(service_list(old, true, f), f, search_fee);
            let sword_cands = candidates(service_list(old, false, f), f, search_fee);
            if old.blacklist.contains_key(who) {
                r == Err::<(), Error>(Error::Blacklisted) && new == old
            } else if !old.kyc_of.contains_key(who) {
                r == Err::<(), Error>(Error::NoKYC) && new == old
            } else if !no_repeat(forms, f) {
                r == Err::<(), Error>(Error::RepeatApplication) && new == old
            } else if ias_cands.len() == 0 {
                r == Err::<(), Error>(Error::NoIASOrSwordHolder) && new == old
            } else if old.nonce == u64::MAX {
                r == Err::<(), Error>(Error::NonceOverflow) && new == old
            } else if sword_cands.len() == 0 {
                r == Err::<(), Error>(Error::NoIASOrSwordHolder) && new == KycStorage { nonce: (old.nonce + 1) as u64, ..old }
            } else if old.nonce + 1 == u64::MAX {
                r == Err::<(), Error>(Error::NonceOverflow) && new == KycStorage { nonce: (old.nonce + 1) as u64, ..old }
            } else {
                let form = ApplicationForm {
                    ias: ias_cands[(random_ias as int) % (ias_cands.len() as int)],
                    supervisor: sword_cands[(random_sword as int) % (sword_cands.len() as int)],
                    progress: Progress::Pending,
                };
                &&& r == Ok::<(), Error>(())
                &&& new == (KycStorage {
                    nonce: (old.nonce + 2) as u64,
                    forms: new.forms,
                    events: old.events.push(Event::ApplyCertification(who)),
                    ..old
                })
                &&& vec_entry_set(old.forms, new.forms, who, forms.push(Some(form)))
            }
        },
    }
}

/// What holds between calls depends only on the provider lists and the applications.
pub proof fn lemma_wf_frame(a: KycStorage, b: KycStorage)
    requires
        storage_wf(a),
        b.ias_list == a.ias_list,
        b.sword_holder == a.sword_holder,
        b.forms == a.forms,
        b.config == a.config,
    ensures
        storage_wf(b),
{
}

/// Whether an application entry is the one of the IAS `ias` and the sword holder
/// `sup` for `f`, and has not failed.
pub open spec fn form_of_pair(
    x: Option<ApplicationForm>,
    ias_account: AccountId,
    ias_index: KYCIndex,
    sup_account: AccountId,
    sup_index: KYCIndex,
    f: KYCFields,
) -> bool {
    &&& x is Some
    &&& x->0.ias.0 == ias_index
    &&& x->0.ias.1.account == ias_account
    &&& x->0.ias.1.fields == f
    &&& x->0.supervisor.0 == sup_index
    &&& x->0.supervisor.1.account == sup_account
    &&& x->0.progress != Progress::Failure
}

/// The applications with the progress of those of the pair set to `p`.
pub open spec fn forms_progressed(
    forms: Seq<Option<ApplicationForm>>,
    ias_account: AccountId,
    ias_index: KYCIndex,
    sup_account: AccountId,
    sup_index: KYCIndex,
    f: KYCFields,
    p: Progress,
) -> Seq<Option<ApplicationForm>> {
    forms.map_values(|x: Option<ApplicationForm>|
        if form_of_pair(x, ias_account, ias_index, sup_account, sup_index, f) {
            Some(ApplicationForm { progress: p, ..x->0 })
        } else {
            x
        })
}

/// The records with the progress of those about `target` and `f` set to `p`.
pub open spec fn records_progressed(recs: Seq<Record>, target: AccountId, f: KYCFields, p: Progress) -> Seq<Record> {
    recs.map_values(|r: Record| if r.account == target && r.fields == f { Record { progress: p, ..r } } else { r })
}

/// The reviews with the authentication of those of `f` by the IAS at `index` set to
/// `auth`, the fee held for them released.
pub open spec fn judgements_authed(js: Seq<JudgementItem>, f: KYCFields, index: KYCIndex, auth: Authentication) -> Seq<JudgementItem> {
    js.map_values(|e: JudgementItem| if e.0 == f && e.1 == index { (e.0, e.1, e.2, auth, 0u128) } else { e })
}

/// The reviews with those of `f` by the IAS at `index` given the judgement `j`,
/// their authentication pending again.
pub open spec fn judgements_judged(js: Seq<JudgementItem>, f: KYCFields, index: KYCIndex, j: Judgement) -> Seq<JudgementItem> {
    js.map_values(|e: JudgementItem| if e.0 == f && e.1 == index { (e.0, e.1, j, Authentication::Pending, e.4) } else { e })
}

/// `new` is `old` with the reviews in the KYC of `who` set to `js`.
pub open spec fn judgements_set(old: Map<AccountId, Registration>, new: Map<AccountId, Registration>, who: AccountId, js: Seq<JudgementItem>) -> bool {
    &&& old.contains_key(who)
    &&& new.dom() == old.dom()
    &&& new.remove(who) == old.remove(who)
    &&& new[who].info == old[who].info
    &&& new[who].deposit == old[who].deposit
    &&& new[who].judgements@ == js
}

/// How many users of `area` are verified.
pub open spec fn area_count(m: Map<AreaCode, u64>, area: AreaCode) -> u64 {
    if m.contains_key(area) { m[area] } else { 0 }
}

/// Which application a call of a provider or of the user is about.
#[derive(Clone, Copy, Debug, PartialEq, Eq)]
pub enum FormQuery {
    /// The application for `fields` naming the IAS at `index`, not yet under review.
    Pending { fields: KYCFields, index: KYCIndex },
    /// The application for `fields` under review by the IAS `ias` at `index`.
    IasDoing { ias: AccountId, fields: KYCFields, index: KYCIndex },
    /// The application for `fields` reviewed by its IAS and awaiting the sword
    /// holder `sword` at `index`.
    IasDone { sword: AccountId, fields: KYCFields, index: KYCIndex },
}

/// Whether an application entry is the one the query is about.
pub open spec fn form_matches(q: FormQuery, x: Option<ApplicationForm>) -> bool {
    x is Some && {
        let a = x->0;
        match q {
            FormQuery::Pending { fields, index } => a.ias.1.fields == fields && a.ias.0 == index
                && a.progress == Progress::Pending,
            FormQuery::IasDoing { ias, fields, index } => a.ias.1.fields == fields && a.ias.1.account == ias
                && a.ias.0 == index && a.progress == Progress::IasDoing,
            FormQuery::IasDone { sword, fields, index } => a.supervisor.1.fields == fields
                && a.supervisor.1.account == sword && a.supervisor.0 == index && a.progress == Progress::IasDone,
        }
    }
}

/// The position of the first application the query is about, or the length of
/// the list if there is none.
pub open spec fn first_match(forms: Seq<Option<ApplicationForm>>, q: FormQuery) -> int
    decreases forms.len(),
{
    if forms.len() == 0 {
        0
    } else if form_matches(q, forms[0]) {
        0
    } else {
        1 + first_match(forms.drop_first(), q)
    }
}

/// The first match is the first position that matches.
pub proof fn lemma_first_match(forms: Seq<Option<ApplicationForm>>, q: FormQuery, i: int)
    requires
        0 <= i <= forms.len(),
        forall|k: int| 0 <= k < i ==> !form_matches(q, #[trigger] forms[k]),
        i < forms.len() ==> form_matches(q, forms[i]),
    ensures
        first_match(forms, q) == i,
    decreases i,
{
    if forms.len() > 0 && i > 0 {
        assert(!form_matches(q, forms[0]));
        let t = forms.drop_first();
        assert forall|k: int| 0 <= k < i - 1 implies !form_matches(q, #[trigger] t[k]) by {
            assert(t[k] == forms[k + 1]);
        }
        lemma_first_match(t, q, i - 1);
    }
}

/// The first match is a position of the list, or its length; it matches when it
/// is a position, and no earlier position does.
pub proof fn lemma_first_match_props(forms: Seq<Option<ApplicationForm>>, q: FormQuery)
    ensures
        0 <= first_match(forms, q) <= forms.len(),
        first_match(forms, q) < forms.len() ==> form_matches(q, forms[first_match(forms, q)]),
        forall|k: int| 0 <= k < first_match(forms, q) ==> !form_matches(q, #[trigger] forms[k]),
    decreases forms.len(),
{
    if forms.len() > 0 && !form_matches(q, forms[0]) {
        let t = forms.drop_first();
        lemma_first_match_props(t, q);
        assert forall|k: int| 0 <= k < first_match(forms, q) implies !form_matches(q, #[trigger] forms[k]) by {
            if k > 0 {
                assert(forms[k] == t[k - 1]);
            }
        }
    }
}

/// The outcome for storage and balances of `who` asking the IAS at `index` to
/// review `f`, sending it `message`; no event is deposited.
pub open spec fn request_effect<C: ReservableCurrency>(
    old: KycStorage,
    new: KycStorage,
    b_old: Map<AccountId, AccountData>,
    b_new: Map<AccountId, AccountData>,
    who: AccountId,
    f: KYCFields,
    index: KYCIndex,
    message: Message,
    r: Result<(), Error>,
) -> bool {
    let forms = seq_in(old.forms, who);
    let j = first_match(forms, FormQuery::Pending { fields: f, index });
    if j == forms.len() {
        r == Err::<(), Error>(Error::NoApplication) && new == old && b_new == b_old
    } else if !old.kyc_of.contains_key(who) {
        r == Err::<(), Error>(Error::NoKYC) && new == old && b_new == b_old
    } else {
        let form = forms[j]->0;
        let (ias, sup) = (form.ias.1, form.supervisor.1);
        if ias.fee + sup.fee > u128::MAX {
            r == Err::<(), Error>(Error::InvalidFee) && new == old && b_new == b_old
        } else {
            let pay_fee = (ias.fee + sup.fee) as Balance;
            let (after, reserved) = C::reserve_outcome(b_old, who, pay_fee);
            match reserved {
                Err(e) => r == Err::<(), Error>(Error::Currency(e)) && new == old && b_new == after,
                Ok(()) => {
                    &&& r == Ok::<(), Error>(())
                    &&& b_new == after
                    &&& new == (KycStorage {
                        kyc_of: new.kyc_of,
                        forms: new.forms,
                        records: new.records,
                        messages: new.messages,
                        ..old
                    })
                    &&& judgements_set(old.kyc_of, new.kyc_of, who,
                        old.kyc_of[who].judgements@.push((f, index, Judgement::FeePaid(pay_fee), Authentication::Pending, pay_fee)))
                    &&& vec_entry_set(old.forms, new.forms, who,
                        forms_progressed(forms, ias.account, form.ias.0, sup.account, form.supervisor.0, ias.fields, Progress::IasDoing))
                    &&& vec_entry_set(old.records, new.records, who,
                        seq_in(old.records, who).push(Record { account: ias.account, progress: Progress::Pending, fields: f }))
                    &&& vec_entry_set(old.messages, new.messages, message_key(who, ias.account),
                        seq_in(old.messages, message_key(who, ias.account)).push(message))
                },
            }
        }
    }
}

/// The records of `recs` about `who` and `f`, in order, with their progress set
/// to `IasDone`.
pub open spec fn matched_done(recs: Seq<Record>, who: AccountId, f: KYCFields) -> Seq<Record>
    decreases recs.len(),
{
    if recs.len() == 0 {
        Seq::empty()
    } else {
        let prev = matched_done(recs.drop_last(), who, f);
        let r = recs.last();
        if r.account == who && r.fields == f {
            prev.push(Record { progress: Progress::IasDone, ..r })
        } else {
            prev
        }
    }
}

/// The records after the IAS `who` has reviewed `f`: its records about itself and
/// `f` are done, and copies of them are appended to the records of the sword
/// holder `sup`.
pub open spec fn records_ias_done(old: Map<AccountId, Vec<Record>>, new: Map<AccountId, Vec<Record>>, who: AccountId, sup: AccountId, f: KYCFields) -> bool {
    let recs = seq_in(old, who);
    let moved = matched_done(recs, who, f);
    let touched = sup != who && moved.len() > 0;
    &&& new.dom() == if touched { old.dom().insert(who).insert(sup) } else { old.dom().insert(who) }
    &&& new.remove(who).remove(sup) == old.remove(who).remove(sup)
    &&& new[who]@ == records_progressed(recs, who, f, Progress::IasDone)
    &&& touched ==> new[sup]@ == seq_in(old, sup) + moved
    &&& !touched && sup != who && old.contains_key(sup) ==> new[sup] == old[sup]
}

/// The outcome for storage of the IAS `who` concluding with `judgement` its review
/// of `f` at `index` for `target`, with the identification code `id` and `message`
/// to the sword holder; no event is deposited.
pub open spec fn ias_judgement_effect(
    old: KycStorage,
    new: KycStorage,
    who: AccountId,
    f: KYCFields,
    index: KYCIndex,
    target: AccountId,
    judgement: Judgement,
    id: Data,
    message: Message,
    r: Result<(), Error>,
) -> bool {
    let forms = seq_in(old.forms, target);
    let j = first_match(forms, FormQuery::IasDoing { ias: who, fields: f, index });
    if j == forms.len() {
        r == Err::<(), Error>(Error::NoApplication) && new == old
    } else if !old.kyc_of.contains_key(target) {
        r == Err::<(), Error>(Error::NoKYC) && new == old
    } else {
        let form = forms[j]->0;
        let (ias, sup) = (form.ias, form.supervisor);
        &&& r == Ok::<(), Error>(())
        &&& new == (KycStorage {
            kyc_of: new.kyc_of,
            records: new.records,
            unique_id: new.unique_id,
            forms: new.forms,
            messages: new.messages,
            ..old
        })
        &&& judgements_set(old.kyc_of, new.kyc_of, target,
            judgements_judged(old.kyc_of[target].judgements@, f, index, judgement))
        &&& records_ias_done(old.records, new.records, who, sup.1.account, f)
        &&& vec_entry_set(old.unique_id, new.unique_id, field_code(f), seq_in(old.unique_id, field_code(f)).push(id))
        &&& vec_entry_set(old.forms, new.forms, target,
            forms_progressed(forms, ias.1.account, ias.0, sup.1.account, sup.0, ias.1.fields, Progress::IasDone))
        &&& vec_entry_set(old.messages, new.messages, message_key(who, sup.1.account),
            seq_in(old.messages, message_key(who, sup.1.account)).push(message))
    }
}

/// Whether `id` is among `ids`.
pub open spec fn id_used(ids: Seq<Data>, id: Data) -> bool {
    exists|i: int| 0 <= i < ids.len() && (#[trigger] ids[i])@ == id@
}

/// `new` is `old` with the records of `a1` and of `a2` about `target` and `f` set to `p`.
pub open spec fn records_two_progressed(
    old: Map<AccountId, Vec<Record>>,
    new: Map<AccountId, Vec<Record>>,
    a1: AccountId,
    a2: AccountId,
    target: AccountId,
    f: KYCFields,
    p: Progress,
) -> bool {
    &&& new.dom() == old.dom().insert(a1).insert(a2)
    &&& new.remove(a1).remove(a2) == old.remove(a1).remove(a2)
    &&& new[a1]@ == records_progressed(seq_in(old, a1), target, f, p)
    &&& new[a2]@ == records_progressed(seq_in(old, a2), target, f, p)
}

/// Two updates of records, of `a1` then of `a2`, give the records of both updated.
pub proof fn lemma_two_record_updates(
    o: Map<AccountId, Vec<Record>>,
    m1: Map<AccountId, Vec<Record>>,
    m2: Map<AccountId, Vec<Record>>,
    a1: AccountId,
    a2: AccountId,
    target: AccountId,
    f: KYCFields,
    p: Progress,
)
    requires
        vec_entry_set(o, m1, a1, records_progressed(seq_in(o, a1), target, f, p)),
        vec_entry_set(m1, m2, a2, records_progressed(seq_in(m1, a2), target, f, p)),
    ensures
        records_two_progressed(o, m2, a1, a2, target, f, p),
{
    lemma_records_progressed_idempotent(seq_in(o, a1), target, f, p);
    assert(m2.dom() =~= o.dom().insert(a1).insert(a2));
    assert(m2.remove(a1).remove(a2) =~= m2.remove(a2).remove(a1));
    assert(m1.remove(a2).remove(a1) =~= m1.remove(a1).remove(a2));
    assert(m2.remove(a1).remove(a2) =~= o.remove(a1).remove(a2));
    if a1 != a2 {
        assert(m1.contains_key(a2) == o.contains_key(a2));
        if o.contains_key(a2) {
            assert(m1[a2] == m1.remove(a1)[a2]);
            assert(o[a2] == o.remove(a1)[a2]);
        }
        assert(seq_in(m1, a2) == seq_in(o, a2));
        assert(m2[a1] == m2.remove(a2)[a1]);
        assert(m1[a1] == m1.remove(a2)[a1]);
    }
}

/// Setting the progress twice is setting it once.
pub proof fn lemma_records_progressed_idempotent(recs: Seq<Record>, target: AccountId, f: KYCFields, p: Progress)
    ensures
        records_progressed(records_progressed(recs, target, f, p), target, f, p) == records_progressed(recs, target, f, p),
{
    assert(records_progressed(records_progressed(recs, target, f, p), target, f, p) =~= records_progressed(recs, target, f, p));
}

/// The reviews of `f` by the IAS at `index` that await the sword holder, concluded
/// with `auth`, the fee held for them released.
pub open spec fn judgements_confirmed(js: Seq<JudgementItem>, f: KYCFields, index: KYCIndex, auth: Authentication) -> Seq<JudgementItem> {
    js.map_values(|e: JudgementItem|
        if e.0 == f && e.1 == index && e.3 == Authentication::Pending { (e.0, e.1, e.2, auth, 0u128) } else { e })
}

/// Balances after the fees of the IAS `ias` and the sword holder `sup` are
/// repatriated from `target` to them, for each review in `js` of `f` by the IAS at
/// `index` that awaits the sword holder and has a fee held for it.
pub open spec fn repatriated<C: ReservableCurrency>(
    b: Map<AccountId, AccountData>,
    js: Seq<JudgementItem>,
    f: KYCFields,
    index: KYCIndex,
    target: AccountId,
    ias: IASInfo,
    sup: IASInfo,
) -> Map<AccountId, AccountData>
    decreases js.len(),
{
    if js.len() == 0 {
        b
    } else {
        let b0 = repatriated::<C>(b, js.drop_last(), f, index, target, ias, sup);
        let e = js.last();
        if e.0 == f && e.1 == index && e.3 == Authentication::Pending && e.4 > 0 {
            let b1 = C::repatriate_outcome(b0, target, ias.account, ias.fee, BalanceStatus::Free).0;
            C::repatriate_outcome(b1, target, sup.account, sup.fee, BalanceStatus::Free).0
        } else {
            b0
        }
    }
}

/// The applications with those the query is about set to `Success`.
pub open spec fn forms_succeeded(forms: Seq<Option<ApplicationForm>>, q: FormQuery) -> Seq<Option<ApplicationForm>> {
    forms.map_values(|x: Option<ApplicationForm>|
        if form_matches(q, x) { Some(ApplicationForm { progress: Progress::Success, ..x->0 }) } else { x })
}

/// The outcome for storage and balances of the sword holder `who` concluding with
/// `auth` the review of `f` by the IAS at `index` for `target`, given the
/// identification code `id`; no event is deposited.
pub open spec fn sword_judgement_effect<C: ReservableCurrency>(
    old: KycStorage,
    new: KycStorage,
    b_old: Map<AccountId, AccountData>,
    b_new: Map<AccountId, AccountData>,
    who: AccountId,
    f: KYCFields,
    index: KYCIndex,
    target: AccountId,
    auth: Authentication,
    id: Data,
    r: Result<(), Error>,
) -> bool {
    let forms = seq_in(old.forms, target);
    let q = FormQuery::IasDone { sword: who, fields: f, index };
    let j = first_match(forms, q);
    if !id_used(seq_in(old.unique_id, field_code(f)), id) {
        r == Err::<(), Error>(Error::NotContainsUniqueID) && new == old && b_new == b_old
    } else if j == forms.len() {
        r == Err::<(), Error>(Error::NoApplication) && new == old && b_new == b_old
    } else {
        let form = forms[j]->0;
        let (ias, sup) = (form.ias, form.supervisor);
        if auth == Authentication::Failure {
            if ias.1.fee + sup.1.fee > u128::MAX {
                r == Err::<(), Error>(Error::InvalidFee) && new == old && b_new == b_old
            } else {
                let pay_fee = (ias.1.fee + sup.1.fee) as Balance;
                &&& r == Ok::<(), Error>(())
                &&& b_new == C::unreserve_outcome(b_old, target, pay_fee).0
                &&& new == (KycStorage { records: new.records, forms: new.forms, kyc_of: new.kyc_of, ..old })
                &&& records_two_progressed(old.records, new.records, ias.1.account, sup.1.account, target, f, Progress::Failure)
                &&& vec_entry_set(old.forms, new.forms, target,
                    forms_progressed(forms, ias.1.account, ias.0, sup.1.account, sup.0, ias.1.fields, Progress::Failure))
                &&& old.kyc_of.contains_key(target) ==> judgements_set(old.kyc_of, new.kyc_of, target,
                    judgements_authed(old.kyc_of[target].judgements@, f, ias.0, auth))
                &&& !old.kyc_of.contains_key(target) ==> new.kyc_of == old.kyc_of
            }
        } else if !old.kyc_of.contains_key(target) {
            r == Err::<(), Error>(Error::InvalidTarget) && new == old && b_new == b_old
        } else {
            let reg = old.kyc_of[target];
            let b1 = repatriated::<C>(b_old, reg.judgements@, f, index, target, ias.1, sup.1);
            let count = area_count(old.area_data, reg.info.area);
            if f == KYCFields::Area && count == u64::MAX {
                r == Err::<(), Error>(Error::CountOverflow) && new == old && b_new == b1
            } else {
                &&& r == Ok::<(), Error>(())
                &&& b_new == b1
                &&& new == (KycStorage {
                    kyc_of: new.kyc_of,
                    area_data: if f == KYCFields::Area {
                        old.area_data.insert(reg.info.area, (count + 1) as u64)
                    } else {
                        old.area_data
                    },
                    forms: new.forms,
                    records: new.records,
                    ..old
                })
                &&& judgements_set(old.kyc_of, new.kyc_of, target, judgements_confirmed(reg.judgements@, f, index, auth))
                &&& vec_entry_set(old.forms, new.forms, target, forms_succeeded(forms, q))
                &&& records_two_progressed(old.records, new.records, ias.1.account, sup.1.account, target, f, Progress::Success)
            }
        }
    }
}

/// In the applications of one account, at most one awaits a given sword holder
/// for a given field at a given index.
pub proof fn lemma_ias_done_unique(forms: Seq<Option<ApplicationForm>>, q: FormQuery, j: int, k: int)
    requires
        forms_well_formed(forms),
        q is IasDone,
        0 <= j < forms.len(),
        0 <= k < forms.len(),
        form_matches(q, forms[j]),
        form_matches(q, forms[k]),
    ensures
        j == k,
{
    if j < k {
        assert(forms[j]->0.ias.1.fields != forms[k]->0.ias.1.fields);
    } else if k < j {
        assert(forms[k]->0.ias.1.fields != forms[j]->0.ias.1.fields);
    }
}

/// What other pallets may ask of the KYC of an account.
pub trait KycHandler {
    spec fn spec_user_area(&self, user: AccountId) -> Option<AreaCode>;

    /// The area of the user, if it has a KYC.
    fn get_user_area(&self, user: &AccountId) -> (r: Option<AreaCode>)
        ensures
            r == self.spec_user_area(*user),
    ;
}

/// The outcome of the signer of `origin` asking the IAS at `index` to review its
/// application for `f`, sending it `message`.
pub open spec fn request_outcome<C: ReservableCurrency>(
    old: KycStorage,
    new: KycStorage,
    b_old: Map<AccountId, AccountData>,
    b_new: Map<AccountId, AccountData>,
    origin: Origin,
    kyc_fields: KYCFields,
    ias_index: KYCIndex,
    message: Message,
    r: Result<(), Error>,
) -> bool {
    match signer_of(origin) {
        None => r == Err::<(), Error>(Error::BadOrigin) && new == old
            && b_new == b_old,
        Some(who) => if r is Ok {
            let mid = KycStorage { events: old.events, ..new };
            &&& request_effect::<C>(old, mid, b_old,
                b_new, who, kyc_fields, ias_index, message, r)
            &&& new == with_event(mid, Event::JudgementRequested(who, ias_index))
        } else {
            request_effect::<C>(old, new, b_old,
                b_new, who, kyc_fields, ias_index, message, r)
        },
    }
}

/// The outcome of the IAS signing `origin` concluding its review of `kyc_fields`
/// at `kyc_index` for `target`, with the identification code `id`.
pub open spec fn ias_provide_outcome(
    old: KycStorage,
    new: KycStorage,
    origin: Origin,
    kyc_fields: KYCFields,
    kyc_index: KYCIndex,
    target: AccountId,
    judgement: Judgement,
    id: Data,
    message: Message,
    r: Result<(), Error>,
) -> bool {
    match signer_of(origin) {
        None => r == Err::<(), Error>(Error::BadOrigin) && new == old,
        Some(who) => if !has_provider(service_list(old, true, kyc_fields), who) {
            r == Err::<(), Error>(Error::InsufficientPermissions) && new == old
        } else if id_used(seq_in(old.unique_id, field_code(kyc_fields)), id) {
            r == Err::<(), Error>(Error::NotUniqueID) && new == old
        } else if r is Ok {
            let mid = KycStorage { events: old.events, ..new };
            &&& ias_judgement_effect(old, mid, who, kyc_fields, kyc_index, target, judgement, id, message, r)
            &&& new == with_event(mid, Event::JudgementGiven(target, kyc_index))
        } else {
            ias_judgement_effect(old, new, who, kyc_fields, kyc_index, target, judgement, id, message, r)
        },
    }
}

/// The outcome of the sword holder signing `origin` concluding with `auth` the
/// review of `kyc_fields` at `kyc_index` for `target`.
pub open spec fn sword_provide_outcome<C: ReservableCurrency>(
    old: KycStorage,
    new: KycStorage,
    b_old: Map<AccountId, AccountData>,
    b_new: Map<AccountId, AccountData>,
    origin: Origin,
    kyc_fields: KYCFields,
    kyc_index: KYCIndex,
    target: AccountId,
    auth: Authentication,
    id: Data,
    r: Result<(), Error>,
) -> bool {
    match signer_of(origin) {
        None => r == Err::<(), Error>(Error::BadOrigin) && new == old
            && b_new == b_old,
        Some(who) => if !has_provider(service_list(old, false, kyc_fields), who) {
            r == Err::<(), Error>(Error::InsufficientPermissions) && new == old
                && b_new == b_old
        } else if auth == Authentication::Pending {
            r == Err::<(), Error>(Error::PendingAuthentication) && new == old
                && b_new == b_old
        } else if r is Ok {
            let mid = KycStorage { events: old.events, ..new };
            &&& sword_judgement_effect::<C>(old, mid, b_old,
                b_new, who, kyc_fields, kyc_index, target, auth, id, r)
            &&& new == with_event(mid, Event::AuthenticationGiven(target, kyc_index))
        } else {
            sword_judgement_effect::<C>(old, new, b_old,
                b_new, who, kyc_fields, kyc_index, target, auth, id, r)
        },
    }
}

/// The reviews of `js` that are still paid for, in their order.
pub fn paid_reviews(js: &Vec<JudgementItem>) -> (r: Vec<JudgementItem>)
    ensures
        r@ == kept_reviews(js@),
{
    let mut r: Vec<JudgementItem> = Vec::new();
    let ghost pred = |e: JudgementItem| review_paid(e);
    let n = js.len();
    let mut i: usize = 0;
    while i < n
        invariant
            n == js@.len(),
            i <= n,
            pred == (|e: JudgementItem| review_paid(e)),
            r@ == js@.take(i as int).filter(pred),
        decreases n - i,
    {
        let e = js[i];
        let keep = e.2.is_paid() || e.4 > 0;
        proof {
            reveal_with_fuel(Seq::filter, 1);
            assert(js@.take(i + 1).drop_last() =~= js@.take(i as int));
            assert(js@.take(i + 1).last() == e);
            assert(pred(e) == keep);
        }
        if keep {
            r.push(e);
        }
        i = i + 1;
    }
    assert(js@.take(n as int) =~= js@);
    r
}

/// The KYC pallet: its storage, which the calls change.
pub struct Pallet {
    nonce: u64,
    area_data: HashMap<AreaCode, u64>,
    kyc_of: HashMap<AccountId, Registration>,
    blacklist: HashMap<AccountId, BlackInfo>,
    ias_list: HashMap<u8, Vec<Option<IASInfo>>>,
    sword_holder: HashMap<u8, Vec<Option<IASInfo>>>,
    records: HashMap<AccountId, Vec<Record>>,
    unique_id: HashMap<u8, Vec<Data>>,
    messages: HashMap<u128, Vec<Message>>,
    forms: HashMap<AccountId, Vec<Option<ApplicationForm>>>,
    events: Vec<Event>,
    config: Config,
}

impl Pallet {
    /// The storage of the pallet.
    pub closed spec fn storage(&self) -> KycStorage {
        KycStorage {
            nonce: self.nonce,
            area_data: self.area_data@,
            kyc_of: self.kyc_of@,
            blacklist: self.blacklist@,
            ias_list: self.ias_list@,
            sword_holder: self.sword_holder@,
            records: self.records@,
            unique_id: self.unique_id@,
            messages: self.messages@,
            forms: self.forms@,
            events: self.events@,
            config: self.config,
        }
    }

    /// What holds of the pallet between calls.
    pub open spec fn wf(&self) -> bool {
        storage_wf(self.storage())
    }

    /// The pallet at genesis with the configuration `config`: nothing stored.
    pub fn new(config: Config) -> (p: Self)
        ensures
            p.wf(),
            p.storage() == (KycStorage {
                nonce: 0,
                area_data: Map::empty(),
                kyc_of: Map::empty(),
                blacklist: Map::empty(),
                ias_list: Map::empty(),
                sword_holder: Map::empty(),
                records: Map::empty(),
                unique_id: Map::empty(),
                messages: Map::empty(),
                forms: Map::empty(),
                events: Seq::empty(),
                config,
            }),
    {
        Pallet {
            nonce: 0,
            area_data: HashMap::new(),
            kyc_of: HashMap::new(),
            blacklist: HashMap::new(),
            ias_list: HashMap::new(),
            sword_holder: HashMap::new(),
            records: HashMap::new(),
            unique_id: HashMap::new(),
            messages: HashMap::new(),
            forms: HashMap::new(),
            events: Vec::new(),
            config,
        }
    }

    fn deposit_event(&mut self, e: Event)
        ensures
            final(self).storage() == (KycStorage { events: old(self).storage().events.push(e), ..old(self).storage() }),
            old(self).wf() ==> final(self).wf(),
    {
        self.events.push(e);
    }

    /// Takes the provider list of a field out of storage.
    fn take_services(&mut self, is_ias: bool, code: u8) -> (list: Vec<Option<IASInfo>>)
        ensures
            list@ == seq_in(services(old(self).storage(), is_ias), code),
            final(self).storage() == with_services(old(self).storage(), is_ias, services(old(self).storage(), is_ias).remove(code)),
    {
        let taken = if is_ias { self.ias_list.remove(&code) } else { self.sword_holder.remove(&code) };
        match taken {
            Some(list) => list,
            None => Vec::new(),
        }
    }

    /// Puts the provider list of a field into storage.
    fn put_services(&mut self, is_ias: bool, code: u8, list: Vec<Option<IASInfo>>)
        ensures
            final(self).storage() == with_services(old(self).storage(), is_ias, services(old(self).storage(), is_ias).insert(code, list)),
    {
        if is_ias {
            self.ias_list.insert(code, list);
        } else {
            self.sword_holder.insert(code, list);
        }
    }

    /// Checks that `who` is an IAS (or a sword holder) of `kyc_fields`.
    pub fn verify_permissions(&self, who: &AccountId, kyc_fields: &KYCFields, is_ias: bool) -> (r: Result<(), Error>)
        ensures
            r == if has_provider(service_list(self.storage(), is_ias, *kyc_fields), *who) {
                Ok(())
            } else {
                Err(Error::InsufficientPermissions)
            },
    {
        let code = kyc_fields.code();
        let listed = if is_ias { self.ias_list.get(&code) } else { self.sword_holder.get(&code) };
        let list = match listed {
            Some(l) => l,
            None => {
                return Err(Error::InsufficientPermissions);
            },
        };
        let n = list.len();
        let mut i: usize = 0;
        while i < n
            invariant
                n == list@.len(),
                list@ == service_list(self.storage(), is_ias, *kyc_fields),
                i <= n,
                forall|j: int| 0 <= j < i ==> !is_provider(list@[j], *who),
            decreases n - i,
        {
            match list[i] {
                Some(info) => {
                    if info.account == *who {
                        assert(is_provider(list@[i as int], *who));
                        return Ok(());
                    }
                },
                None => {},
            }
            i = i + 1;
        }
        Err(Error::InsufficientPermissions)
    }

    /// An IAS sets its own service fee for `kyc_fields`.
    pub fn ias_set_fee(&mut self, origin: Origin, kyc_fields: KYCFields, fee: Balance) -> (r: Result<(), Error>)
        requires
            old(self).wf(),
        ensures
            final(self).wf(),
            set_fee_outcome(old(self).storage(), final(self).storage(), origin, kyc_fields, fee, true, r),
    {
        self.set_fee_call(origin, kyc_fields, fee, true)
    }

    /// A sword holder sets its own service fee for `kyc_fields`.
    pub fn sword_holder_set_fee(&mut self, origin: Origin, kyc_fields: KYCFields, fee: Balance) -> (r: Result<(), Error>)
        requires
            old(self).wf(),
        ensures
            final(self).wf(),
            set_fee_outcome(old(self).storage(), final(self).storage(), origin, kyc_fields, fee, false, r),
    {
        self.set_fee_call(origin, kyc_fields, fee, false)
    }

    fn set_fee_call(&mut self, origin: Origin, kyc_fields: KYCFields, fee: Balance, is_ias: bool) -> (r: Result<(), Error>)
        requires
            old(self).wf(),
        ensures
            final(self).wf(),
            set_fee_outcome(old(self).storage(), final(self).storage(), origin, kyc_fields, fee, is_ias, r),
    {
        let sender = match ensure_signed(origin) {
            Some(who) => who,
            None => {
                return Err(Error::BadOrigin);
            },
        };
        match self.verify_permissions(&sender, &kyc_fields, is_ias) {
            Ok(()) => {},
            Err(e) => {
                return Err(e);
            },
        }
        let ghost before = self.storage();
        let _ = self.do_set_fee(&sender, &kyc_fields, &fee, is_ias);
        let ghost mid = self.storage();
        self.deposit_event(Event::SetFee(fee));
        proof {
            assert(mid.events == before.events) by {
                if is_ias {} else {}
            }
            assert(mid == KycStorage { events: before.events, ..self.storage() });
        }
        Ok(())
    }

    /// Adds an identity authentication service (IAS) provider at `ias_index` of the
    /// list of its field; the call comes from the IAS origin.
    pub fn add_ias<C: ReservableCurrency>(&mut self, currency: &mut C, origin: Origin, ias_index: KYCIndex, ias_info: IASInfo) -> (r: Result<(), Error>)
        requires
            old(self).wf(),
        ensures
            final(self).wf(),
            add_service_call_outcome::<C>(old(self).storage(), final(self).storage(), old(currency).balances(),
                final(currency).balances(), origin, ias_index, ias_info, true, Event::IASAdded(ias_index), r),
    {
        if !origin_allowed(self.config.ias_origin, origin) {
            return Err(Error::BadOrigin);
        }
        let ghost before = self.storage();
        let res = self.add_kyc_service(currency, ias_index, ias_info, true);
        match res {
            Ok(()) => {
                let ghost mid = self.storage();
                self.deposit_event(Event::IASAdded(ias_index));
                assert(mid == KycStorage { events: before.events, ..self.storage() });
                Ok(())
            },
            Err(e) => Err(e),
        }
    }

    /// Adds a sword holder at `sword_index` of the list of its field; the call
    /// comes from the IAS origin. The event deposited is `IASAdded`.
    pub fn add_sword_holder<C: ReservableCurrency>(&mut self, currency: &mut C, origin: Origin, sword_index: KYCIndex, sword_info: IASInfo) -> (r: Result<(), Error>)
        requires
            old(self).wf(),
        ensures
            final(self).wf(),
            add_service_call_outcome::<C>(old(self).storage(), final(self).storage(), old(currency).balances(),
                final(currency).balances(), origin, sword_index, sword_info, false, Event::IASAdded(sword_index), r),
    {
        if !origin_allowed(self.config.ias_origin, origin) {
            return Err(Error::BadOrigin);
        }
        let ghost before = self.storage();
        let res = self.add_kyc_service(currency, sword_index, sword_info, false);
        match res {
            Ok(()) => {
                let ghost mid = self.storage();
                self.deposit_event(Event::IASAdded(sword_index));
                assert(mid == KycStorage { events: before.events, ..self.storage() });
                Ok(())
            },
            Err(e) => Err(e),
        }
    }

    proof fn lemma_forms_removed_wf(&self, before: KycStorage, who: AccountId)
        requires
            storage_wf(before),
            self.storage().forms == before.forms.remove(who),
            self.storage().ias_list == before.ias_list,
            self.storage().sword_holder == before.sword_holder,
            self.storage().config == before.config,
        ensures
            self.wf(),
    {
        assert forall|a: AccountId| #[trigger] self.storage().forms.contains_key(a)
            implies forms_well_formed(self.storage().forms[a]@) by {
            assert(before.forms.contains_key(a));
        }
    }

    /// Counts one more random draw; refused when the count would overflow.
    pub fn increment_nonce(&mut self) -> (r: Result<(), Error>)
        ensures
            if old(self).storage().nonce == u64::MAX {
                r == Err::<(), Error>(Error::NonceOverflow) && final(self).storage() == old(self).storage()
            } else {
                r == Ok::<(), Error>(()) && final(self).storage() == (KycStorage { nonce: (old(self).storage().nonce + 1) as u64, ..old(self).storage() })
            },
    {
        match self.nonce.checked_add(1) {
            Some(next) => {
                self.nonce = next;
                Ok(())
            },
            None => Err(Error::NonceOverflow),
        }
    }

    /// The providers of a field that may be drawn at a fee of at most `max_fee`.
    fn collect_candidates(&self, kyc_fields: &KYCFields, max_fee: &Balance, is_ias: bool) -> (res: Vec<(KYCIndex, IASInfo)>)
        requires
            self.wf(),
        ensures
            res@ == candidates(service_list(self.storage(), is_ias, *kyc_fields), *kyc_fields, *max_fee),
    {
        let code = kyc_fields.code();
        let listed = if is_ias { self.ias_list.get(&code) } else { self.sword_holder.get(&code) };
        let mut res: Vec<(KYCIndex, IASInfo)> = Vec::new();
        let list = match listed {
            Some(l) => l,
            None => {
                return res;
            },
        };
        proof {
            assert(lists_bounded(services(self.storage(), is_ias)));
            assert(services(self.storage(), is_ias).contains_key(code));
        }
        let n = list.len();
        let mut i: usize = 0;
        while i < n
            invariant
                n == list@.len(),
                n <= u32::MAX,
                i <= n,
                res@ == candidates(list@.take(i as int), *kyc_fields, *max_fee),
            decreases n - i,
        {
            proof {
                assert(list@.take(i + 1).drop_last() =~= list@.take(i as int));
                assert(list@.take(i + 1).last() == list@[i as int]);
            }
            match list[i] {
                Some(x) => {
                    if x.fee <= *max_fee && x.fields == *kyc_fields {
                        res.push((i as u32, x));
                    }
                },
                None => {},
            }
            i = i + 1;
        }
        assert(list@.take(n as int) =~= list@);
        res
    }

    /// Draws a provider (IAS or sword holder) of `kyc_fields` whose fee is at most
    /// `max_fee`, with the random number `random_number`; counts the draw.
    pub fn random_admin(&mut self, kyc_fields: &KYCFields, max_fee: &Balance, is_ias: bool, random_number: u64) -> (r: Result<(KYCIndex, IASInfo), Error>)
        requires
            old(self).wf(),
        ensures
            final(self).wf(),
            draw_outcome(old(self).storage(), final(self).storage(), *kyc_fields, *max_fee, is_ias, random_number, r),
    {
        let res_list = self.collect_candidates(kyc_fields, max_fee, is_ias);
        let size = res_list.len();
        if size == 0 {
            return Err(Error::NoIASOrSwordHolder);
        }
        let random_index = (random_number % (size as u64)) as usize;
        match self.increment_nonce() {
            Ok(()) => {},
            Err(e) => {
                return Err(e);
            },
        }
        Ok(res_list[random_index])
    }

    /// The signer of `origin` applies for the review of `kyc_fields`, offering at
    /// most `max_fee`: an IAS and a sword holder whose fees are at most half of it
    /// are drawn from the randomness source.
    pub fn apply_certification<R: Randomness>(&mut self, randomness: &R, origin: Origin, kyc_fields: KYCFields, max_fee: Balance) -> (r: Result<(), Error>)
        requires
            old(self).wf(),
        ensures
            final(self).wf(),
            exists|h1: [u8; 32], h2: [u8; 32]| {
                &&& #[trigger] apply_draws(randomness, old(self).storage().config.pallet_id, old(self).storage().nonce, h1, h2)
                &&& apply_outcome(old(self).storage(), final(self).storage(), origin, kyc_fields, max_fee,
                    le_value(h1@.take(8)) as u64, le_value(h2@.take(8)) as u64, r)
            },
    {
        let ghost s = self.storage();
        let pallet_id = self.config.pallet_id;
        let random_ias = generate_random_number(randomness, &pallet_id, self.nonce);
        let ghost h1 = choose|h: [u8; 32]|
            #[trigger] random_answer(randomness, random_subject(pallet_id, s.nonce), h) && random_ias == le_value(h@.take(8));
        let random_sword = match self.nonce.checked_add(1) {
            Some(next) => generate_random_number(randomness, &pallet_id, next),
            None => 0,
        };
        let ghost h2 = if s.nonce < u64::MAX {
            choose|h: [u8; 32]|
                #[trigger] random_answer(randomness, random_subject(pallet_id, (s.nonce + 1) as u64), h)
                    && random_sword == le_value(h@.take(8))
        } else {
            h1
        };
        let r = self.apply_certification_with(origin, kyc_fields, max_fee, random_ias, random_sword);
        proof {
            if s.nonce == u64::MAX {
                assert(apply_outcome(s, self.storage(), origin, kyc_fields, max_fee, random_ias,
                    le_value(h2@.take(8)) as u64, r));
            }
            assert(apply_draws(randomness, s.config.pallet_id, s.nonce, h1, h2));
            assert(apply_outcome(s, self.storage(), origin, kyc_fields, max_fee,
                le_value(h1@.take(8)) as u64, le_value(h2@.take(8)) as u64, r));
        }
        r
    }

    /// `apply_certification`, with `random_ias` and `random_sword` the random
    /// numbers that draw the IAS and the sword holder.
    pub fn apply_certification_with(&mut self, origin: Origin, kyc_fields: KYCFields, max_fee: Balance, random_ias: u64, random_sword: u64) -> (r: Result<(), Error>)
        requires
            old(self).wf(),
        ensures
            final(self).wf(),
            apply_outcome(old(self).storage(), final(self).storage(), origin, kyc_fields, max_fee, random_ias, random_sword, r),
    {
        let sender = match ensure_signed(origin) {
            Some(who) => who,
            None => {
                return Err(Error::BadOrigin);
            },
        };
        if self.blacklist.contains_key(&sender) {
            return Err(Error::Blacklisted);
        }
        if !self.kyc_of.contains_key(&sender) {
            return Err(Error::NoKYC);
        }
        if !self.forms_allow(&sender, &kyc_fields) {
            return Err(Error::RepeatApplication);
        }
        let search_fee = max_fee / 2;
        let ghost before = self.storage();
        let ias = match self.random_admin(&kyc_fields, &search_fee, true, random_ias) {
            Ok(x) => x,
            Err(e) => {
                return Err(e);
            },
        };
        let supervisor = match self.random_admin(&kyc_fields, &search_fee, false, random_sword) {
            Ok(x) => x,
            Err(e) => {
                return Err(e);
            },
        };
        let app_form = ApplicationForm { ias, supervisor, progress: Progress::Pending };
        proof {
            lemma_candidates(service_list(before, true, kyc_fields), kyc_fields, search_fee);
            lemma_candidates(service_list(before, false, kyc_fields), kyc_fields, search_fee);
            if services(before, true).contains_key(field_code(kyc_fields)) {
                assert(lists_bounded(services(before, true)));
            }
            if services(before, false).contains_key(field_code(kyc_fields)) {
                assert(lists_bounded(services(before, false)));
            }
        }
        let ghost mid = self.storage();
        let mut app_list = match self.forms.remove(&sender) {
            Some(l) => l,
            None => Vec::new(),
        };
        let ghost prev_forms = app_list@;
        app_list.push(Some(app_form));
        self.forms.insert(sender, app_list);
        proof {
            assert(self.forms@.remove(sender) =~= before.forms.remove(sender));
            assert(self.forms@.dom() =~= before.forms.dom().insert(sender));
            assert forall|a: AccountId| #[trigger] self.forms@.contains_key(a)
                implies forms_well_formed(self.forms@[a]@) by {
                if a != sender {
                    assert(before.forms.contains_key(a));
                } else {
                    let fs = self.forms@[a]@;
                    assert(fs == prev_forms.push(Some(app_form)));
                    if before.forms.contains_key(a) {
                        assert(forms_well_formed(prev_forms));
                    }
                    assert forall|i: int, j: int| 0 <= i < j < fs.len() implies
                        (#[trigger] fs[i])->0.ias.1.fields != (#[trigger] fs[j])->0.ias.1.fields by {
                        if j == fs.len() - 1 {
                            assert(fs[i] == prev_forms[i]);
                        } else {
                            assert(fs[i] == prev_forms[i] && fs[j] == prev_forms[j]);
                        }
                    }
                }
            }
        }
        self.deposit_event(Event::ApplyCertification(sender));
        Ok(())
    }

    /// Whether every application of `who` is there and is for another field than `kyc_fields`.
    fn forms_allow(&self, who: &AccountId, kyc_fields: &KYCFields) -> (r: bool)
        ensures
            r == no_repeat(seq_in(self.storage().forms, *who), *kyc_fields),
    {
        let list = match self.forms.get(who) {
            Some(l) => l,
            None => {
                return true;
            },
        };
        let n = list.len();
        let mut i: usize = 0;
        while i < n
            invariant
                n == list@.len(),
                list@ == seq_in(self.storage().forms, *who),
                i <= n,
                forall|j: int| 0 <= j < i ==> (#[trigger] list@[j]) is Some && list@[j]->0.ias.1.fields != *kyc_fields,
            decreases n - i,
        {
            match list[i] {
                Some(item) => {
                    if item.is_repeat(kyc_fields) {
                        return false;
                    }
                },
                None => {
                    return false;
                },
            }
            i = i + 1;
        }
        true
    }

    /// The position of the first application of `who` that the query is about.
    fn find_form(&self, who: &AccountId, q: FormQuery) -> (r: usize)
        ensures
            r == first_match(seq_in(self.storage().forms, *who), q),
    {
        let list = match self.forms.get(who) {
            Some(l) => l,
            None => {
                return 0;
            },
        };
        let n = list.len();
        let mut i: usize = 0;
        while i < n
            invariant
                n == list@.len(),
                i <= n,
                forall|k: int| 0 <= k < i ==> !form_matches(q, #[trigger] list@[k]),
            ensures
                i <= n,
                forall|k: int| 0 <= k < i ==> !form_matches(q, #[trigger] list@[k]),
                i < n ==> form_matches(q, list@[i as int]),
            decreases n - i,
        {
            let hit = match list[i] {
                Some(a) => match q {
                    FormQuery::Pending { fields, index } => a.ias.1.fields == fields && a.ias.0 == index
                        && a.progress == Progress::Pending,
                    FormQuery::IasDoing { ias, fields, index } => a.ias.1.fields == fields && a.ias.1.account == ias
                        && a.ias.0 == index && a.progress == Progress::IasDoing,
                    FormQuery::IasDone { sword, fields, index } => a.supervisor.1.fields == fields
                        && a.supervisor.1.account == sword && a.supervisor.0 == index && a.progress == Progress::IasDone,
                },
                None => false,
            };
            assert(hit == form_matches(q, list@[i as int]));
            if hit {
                break;
            }
            i = i + 1;
        }
        proof { lemma_first_match(list@, q, i as int); }
        i
    }

    /// The application of `who` at `index`, which exists.
    fn form_at(&self, who: &AccountId, index: usize) -> (r: ApplicationForm)
        requires
            index < seq_in(self.storage().forms, *who).len(),
            seq_in(self.storage().forms, *who)[index as int] is Some,
        ensures
            Some(r) == seq_in(self.storage().forms, *who)[index as int],
    {
        let list = self.forms.get(who).unwrap();
        list[index].unwrap()
    }

    /// The user `who` asks the IAS of its pending application for `kyc_fields` at
    /// `kyc_index` for a review: the fees of the IAS and of the sword holder are
    /// held, the review is recorded as paid and pending, the application goes under
    /// review, and `message` goes to the IAS.
    pub fn do_request_judgement<C: ReservableCurrency>(
        &mut self,
        currency: &mut C,
        who: &AccountId,
        kyc_fields: KYCFields,
        kyc_index: KYCIndex,
        message: Message,
    ) -> (r: Result<(), Error>)
        requires
            old(self).wf(),
        ensures
            final(self).wf(),
            request_effect::<C>(old(self).storage(), final(self).storage(), old(currency).balances(),
                final(currency).balances(), *who, kyc_fields, kyc_index, message, r),
    {
        let ghost before = self.storage();
        let j = self.find_form(who, FormQuery::Pending { fields: kyc_fields, index: kyc_index });
        let n = match self.forms.get(who) {
            Some(l) => l.len(),
            None => 0,
        };
        proof { lemma_first_match_props(seq_in(before.forms, *who), FormQuery::Pending { fields: kyc_fields, index: kyc_index }); }
        if j == n {
            return Err(Error::NoApplication);
        }
        let form = self.form_at(who, j);
        if !self.kyc_of.contains_key(who) {
            return Err(Error::NoKYC);
        }
        let ias = form.ias;
        let supervisor = form.supervisor;
        let pay_fee = match ias.1.fee.checked_add(supervisor.1.fee) {
            Some(fee) => fee,
            None => {
                return Err(Error::InvalidFee);
            },
        };
        match currency.reserve(*who, pay_fee) {
            Ok(()) => {},
            Err(e) => {
                return Err(Error::Currency(e));
            },
        }
        let mut registration = self.kyc_of.remove(who).unwrap();
        registration.judgements.push((kyc_fields, kyc_index, Judgement::FeePaid(pay_fee), Authentication::Pending, pay_fee));
        self.kyc_of.insert(*who, registration);
        proof {
            assert(self.kyc_of@.remove(*who) =~= before.kyc_of.remove(*who));
            assert(self.kyc_of@.dom() =~= before.kyc_of.dom());
            lemma_wf_frame(before, self.storage());
        }
        let ghost s1 = self.storage();
        let record = Record { account: ias.1.account, progress: Progress::Pending, fields: kyc_fields };
        let _ = self.update_application_form(who, ias.1.account, ias.0, supervisor.1.account, supervisor.0,
            ias.1.fields, Progress::IasDoing);
        let ghost s2 = self.storage();
        let _ = self.add_record_list(who, record);
        let ghost s3 = self.storage();
        let _ = self.add_message_list(who, &ias.1.account, message);
        proof {
            assert(s1.forms == before.forms);
            assert(s2.records == before.records);
            assert(s3.messages == before.messages);
        }
        Ok(())
    }

    /// The signer of `origin` asks the IAS at `ias_index` to review its application
    /// for `kyc_fields`, sending it `message`.
    pub fn request_judgement<C: ReservableCurrency>(
        &mut self,
        currency: &mut C,
        origin: Origin,
        kyc_fields: KYCFields,
        ias_index: KYCIndex,
        message: Message,
    ) -> (r: Result<(), Error>)
        requires
            old(self).wf(),
        ensures
            final(self).wf(),
            request_outcome::<C>(old(self).storage(), final(self).storage(), old(currency).balances(),
                final(currency).balances(), origin, kyc_fields, ias_index, message, r),
    {
        let sender = match ensure_signed(origin) {
            Some(who) => who,
            None => {
                return Err(Error::BadOrigin);
            },
        };
        let ghost before = self.storage();
        match self.do_request_judgement(currency, &sender, kyc_fields, ias_index, message) {
            Ok(()) => {},
            Err(e) => {
                return Err(e);
            },
        }
        let ghost mid = self.storage();
        self.deposit_event(Event::JudgementRequested(sender, ias_index));
        assert(mid == KycStorage { events: before.events, ..self.storage() });
        Ok(())
    }

    /// The IAS `who` concludes its review of `kyc_fields` for `target`: the
    /// application is reviewed, `id` is recorded as used, and `message` goes to the
    /// sword holder.
    pub fn ias_do_provide_judgement(
        &mut self,
        who: &AccountId,
        kyc_fields: KYCFields,
        kyc_index: KYCIndex,
        target: &AccountId,
        judgement: Judgement,
        id: Data,
        message: Message,
    ) -> (r: Result<(), Error>)
        requires
            old(self).wf(),
        ensures
            final(self).wf(),
            ias_judgement_effect(old(self).storage(), final(self).storage(), *who, kyc_fields, kyc_index, *target, judgement, id, message, r),
    {
        let ghost before = self.storage();
        let q = FormQuery::IasDoing { ias: *who, fields: kyc_fields, index: kyc_index };
        let j = self.find_form(target, q);
        let n = match self.forms.get(target) {
            Some(l) => l.len(),
            None => 0,
        };
        proof { lemma_first_match_props(seq_in(before.forms, *target), q); }
        if j == n {
            return Err(Error::NoApplication);
        }
        let form = self.form_at(target, j);
        if !self.kyc_of.contains_key(target) {
            return Err(Error::NoKYC);
        }
        let ias = form.ias;
        let supervisor = form.supervisor;
        self.set_judgement(target, &kyc_fields, kyc_index, judgement);
        self.mark_ias_records_done(who, &supervisor.1.account, &kyc_fields);
        let ghost s1 = self.storage();
        let _ = self.add_unique_id_list(&kyc_fields, id);
        let ghost s2 = self.storage();
        let _ = self.update_application_form(target, ias.1.account, ias.0, supervisor.1.account, supervisor.0,
            ias.1.fields, Progress::IasDone);
        let ghost s3 = self.storage();
        let _ = self.add_message_list(who, &supervisor.1.account, message);
        proof {
            assert(s1.unique_id == before.unique_id);
            assert(s2.forms == before.forms);
            assert(s3.messages == before.messages);
        }
        Ok(())
    }

    /// Gives the reviews of `kyc_fields` by the IAS at `kyc_index` in the KYC of
    /// `target` the judgement `judgement`, their authentication pending again.
    fn set_judgement(&mut self, target: &AccountId, kyc_fields: &KYCFields, kyc_index: KYCIndex, judgement: Judgement)
        requires
            old(self).wf(),
            old(self).storage().kyc_of.contains_key(*target),
        ensures
            final(self).wf(),
            final(self).storage() == (KycStorage { kyc_of: final(self).storage().kyc_of, ..old(self).storage() }),
            judgements_set(old(self).storage().kyc_of, final(self).storage().kyc_of, *target,
                judgements_judged(old(self).storage().kyc_of[*target].judgements@, *kyc_fields, kyc_index, judgement)),
    {
        let ghost before = self.storage();
        let mut registration = match self.kyc_of.remove(target) {
            Some(reg) => reg,
            None => {
                return;
            },
        };
        let ghost orig = registration.judgements@;
        let n = registration.judgements.len();
        let mut i: usize = 0;
        while i < n
            invariant
                n == registration.judgements@.len(),
                orig.len() == n,
                i <= n,
                registration.info == before.kyc_of[*target].info,
                registration.deposit == before.kyc_of[*target].deposit,
                forall|j: int| 0 <= j < i ==> registration.judgements@[j] == judgements_judged(orig, *kyc_fields, kyc_index, judgement)[j],
                forall|j: int| i <= j < n ==> registration.judgements@[j] == orig[j],
            decreases n - i,
        {
            let element = registration.judgements[i];
            if element.0 == *kyc_fields && element.1 == kyc_index {
                registration.judgements.set(i, (element.0, element.1, judgement, Authentication::Pending, element.4));
            }
            i = i + 1;
        }
        assert(registration.judgements@ =~= judgements_judged(orig, *kyc_fields, kyc_index, judgement));
        self.kyc_of.insert(*target, registration);
        proof {
            assert(self.kyc_of@.remove(*target) =~= before.kyc_of.remove(*target));
            assert(self.kyc_of@.dom() =~= before.kyc_of.dom());
            lemma_wf_frame(before, self.storage());
        }
    }

    /// Marks as done the records of the IAS `who` about itself and `kyc_fields`,
    /// appending copies of them to the records of `sup`.
    fn mark_ias_records_done(&mut self, who: &AccountId, sup: &AccountId, kyc_fields: &KYCFields)
        requires
            old(self).wf(),
        ensures
            final(self).wf(),
            final(self).storage() == (KycStorage { records: final(self).storage().records, ..old(self).storage() }),
            records_ias_done(old(self).storage().records, final(self).storage().records, *who, *sup, *kyc_fields),
    {
        let ghost before = self.storage();
        let mut list = match self.records.remove(who) {
            Some(l) => l,
            None => Vec::new(),
        };
        let ghost s0 = self.storage();
        let ghost orig = list@;
        assert(orig == seq_in(before.records, *who));
        let n = list.len();
        let mut i: usize = 0;
        while i < n
            invariant
                self.wf(),
                n == list@.len(),
                orig.len() == n,
                i <= n,
                s0.records == before.records.remove(*who),
                self.storage() == (KycStorage { records: self.storage().records, ..s0 }),
                forall|k: int| 0 <= k < i ==> list@[k] == records_progressed(orig, *who, *kyc_fields, Progress::IasDone)[k],
                forall|k: int| i <= k < n ==> list@[k] == orig[k],
                matched_done(orig.take(i as int), *who, *kyc_fields).len() == 0 ==> self.storage().records == s0.records,
                matched_done(orig.take(i as int), *who, *kyc_fields).len() > 0 ==> vec_entry_set(s0.records,
                    self.storage().records, *sup, seq_in(s0.records, *sup) + matched_done(orig.take(i as int), *who, *kyc_fields)),
            decreases n - i,
        {
            proof {
                assert(orig.take(i + 1).drop_last() =~= orig.take(i as int));
                assert(orig.take(i + 1).last() == orig[i as int]);
            }
            let record = list[i];
            if record.account == *who && record.fields == *kyc_fields {
                let updated = Record { progress: Progress::IasDone, ..record };
                list.set(i, updated);
                let ghost s_before_add = self.storage();
                let _ = self.add_record_list(sup, updated);
                proof {
                    let m = matched_done(orig.take(i as int), *who, *kyc_fields);
                    let m1 = matched_done(orig.take(i + 1), *who, *kyc_fields);
                    assert(m1 == m.push(updated));
                    if m.len() == 0 {
                        assert(seq_in(s0.records, *sup) + m1 =~= seq_in(s0.records, *sup).push(updated));
                    } else {
                        assert(seq_in(s0.records, *sup) + m1 =~= (seq_in(s0.records, *sup) + m).push(updated));
                        assert(self.storage().records.remove(*sup) =~= s0.records.remove(*sup));
                        assert(self.storage().records.dom() =~= s0.records.dom().insert(*sup));
                    }
                }
            }
            i = i + 1;
        }
        proof {
            assert(orig.take(n as int) =~= orig);
            assert(list@ =~= records_progressed(orig, *who, *kyc_fields, Progress::IasDone));
        }
        let ghost s_end = self.storage();
        self.records.insert(*who, list);
        proof {
            let moved = matched_done(orig, *who, *kyc_fields);
            let touched = *sup != *who && moved.len() > 0;
            let newm = self.storage().records;
            let oldm = before.records;
            assert(newm == s_end.records.insert(*who, list));
            if moved.len() > 0 {
                assert(vec_entry_set(s0.records, s_end.records, *sup, seq_in(s0.records, *sup) + moved));
            }
            if touched {
                assert(newm.dom() =~= oldm.dom().insert(*who).insert(*sup));
                assert(seq_in(s0.records, *sup) == seq_in(oldm, *sup));
            } else {
                assert(newm.dom() =~= oldm.dom().insert(*who));
            }
            assert(newm.remove(*who).remove(*sup) =~= oldm.remove(*who).remove(*sup));
            lemma_wf_frame(before, self.storage());
        }
    }

    /// Whether `id` is among the identification codes used in `kyc_fields`.
    fn unique_id_used(&self, kyc_fields: &KYCFields, id: &Data) -> (r: bool)
        ensures
            r == id_used(seq_in(self.storage().unique_id, field_code(*kyc_fields)), *id),
    {
        let code = kyc_fields.code();
        let list = match self.unique_id.get(&code) {
            Some(l) => l,
            None => {
                return false;
            },
        };
        let n = list.len();
        let mut i: usize = 0;
        while i < n
            invariant
                n == list@.len(),
                list@ == seq_in(self.storage().unique_id, field_code(*kyc_fields)),
                i <= n,
                forall|k: int| 0 <= k < i ==> (#[trigger] list@[k])@ != id@,
            decreases n - i,
        {
            if bytes_eq(&list[i], id) {
                return true;
            }
            i = i + 1;
        }
        false
    }

    /// The IAS signing `origin` concludes its review of `kyc_fields` at `kyc_index`
    /// for `target` with `judgement`; `id` is the code of the document checked, which
    /// no earlier review of the field may have used.
    pub fn ias_provide_judgement(
        &mut self,
        origin: Origin,
        kyc_fields: KYCFields,
        kyc_index: KYCIndex,
        target: AccountId,
        judgement: Judgement,
        id: Data,
        message: Message,
    ) -> (r: Result<(), Error>)
        requires
            old(self).wf(),
        ensures
            final(self).wf(),
            ias_provide_outcome(old(self).storage(), final(self).storage(), origin, kyc_fields, kyc_index, target, judgement, id, message, r),
    {
        let sender = match ensure_signed(origin) {
            Some(who) => who,
            None => {
                return Err(Error::BadOrigin);
            },
        };
        match self.verify_permissions(&sender, &kyc_fields, true) {
            Ok(()) => {},
            Err(e) => {
                return Err(e);
            },
        }
        if self.unique_id_used(&kyc_fields, &id) {
            return Err(Error::NotUniqueID);
        }
        let ghost before = self.storage();
        match self.ias_do_provide_judgement(&sender, kyc_fields, kyc_index, &target, judgement, id, message) {
            Ok(()) => {},
            Err(e) => {
                return Err(e);
            },
        }
        let ghost mid = self.storage();
        self.deposit_event(Event::JudgementGiven(target, kyc_index));
        assert(mid == KycStorage { events: before.events, ..self.storage() });
        Ok(())
    }

    /// The sword holder `who` concludes with `authentication` the review of
    /// `kyc_fields` at `kyc_index` for `target`. On failure the fees are given back
    /// to the user; otherwise they go to the IAS and the sword holder, the reviews
    /// are concluded, the area of the user is counted when the field is the area,
    /// and the application succeeds.
    pub fn sword_do_provide_judgement<C: ReservableCurrency>(
        &mut self,
        currency: &mut C,
        who: &AccountId,
        kyc_fields: KYCFields,
        kyc_index: KYCIndex,
        target: &AccountId,
        authentication: &Authentication,
        id: &Data,
    ) -> (r: Result<(), Error>)
        requires
            old(self).wf(),
        ensures
            final(self).wf(),
            sword_judgement_effect::<C>(old(self).storage(), final(self).storage(), old(currency).balances(),
                final(currency).balances(), *who, kyc_fields, kyc_index, *target, *authentication, *id, r),
    {
        let ghost before = self.storage();
        if !self.unique_id_used(&kyc_fields, id) {
            return Err(Error::NotContainsUniqueID);
        }
        let q = FormQuery::IasDone { sword: *who, fields: kyc_fields, index: kyc_index };
        let j = self.find_form(target, q);
        let n = match self.forms.get(target) {
            Some(l) => l.len(),
            None => 0,
        };
        proof { lemma_first_match_props(seq_in(before.forms, *target), q); }
        if j == n {
            return Err(Error::NoApplication);
        }
        let form = self.form_at(target, j);
        let ias = form.ias;
        let supervisor = form.supervisor;
        if authentication.has_failure() {
            let pay_fee = match ias.1.fee.checked_add(supervisor.1.fee) {
                Some(fee) => fee,
                None => {
                    return Err(Error::InvalidFee);
                },
            };
            let _ = self.update_record_list(&ias.1.account, target, &kyc_fields, Progress::Failure);
            let ghost s1 = self.storage();
            let _ = self.update_record_list(&supervisor.1.account, target, &kyc_fields, Progress::Failure);
            let ghost s2 = self.storage();
            let _ = self.update_application_form(target, ias.1.account, ias.0, supervisor.1.account, supervisor.0,
                ias.1.fields, Progress::Failure);
            let ghost s3 = self.storage();
            let _ = self.update_kyc_auth(target, &kyc_fields, ias.0, authentication);
            let _ = currency.unreserve(*target, pay_fee);
            proof {
                lemma_two_record_updates(before.records, s1.records, s2.records, ias.1.account,
                    supervisor.1.account, *target, kyc_fields, Progress::Failure);
                assert(s3.forms == self.storage().forms);
            }
            return Ok(());
        }
        if !self.kyc_of.contains_key(target) {
            return Err(Error::InvalidTarget);
        }
        let (judgements, area) = self.confirm_judgements(currency, target, &kyc_fields, kyc_index, &ias.1, &supervisor.1, authentication);
        let ghost b1 = currency.balances();
        if kyc_fields == KYCFields::Area {
            match self.increment_area_count(&area) {
                Ok(()) => {},
                Err(e) => {
                    return Err(e);
                },
            }
        }
        let ghost s0 = self.storage();
        let mut registration = self.kyc_of.remove(target).unwrap();
        registration.judgements = judgements;
        self.kyc_of.insert(*target, registration);
        proof {
            assert(self.kyc_of@.remove(*target) =~= s0.kyc_of.remove(*target));
            assert(self.kyc_of@.dom() =~= s0.kyc_of.dom());
            lemma_wf_frame(s0, self.storage());
        }
        let ghost s1 = self.storage();
        self.succeed_form(target, j, q);
        let ghost s2 = self.storage();
        let _ = self.update_record_list(&ias.1.account, target, &kyc_fields, Progress::Success);
        let ghost s3 = self.storage();
        let _ = self.update_record_list(&supervisor.1.account, target, &kyc_fields, Progress::Success);
        proof {
            assert(s2.records == before.records);
            lemma_two_record_updates(before.records, s3.records, self.storage().records, ias.1.account,
                supervisor.1.account, *target, kyc_fields, Progress::Success);
        }
        Ok(())
    }

    /// Concludes with `auth` the pending reviews of `kyc_fields` at `kyc_index` in
    /// the KYC of `target`, repatriating the paid fees to `ias` and `sup`; gives
    /// the concluded reviews and the area of the user.
    fn confirm_judgements<C: ReservableCurrency>(
        &self,
        currency: &mut C,
        target: &AccountId,
        kyc_fields: &KYCFields,
        kyc_index: KYCIndex,
        ias: &IASInfo,
        sup: &IASInfo,
        auth: &Authentication,
    ) -> (r: (Vec<JudgementItem>, AreaCode))
        requires
            self.storage().kyc_of.contains_key(*target),
        ensures
            r.0@ == judgements_confirmed(self.storage().kyc_of[*target].judgements@, *kyc_fields, kyc_index, *auth),
            r.1 == self.storage().kyc_of[*target].info.area,
            final(currency).balances() == repatriated::<C>(old(currency).balances(),
                self.storage().kyc_of[*target].judgements@, *kyc_fields, kyc_index, *target, *ias, *sup),
    {
        let registration = self.kyc_of.get(target).unwrap();
        let ghost orig = registration.judgements@;
        let ghost b0 = currency.balances();
        let mut judgements: Vec<JudgementItem> = Vec::new();
        let n = registration.judgements.len();
        let mut i: usize = 0;
        while i < n
            invariant
                n == orig.len(),
                orig == registration.judgements@,
                i <= n,
                judgements@ == judgements_confirmed(orig, *kyc_fields, kyc_index, *auth).take(i as int),
                currency.balances() == repatriated::<C>(b0, orig.take(i as int), *kyc_fields, kyc_index, *target, *ias, *sup),
            decreases n - i,
        {
            proof {
                assert(orig.take(i + 1).drop_last() =~= orig.take(i as int));
                assert(orig.take(i + 1).last() == orig[i as int]);
            }
            let element = registration.judgements[i];
            if element.0 == *kyc_fields && element.1 == kyc_index && element.3.is_pending() {
                if element.4 > 0 {
                    let _ = currency.repatriate_reserved(*target, ias.account, ias.fee, BalanceStatus::Free);
                    let _ = currency.repatriate_reserved(*target, sup.account, sup.fee, BalanceStatus::Free);
                }
                judgements.push((element.0, element.1, element.2, *auth, 0));
            } else {
                judgements.push(element);
            }
            proof {
                assert(judgements@ =~= judgements_confirmed(orig, *kyc_fields, kyc_index, *auth).take(i + 1));
            }
            i = i + 1;
        }
        proof {
            assert(orig.take(n as int) =~= orig);
            assert(judgements@ =~= judgements_confirmed(orig, *kyc_fields, kyc_index, *auth));
        }
        (judgements, registration.info.area)
    }

    /// Sets to `Success` the applications of `target` that the query is about;
    /// `j` is the first of them.
    fn succeed_form(&mut self, target: &AccountId, j: usize, q: FormQuery)
        requires
            old(self).wf(),
            q is IasDone,
            j < seq_in(old(self).storage().forms, *target).len(),
            j == first_match(seq_in(old(self).storage().forms, *target), q),
        ensures
            final(self).wf(),
            final(self).storage() == (KycStorage { forms: final(self).storage().forms, ..old(self).storage() }),
            vec_entry_set(old(self).storage().forms, final(self).storage().forms, *target,
                forms_succeeded(seq_in(old(self).storage().forms, *target), q)),
    {
        let ghost before = self.storage();
        let mut list = self.forms.remove(target).unwrap();
        let ghost orig = list@;
        proof {
            lemma_first_match_props(orig, q);
            assert(before.forms.contains_key(*target));
            assert(forms_well_formed(orig));
        }
        let mut app = list[j].unwrap();
        app.set_progress(Progress::Success);
        list.set(j, Some(app));
        proof {
            assert forall|k: int| 0 <= k < orig.len() implies list@[k] == forms_succeeded(orig, q)[k] by {
                if k != j && form_matches(q, orig[k]) {
                    lemma_ias_done_unique(orig, q, j as int, k);
                }
            }
            assert(list@ =~= forms_succeeded(orig, q));
        }
        self.forms.insert(*target, list);
        proof {
            assert(self.forms@.remove(*target) =~= before.forms.remove(*target));
            assert(self.forms@.dom() =~= before.forms.dom());
            assert(before.forms.dom().insert(*target) =~= before.forms.dom());
            assert(orig == seq_in(before.forms, *target));
            assert(self.forms@[*target]@ == forms_succeeded(orig, q));
            assert forall|a: AccountId| #[trigger] self.forms@.contains_key(a)
                implies forms_well_formed(self.forms@[a]@) by {
                if a != *target {
                    assert(before.forms.contains_key(a));
                } else {
                    let fs = self.forms@[a]@;
                    assert forall|x: int, y: int| 0 <= x < y < fs.len() implies
                        (#[trigger] fs[x])->0.ias.1.fields != (#[trigger] fs[y])->0.ias.1.fields by {
                        assert(orig[x]->0.ias.1.fields != orig[y]->0.ias.1.fields);
                    }
                    assert forall|x: int| 0 <= x < fs.len() implies (#[trigger] fs[x]) is Some
                        && fs[x]->0.ias.1.fields == fs[x]->0.supervisor.1.fields by {
                        assert(orig[x] is Some);
                    }
                }
            }
        }
    }

    /// The sword holder signing `origin` concludes with `auth` the review of
    /// `kyc_fields` at `kyc_index` for `target`; `id` is the code of the document
    /// that the IAS checked.
    pub fn sword_holder_provide_judgement<C: ReservableCurrency>(
        &mut self,
        currency: &mut C,
        origin: Origin,
        kyc_fields: KYCFields,
        kyc_index: KYCIndex,
        target: AccountId,
        auth: Authentication,
        id: Data,
    ) -> (r: Result<(), Error>)
        requires
            old(self).wf(),
        ensures
            final(self).wf(),
            sword_provide_outcome::<C>(old(self).storage(), final(self).storage(), old(currency).balances(),
                final(currency).balances(), origin, kyc_fields, kyc_index, target, auth, id, r),
    {
        let sender = match ensure_signed(origin) {
            Some(who) => who,
            None => {
                return Err(Error::BadOrigin);
            },
        };
        match self.verify_permissions(&sender, &kyc_fields, false) {
            Ok(()) => {},
            Err(e) => {
                return Err(e);
            },
        }
        if auth.is_pending() {
            return Err(Error::PendingAuthentication);
        }
        let ghost before = self.storage();
        match self.sword_do_provide_judgement(currency, &sender, kyc_fields, kyc_index, &target, &auth, &id) {
            Ok(()) => {},
            Err(e) => {
                return Err(e);
            },
        }
        let ghost mid = self.storage();
        self.deposit_event(Event::AuthenticationGiven(target, kyc_index));
        assert(mid == KycStorage { events: before.events, ..self.storage() });
        Ok(())
    }

    /// The number of random draws made so far.
    pub fn get_nonce(&self) -> (r: u64)
        ensures
            r == self.storage().nonce,
    {
        self.nonce
    }

    /// The number of verified users of `area`.
    pub fn area_data(&self, area: &AreaCode) -> (r: u64)
        ensures
            r == area_count(self.storage().area_data, *area),
    {
        match self.area_data.get(area) {
            Some(c) => *c,
            None => 0,
        }
    }

    /// The KYC of `who`, if any.
    pub fn kyc(&self, who: &AccountId) -> (r: Option<&Registration>)
        ensures
            r matches Some(reg) ==> self.storage().kyc_of.contains_key(*who) && *reg == self.storage().kyc_of[*who],
            r is None ==> !self.storage().kyc_of.contains_key(*who),
    {
        self.kyc_of.get(who)
    }

    /// Why `who` is on the black list, if it is.
    pub fn blacklist(&self, who: &AccountId) -> (r: Option<&BlackInfo>)
        ensures
            r matches Some(b) ==> self.storage().blacklist.contains_key(*who) && *b == self.storage().blacklist[*who],
            r is None ==> !self.storage().blacklist.contains_key(*who),
    {
        self.blacklist.get(who)
    }

    /// The IAS of `kyc_fields`.
    pub fn ias_list(&self, kyc_fields: &KYCFields) -> (r: Vec<Option<IASInfo>>)
        ensures
            r@ == service_list(self.storage(), true, *kyc_fields),
    {
        match self.ias_list.get(&kyc_fields.code()) {
            Some(l) => copy_vec(l),
            None => Vec::new(),
        }
    }

    /// The sword holders of `kyc_fields`.
    pub fn sword_holder(&self, kyc_fields: &KYCFields) -> (r: Vec<Option<IASInfo>>)
        ensures
            r@ == service_list(self.storage(), false, *kyc_fields),
    {
        match self.sword_holder.get(&kyc_fields.code()) {
            Some(l) => copy_vec(l),
            None => Vec::new(),
        }
    }

    /// The records of `who`.
    pub fn records(&self, who: &AccountId) -> (r: Vec<Record>)
        ensures
            r@ == seq_in(self.storage().records, *who),
    {
        match self.records.get(who) {
            Some(l) => copy_vec(l),
            None => Vec::new(),
        }
    }

    /// The identification codes used in `kyc_fields`.
    pub fn unique_id(&self, kyc_fields: &KYCFields) -> (r: &[Data])
        ensures
            r@ == seq_in(self.storage().unique_id, field_code(*kyc_fields)),
    {
        match self.unique_id.get(&kyc_fields.code()) {
            Some(l) => l.as_slice(),
            None => &[],
        }
    }

    /// The messages from `sender` to `recipient`.
    pub fn message(&self, sender: &AccountId, recipient: &AccountId) -> (r: &[Message])
        ensures
            r@ == seq_in(self.storage().messages, message_key(*sender, *recipient)),
    {
        let key = (*sender as u128) * 0x1_0000_0000_0000_0000u128 + (*recipient as u128);
        assert(key == message_key(*sender, *recipient));
        match self.messages.get(&key) {
            Some(l) => l.as_slice(),
            None => &[],
        }
    }

    /// The applications of `who`.
    pub fn application_form(&self, who: &AccountId) -> (r: Vec<Option<ApplicationForm>>)
        ensures
            r@ == seq_in(self.storage().forms, *who),
    {
        match self.forms.get(who) {
            Some(l) => copy_vec(l),
            None => Vec::new(),
        }
    }

    /// The events deposited so far, oldest first.
    pub fn events(&self) -> (r: &Vec<Event>)
        ensures
            r@ == self.storage().events,
    {
        &self.events
    }

    /// Appends `record` to the records of `who`.
    pub fn add_record_list(&mut self, who: &AccountId, record: Record) -> (r: Result<(), Error>)
        requires
            old(self).wf(),
        ensures
            final(self).wf(),
            r == Ok::<(), Error>(()),
            final(self).storage() == (KycStorage { records: final(self).storage().records, ..old(self).storage() }),
            vec_entry_set(old(self).storage().records, final(self).storage().records, *who,
                seq_in(old(self).storage().records, *who).push(record)),
    {
        let ghost before = self.storage();
        let mut list = match self.records.remove(who) {
            Some(l) => l,
            None => Vec::new(),
        };
        list.push(record);
        self.records.insert(*who, list);
        proof {
            assert(self.records@.remove(*who) =~= before.records.remove(*who));
            assert(self.records@.dom() =~= before.records.dom().insert(*who));
            lemma_wf_frame(before, self.storage());
        }
        Ok(())
    }

    /// Sets to `progress` the records of `who` about `target` and `kyc_fields`.
    pub fn update_record_list(&mut self, who: &AccountId, target: &AccountId, kyc_fields: &KYCFields, progress: Progress) -> (r: Result<(), Error>)
        requires
            old(self).wf(),
        ensures
            final(self).wf(),
            r == Ok::<(), Error>(()),
            final(self).storage() == (KycStorage { records: final(self).storage().records, ..old(self).storage() }),
            vec_entry_set(old(self).storage().records, final(self).storage().records, *who,
                records_progressed(seq_in(old(self).storage().records, *who), *target, *kyc_fields, progress)),
    {
        let ghost before = self.storage();
        let mut list = match self.records.remove(who) {
            Some(l) => l,
            None => Vec::new(),
        };
        let ghost orig = list@;
        let n = list.len();
        let mut i: usize = 0;
        while i < n
            invariant
                n == list@.len(),
                orig.len() == n,
                i <= n,
                forall|j: int| 0 <= j < i ==> list@[j] == records_progressed(orig, *target, *kyc_fields, progress)[j],
                forall|j: int| i <= j < n ==> list@[j] == orig[j],
            decreases n - i,
        {
            let rec = list[i];
            if rec.account == *target && rec.fields == *kyc_fields {
                list.set(i, Record { progress, ..rec });
            }
            i = i + 1;
        }
        assert(list@ =~= records_progressed(orig, *target, *kyc_fields, progress));
        self.records.insert(*who, list);
        proof {
            assert(self.records@.remove(*who) =~= before.records.remove(*who));
            assert(self.records@.dom() =~= before.records.dom().insert(*who));
            lemma_wf_frame(before, self.storage());
        }
        Ok(())
    }

    /// Sets to `progress` the applications of `who` made with the given IAS and
    /// sword holder for `kyc_fields`, unless they have failed.
    pub fn update_application_form(
        &mut self,
        who: &AccountId,
        ias_account: AccountId,
        ias_index: KYCIndex,
        supervisor_account: AccountId,
        supervisor_index: KYCIndex,
        kyc_fields: KYCFields,
        progress: Progress,
    ) -> (r: Result<(), Error>)
        requires
            old(self).wf(),
        ensures
            final(self).wf(),
            r == Ok::<(), Error>(()),
            final(self).storage() == (KycStorage { forms: final(self).storage().forms, ..old(self).storage() }),
            vec_entry_set(old(self).storage().forms, final(self).storage().forms, *who,
                forms_progressed(seq_in(old(self).storage().forms, *who), ias_account, ias_index,
                    supervisor_account, supervisor_index, kyc_fields, progress)),
    {
        let ghost before = self.storage();
        let mut list = match self.forms.remove(who) {
            Some(l) => l,
            None => Vec::new(),
        };
        let ghost orig = list@;
        let ghost target = forms_progressed(orig, ias_account, ias_index, supervisor_account, supervisor_index, kyc_fields, progress);
        let n = list.len();
        let mut i: usize = 0;
        while i < n
            invariant
                n == list@.len(),
                orig.len() == n,
                target == forms_progressed(orig, ias_account, ias_index, supervisor_account, supervisor_index, kyc_fields, progress),
                i <= n,
                forall|j: int| 0 <= j < i ==> list@[j] == target[j],
                forall|j: int| i <= j < n ==> list@[j] == orig[j],
            decreases n - i,
        {
            match list[i] {
                Some(a) => {
                    if a.ias.0 == ias_index && a.ias.1.account == ias_account && a.ias.1.fields == kyc_fields
                        && a.supervisor.0 == supervisor_index && a.supervisor.1.account == supervisor_account
                        && a.progress != Progress::Failure {
                        let mut updated = a;
                        updated.set_progress(progress);
                        list.set(i, Some(updated));
                    }
                },
                None => {},
            }
            i = i + 1;
        }
        assert(list@ =~= target);
        self.forms.insert(*who, list);
        proof {
            assert(self.forms@.remove(*who) =~= before.forms.remove(*who));
            assert(self.forms@.dom() =~= before.forms.dom().insert(*who));
            assert forall|a: AccountId| #[trigger] self.forms@.contains_key(a)
                implies forms_well_formed(self.forms@[a]@) by {
                if a != *who {
                    assert(before.forms.contains_key(a));
                } else if before.forms.contains_key(a) {
                    let fs = self.forms@[a]@;
                    assert(forms_well_formed(orig));
                    assert forall|i: int, j: int| 0 <= i < j < fs.len() implies
                        (#[trigger] fs[i])->0.ias.1.fields != (#[trigger] fs[j])->0.ias.1.fields by {
                        assert(orig[i]->0.ias.1.fields != orig[j]->0.ias.1.fields);
                    }
                    assert forall|i: int| 0 <= i < fs.len() implies (#[trigger] fs[i]) is Some
                        && fs[i]->0.ias.1.fields == fs[i]->0.supervisor.1.fields by {
                        assert(orig[i] is Some);
                    }
                }
            }
        }
        Ok(())
    }

    /// Appends `message` to the messages from `who` to `target`.
    pub fn add_message_list(&mut self, who: &AccountId, target: &AccountId, message: Message) -> (r: Result<(), Error>)
        requires
            old(self).wf(),
        ensures
            final(self).wf(),
            r == Ok::<(), Error>(()),
            final(self).storage() == (KycStorage { messages: final(self).storage().messages, ..old(self).storage() }),
            vec_entry_set(old(self).storage().messages, final(self).storage().messages, message_key(*who, *target),
                seq_in(old(self).storage().messages, message_key(*who, *target)).push(message)),
    {
        let ghost before = self.storage();
        let key = (*who as u128) * 0x1_0000_0000_0000_0000u128 + (*target as u128);
        assert(key == message_key(*who, *target));
        let mut list = match self.messages.remove(&key) {
            Some(l) => l,
            None => Vec::new(),
        };
        list.push(message);
        self.messages.insert(key, list);
        proof {
            assert(self.messages@.remove(key) =~= before.messages.remove(key));
            assert(self.messages@.dom() =~= before.messages.dom().insert(key));
            lemma_wf_frame(before, self.storage());
        }
        Ok(())
    }

    /// Appends `id` to the identification codes used in `kyc_fields`.
    pub fn add_unique_id_list(&mut self, kyc_fields: &KYCFields, id: Data) -> (r: Result<(), Error>)
        requires
            old(self).wf(),
        ensures
            final(self).wf(),
            r == Ok::<(), Error>(()),
            final(self).storage() == (KycStorage { unique_id: final(self).storage().unique_id, ..old(self).storage() }),
            vec_entry_set(old(self).storage().unique_id, final(self).storage().unique_id, field_code(*kyc_fields),
                seq_in(old(self).storage().unique_id, field_code(*kyc_fields)).push(id)),
    {
        let ghost before = self.storage();
        let code = kyc_fields.code();
        let mut list = match self.unique_id.remove(&code) {
            Some(l) => l,
            None => Vec::new(),
        };
        list.push(id);
        self.unique_id.insert(code, list);
        proof {
            assert(self.unique_id@.remove(code) =~= before.unique_id.remove(code));
            assert(self.unique_id@.dom() =~= before.unique_id.dom().insert(code));
            lemma_wf_frame(before, self.storage());
        }
        Ok(())
    }

    /// Sets to `auth` the authentication of the reviews of `kyc_fields` by the IAS
    /// at `kyc_index` in the KYC of `who`.
    pub fn update_kyc_auth(&mut self, who: &AccountId, kyc_fields: &KYCFields, kyc_index: KYCIndex, auth: &Authentication) -> (r: Result<(), Error>)
        requires
            old(self).wf(),
        ensures
            final(self).wf(),
            !old(self).storage().kyc_of.contains_key(*who) ==> r == Err::<(), Error>(Error::InvalidTarget)
                && final(self).storage() == old(self).storage(),
            old(self).storage().kyc_of.contains_key(*who) ==> {
                &&& r == Ok::<(), Error>(())
                &&& final(self).storage() == (KycStorage { kyc_of: final(self).storage().kyc_of, ..old(self).storage() })
                &&& judgements_set(old(self).storage().kyc_of, final(self).storage().kyc_of, *who,
                    judgements_authed(old(self).storage().kyc_of[*who].judgements@, *kyc_fields, kyc_index, *auth))
            },
    {
        let ghost before = self.storage();
        let mut registration = match self.kyc_of.remove(who) {
            Some(reg) => reg,
            None => {
                assert(self.kyc_of@ =~= before.kyc_of);
                return Err(Error::InvalidTarget);
            },
        };
        let ghost orig = registration.judgements@;
        let n = registration.judgements.len();
        let mut i: usize = 0;
        while i < n
            invariant
                n == registration.judgements@.len(),
                orig.len() == n,
                i <= n,
                registration.info == before.kyc_of[*who].info,
                registration.deposit == before.kyc_of[*who].deposit,
                forall|j: int| 0 <= j < i ==> registration.judgements@[j] == judgements_authed(orig, *kyc_fields, kyc_index, *auth)[j],
                forall|j: int| i <= j < n ==> registration.judgements@[j] == orig[j],
            decreases n - i,
        {
            let element = registration.judgements[i];
            if element.0 == *kyc_fields && element.1 == kyc_index {
                registration.judgements.set(i, (element.0, element.1, element.2, *auth, 0));
            }
            i = i + 1;
        }
        assert(registration.judgements@ =~= judgements_authed(orig, *kyc_fields, kyc_index, *auth));
        self.kyc_of.insert(*who, registration);
        proof {
            assert(self.kyc_of@.remove(*who) =~= before.kyc_of.remove(*who));
            assert(self.kyc_of@.dom() =~= before.kyc_of.dom());
            lemma_wf_frame(before, self.storage());
        }
        Ok(())
    }

    /// Counts one more verified user in `area`; refused when the count would overflow.
    pub fn increment_area_count(&mut self, area: &AreaCode) -> (r: Result<(), Error>)
        requires
            old(self).wf(),
        ensures
            final(self).wf(),
            area_count(old(self).storage().area_data, *area) == u64::MAX ==> r == Err::<(), Error>(Error::CountOverflow)
                && final(self).storage() == old(self).storage(),
            area_count(old(self).storage().area_data, *area) < u64::MAX ==> r == Ok::<(), Error>(())
                && final(self).storage() == (KycStorage {
                    area_data: old(self).storage().area_data.insert(*area, (area_count(old(self).storage().area_data, *area) + 1) as u64),
                    ..old(self).storage()
                }),
    {
        let ghost before = self.storage();
        let count: u64 = match self.area_data.get(area) {
            Some(c) => *c,
            None => 0,
        };
        match count.checked_add(1) {
            Some(next) => {
                self.area_data.insert(*area, next);
                proof { lemma_wf_frame(before, self.storage()); }
                Ok(())
            },
            None => Err(Error::CountOverflow),
        }
    }

    /// The signer of `origin` sets its KYC, or resets it, holding the basic
    /// deposit; a reset keeps the reviews still paid for. An account on the black
    /// list cannot.
    pub fn set_kyc<C: ReservableCurrency>(&mut self, currency: &mut C, origin: Origin, info: KYCInfo) -> (r: Result<(), Error>)
        requires
            old(self).wf(),
        ensures
            final(self).wf(),
            set_kyc_outcome::<C>(old(self).storage(), final(self).storage(), old(currency).balances(),
                final(currency).balances(), origin, info, r),
    {
        let sender = match ensure_signed(origin) {
            Some(who) => who,
            None => {
                return Err(Error::BadOrigin);
            },
        };
        if self.blacklist.contains_key(&sender) {
            return Err(Error::Blacklisted);
        }
        let (old_deposit, judgements) = match self.kyc_of.get(&sender) {
            Some(reg) => (reg.deposit, paid_reviews(&reg.judgements)),
            None => (0, Vec::new()),
        };
        let deposit = self.config.basic_deposit;
        if deposit > old_deposit {
            match currency.reserve(sender, deposit - old_deposit) {
                Ok(()) => {},
                Err(e) => {
                    return Err(Error::Currency(e));
                },
            }
        }
        if old_deposit > deposit {
            let _ = currency.unreserve(sender, old_deposit - deposit);
        }
        let reg = Registration { info, judgements, deposit };
        let ghost before = self.storage();
        self.kyc_of.insert(sender, reg);
        proof {
            assert(self.kyc_of@.remove(sender) =~= before.kyc_of.remove(sender));
            lemma_wf_frame(before, self.storage());
        }
        self.deposit_event(Event::KYCSet(sender));
        Ok(())
    }

    /// The signer of `origin` clears its KYC and its applications; what was held
    /// for it is unreserved.
    pub fn clear_kyc<C: ReservableCurrency>(&mut self, currency: &mut C, origin: Origin) -> (r: Result<(), Error>)
        requires
            old(self).wf(),
        ensures
            final(self).wf(),
            clear_kyc_outcome::<C>(old(self).storage(), final(self).storage(), old(currency).balances(),
                final(currency).balances(), origin, r),
    {
        let sender = match ensure_signed(origin) {
            Some(who) => who,
            None => {
                return Err(Error::BadOrigin);
            },
        };
        let ghost before = self.storage();
        let reg = match self.kyc_of.remove(&sender) {
            Some(reg) => reg,
            None => {
                assert(self.kyc_of@ =~= before.kyc_of);
                return Err(Error::NotFound);
            },
        };
        let deposit = reg.total_deposit();
        let _ = currency.unreserve(sender, deposit);
        let _ = self.forms.remove(&sender);
        proof { self.lemma_forms_removed_wf(before, sender); }
        self.deposit_event(Event::KYCCleared(sender, deposit));
        Ok(())
    }

    /// A privileged origin removes the KYC of `target`, with its applications, and
    /// puts it on the black list; its basic deposit is unreserved and withdrawn.
    pub fn remove_kyc<C: ReservableCurrency>(&mut self, currency: &mut C, origin: Origin, target: AccountId, black: Black) -> (r: Result<(), Error>)
        requires
            old(self).wf(),
        ensures
            final(self).wf(),
            remove_kyc_outcome::<C>(old(self).storage(), final(self).storage(), old(currency).balances(),
                final(currency).balances(), origin, target, black, r),
    {
        if !origin_allowed(self.config.force_origin, origin) {
            return Err(Error::BadOrigin);
        }
        if self.blacklist.contains_key(&target) {
            return Err(Error::Blacklisted);
        }
        if !self.kyc_of.contains_key(&target) {
            return Err(Error::NoKYC);
        }
        let mut info: Vec<Black> = Vec::new();
        info.push(black);
        let black_info = BlackInfo { info };
        let ghost before0 = self.storage();
        let _ = self.forms.remove(&target);
        proof { self.lemma_forms_removed_wf(before0, target); }
        let ghost before1 = self.storage();
        let _ = self.kyc_of.remove(&target);
        proof { lemma_wf_frame(before1, self.storage()); }
        let basic_deposit = self.config.basic_deposit;
        let _ = currency.unreserve(target, basic_deposit);
        let _ = currency.withdraw(target, basic_deposit, WithdrawReasons::Fee, ExistenceRequirement::KeepAlive);
        let ghost before = self.storage();
        self.blacklist.insert(target, black_info);
        proof {
            lemma_wf_frame(before, self.storage());
            assert(self.blacklist@.remove(target) =~= before.blacklist);
            assert(self.blacklist@[target].info@ =~= seq![black]);
        }
        self.deposit_event(Event::KYCRemove(target));
        Ok(())
    }

    /// Adds `ias_info` to the IAS (or the sword holders) of its field at `kyc_index`,
    /// holding the service deposit of its account.
    pub fn add_kyc_service<C: ReservableCurrency>(&mut self, currency: &mut C, kyc_index: KYCIndex, ias_info: IASInfo, is_ias: bool) -> (r: Result<(), Error>)
        requires
            old(self).wf(),
        ensures
            final(self).wf(),
            add_service_outcome::<C>(old(self).storage(), final(self).storage(), old(currency).balances(),
                final(currency).balances(), kyc_index, ias_info, is_ias, r),
    {
        let code = ias_info.fields.code();
        let ghost before = self.storage();
        let ghost orig = seq_in(services(before, is_ias), code);
        let (n, distinct) = self.scan_services(is_ias, code, ias_info.account);
        proof {
            if services(before, is_ias).contains_key(code) {
                assert(lists_bounded(services(before, is_ias)));
            }
        }
        if !distinct {
            return Err(Error::AccountExists);
        }
        let len = n as u64;
        if !(len + 1 > kyc_index as u64) {
            return Err(Error::OutofBounds);
        }
        let max = if is_ias { self.config.max_ias } else { self.config.max_sword_holder };
        if !(len < max as u64) {
            return Err(Error::TooManyAccount);
        }
        match currency.reserve(ias_info.account, self.config.service_deposit) {
            Ok(()) => {},
            Err(e) => {
                return Err(Error::Currency(e));
            },
        }
        let mut list = self.take_services(is_ias, code);
        if len == kyc_index as u64 {
            list.push(Some(ias_info));
        } else {
            list.set(kyc_index as usize, Some(ias_info));
        }
        assert(list@ =~= placed(orig, kyc_index, ias_info));
        self.put_services(is_ias, code, list);
        proof {
            let m = services(before, is_ias);
            assert(m.remove(code).insert(code, list) =~= m.insert(code, list));
            assert(services(self.storage(), is_ias) == m.insert(code, list));
            assert(m.insert(code, list).remove(code) =~= m.remove(code));
            assert(m.insert(code, list).dom() =~= m.dom().insert(code));
            assert forall|c: u8| #[trigger] services(self.storage(), is_ias).contains_key(c)
                implies services(self.storage(), is_ias)[c]@.len() <= u32::MAX by {
                if c != code {
                    assert(m.contains_key(c));
                }
            }
        }
        Ok(())
    }

    /// The length of the provider list of a field, and whether each of its
    /// entries is a provider other than `who`.
    fn scan_services(&self, is_ias: bool, code: u8, who: AccountId) -> (r: (usize, bool))
        ensures
            r.0 == seq_in(services(self.storage(), is_ias), code).len(),
            r.1 == all_others(seq_in(services(self.storage(), is_ias), code), who),
    {
        let listed = if is_ias { self.ias_list.get(&code) } else { self.sword_holder.get(&code) };
        let list = match listed {
            Some(l) => l,
            None => {
                return (0, true);
            },
        };
        let n = list.len();
        let mut i: usize = 0;
        let mut distinct = true;
        while i < n
            invariant
                n == list@.len(),
                i <= n,
                distinct == all_others(list@.take(i as int), who),
            decreases n - i,
        {
            proof {
                assert(list@.take(i + 1).drop_last() =~= list@.take(i as int));
            }
            match list[i] {
                Some(info) => {
                    if info.account == who {
                        distinct = false;
                    }
                },
                None => {
                    distinct = false;
                },
            }
            proof {
                let prev = list@.take(i as int);
                let next = list@.take(i + 1);
                assert(forall|j: int| 0 <= j < i ==> next[j] == prev[j]);
                assert(next[i as int] == list@[i as int]);
                if all_others(next, who) {
                    assert(all_others(prev, who));
                }
            }
            i = i + 1;
        }
        assert(list@.take(n as int) =~= list@);
        (n, distinct)
    }

    /// Sets the fee of `who` in the provider list of `kyc_fields`.
    pub fn do_set_fee(&mut self, who: &AccountId, kyc_fields: &KYCFields, fee: &Balance, is_ias: bool) -> (r: Result<(), Error>)
        requires
            old(self).wf(),
        ensures
            final(self).wf(),
            r == Ok::<(), Error>(()),
            services_set(old(self).storage(), final(self).storage(), is_ias, *kyc_fields,
                with_fee(service_list(old(self).storage(), is_ias, *kyc_fields), *who, *fee)),
    {
        let code = kyc_fields.code();
        let ghost before = self.storage();
        let mut list = self.take_services(is_ias, code);
        let ghost orig = list@;
        let n = list.len();
        let mut i: usize = 0;
        while i < n
            invariant
                n == list@.len(),
                orig.len() == n,
                i <= n,
                forall|j: int| 0 <= j < i ==> list@[j] == with_fee(orig, *who, *fee)[j],
                forall|j: int| i <= j < n ==> list@[j] == orig[j],
            decreases n - i,
        {
            match list[i] {
                Some(info) => {
                    if info.account == *who {
                        let mut updated = info;
                        updated.set_fee(*fee);
                        list.set(i, Some(updated));
                    }
                },
                None => {},
            }
            i = i + 1;
        }
        assert(list@ =~= with_fee(orig, *who, *fee));
        self.put_services(is_ias, code, list);
        proof {
            let m = services(before, is_ias);
            assert(m.remove(code).insert(code, list) =~= m.insert(code, list));
            assert(services(self.storage(), is_ias) == m.insert(code, list));
            assert(m.insert(code, list).remove(code) =~= m.remove(code));
            assert(m.insert(code, list).dom() =~= m.dom().insert(code));
        }
        Ok(())
    }
}

impl KycHandler for Pallet {
    open spec fn spec_user_area(&self, user: AccountId) -> Option<AreaCode> {
        if self.storage().kyc_of.contains_key(user) {
            Some(self.storage().kyc_of[user].info.area)
        } else {
            None
        }
    }

    fn get_user_area(&self, user: &AccountId) -> (r: Option<AreaCode>) {
        match self.kyc_of.get(user) {
            Some(info) => Some(info.info.area),
            None => None,
        }
    }
}

impl EventEq for Event {
    fn event_eq(&self, other: &Self) -> (r: bool) {
        let r = self.same_as(other);
        proof {
            match (*self, *other) {
                (Event::GetIAS(i, k), Event::GetIAS(j, l)) => {
                    if k@ == l@ { assert(k =~= l); }
                },
                (Event::GetSwordHolder(i, k), Event::GetSwordHolder(j, l)) => {
                    if k@ == l@ { assert(k =~= l); }
                },
                _ => {},
            }
        }
        r
    }
}

} // verus!
