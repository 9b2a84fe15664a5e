//! The records that the KYC pallet keeps: registrations, service providers,
//! applications and their progress.

use vstd::prelude::*;

use crate::currency::{AccountId, Balance};

verus! {

/// Position of a service provider in the list of its KYC field.
pub type KYCIndex = u32;

/// Code of the area (country or region) a user lives in.
pub type AreaCode = u16;

/// Free-form data: a name, an e-mail address, a document number.
pub type Data = Vec<u8>;

/// An encrypted message from one account to another.
pub type Message = Vec<u8>;

/// Key that a service provider hands out for an exchange.
pub type ExchangeKey = [u8; 32];

/// The part of a user's identity that a review is about.
#[derive(Clone, Copy, Debug, PartialEq, Eq, Structural)]
pub enum KYCFields {
    Name,
    Area,
    CurriculumVitae,
    NickName,
    Email,
}

/// Storage key of a KYC field.
pub open spec fn field_code(f: KYCFields) -> u8 {
    match f {
        KYCFields::Name => 0,
        KYCFields::Area => 1,
        KYCFields::CurriculumVitae => 2,
        KYCFields::NickName => 3,
        KYCFields::Email => 4,
    }
}

/// Distinct fields have distinct storage keys.
pub proof fn lemma_field_code_injective(a: KYCFields, b: KYCFields)
    ensures
        field_code(a) == field_code(b) <==> a == b,
{
}

impl KYCFields {
    /// Storage key of this field.
    pub fn code(&self) -> (c: u8)
        ensures
            c == field_code(*self),
    {
        match self {
            KYCFields::Name => 0,
            KYCFields::Area => 1,
            KYCFields::CurriculumVitae => 2,
            KYCFields::NickName => 3,
            KYCFields::Email => 4,
        }
    }
}

/// The conclusion of an identity authentication service (IAS) on a field.
#[derive(Clone, Copy, Debug, PartialEq, Eq, Structural)]
pub enum Judgement {
    /// No conclusion yet.
    Unknown,
    /// The fee for the review was paid and is held in reserve.
    FeePaid(Balance),
    /// The data was found correct.
    Reasonable,
    /// The data was found wrong.
    Erroneous,
}

impl Judgement {
    /// Whether the judgement holds a paid fee.
    pub fn is_paid(&self) -> (r: bool)
        ensures
            r == (*self is FeePaid),
    {
        match self {
            Judgement::FeePaid(_) => true,
            _ => false,
        }
    }
}

/// The conclusion of a sword holder on the review of an IAS.
#[derive(Clone, Copy, Debug, PartialEq, Eq, Structural)]
pub enum Authentication {
    Unknown,
    Pending,
    Success,
    Failure,
}

impl Authentication {
    /// Whether the sword holder has not concluded yet.
    pub fn is_pending(&self) -> (r: bool)
        ensures
            r == (*self == Authentication::Pending),
    {
        match self {
            Authentication::Pending => true,
            _ => false,
        }
    }

    /// Whether the sword holder has refused the review.
    pub fn has_failure(&self) -> (r: bool)
        ensures
            r == (*self == Authentication::Failure),
    {
        match self {
            Authentication::Failure => true,
            _ => false,
        }
    }
}

/// Where an application stands.
#[derive(Clone, Copy, Debug, PartialEq, Eq, Structural)]
pub enum Progress {
    /// Applied for; no review requested yet.
    Pending,
    /// The IAS is reviewing.
    IasDoing,
    /// The IAS has reviewed; the sword holder is to conclude.
    IasDone,
    Success,
    Failure,
}

/// A service provider (IAS or sword holder) of one KYC field.
#[derive(Clone, Copy, Debug, PartialEq, Eq, Structural)]
pub struct IASInfo {
    pub account: AccountId,
    pub fee: Balance,
    pub fields: KYCFields,
}

impl IASInfo {
    /// Sets the fee of the provider.
    pub fn set_fee(&mut self, fee: Balance)
        ensures
            *final(self) == (IASInfo { fee, ..*old(self) }),
    {
        self.fee = fee;
    }
}

/// A user's application for the review of one field: the IAS and the sword
/// holder drawn for it, with their indices, and its progress.
#[derive(Clone, Copy, Debug, PartialEq, Eq)]
pub struct ApplicationForm {
    pub ias: (KYCIndex, IASInfo),
    pub supervisor: (KYCIndex, IASInfo),
    pub progress: Progress,
}

impl ApplicationForm {
    /// Whether an application for `fields` would repeat this one.
    pub fn is_repeat(&self, fields: &KYCFields) -> (r: bool)
        ensures
            r == (self.ias.1.fields == *fields),
    {
        self.ias.1.fields == *fields
    }

    /// Sets the progress of the application.
    pub fn set_progress(&mut self, progress: Progress)
        ensures
            *final(self) == (ApplicationForm { progress, ..*old(self) }),
    {
        self.progress = progress;
    }
}

/// What a provider keeps of an application it takes part in.
#[derive(Clone, Copy, Debug, PartialEq, Eq, Structural)]
pub struct Record {
    pub account: AccountId,
    pub progress: Progress,
    pub fields: KYCFields,
}

/// The identity a user submits.
#[derive(Clone, Debug, PartialEq, Eq)]
pub struct KYCInfo {
    pub name: Data,
    pub area: AreaCode,
    pub email: Data,
}

/// A review of one field: the field, the index of the IAS, its judgement, the
/// sword holder's authentication, and the fee held in reserve for it until the
/// sword holder concludes the review.
pub type JudgementItem = (KYCFields, KYCIndex, Judgement, Authentication, Balance);

/// The KYC of an account: its identity, the reviews of it, and the deposit held for it.
#[derive(Clone, Debug, PartialEq, Eq)]
pub struct Registration {
    pub info: KYCInfo,
    pub judgements: Vec<JudgementItem>,
    pub deposit: Balance,
}

/// The fees held for the reviews in `js`.
pub open spec fn paid_fees(js: Seq<JudgementItem>) -> int
    decreases js.len(),
{
    if js.len() == 0 {
        0
    } else {
        paid_fees(js.drop_last()) + js.last().4
    }
}

/// `x`, capped at `u128::MAX`.
pub open spec fn cap_balance(x: int) -> Balance {
    if x > u128::MAX { u128::MAX } else { x as Balance }
}

impl Registration {
    /// The deposit and the fees held for the reviews, capped at the largest balance.
    pub open spec fn spec_total_deposit(&self) -> Balance {
        cap_balance(self.deposit + paid_fees(self.judgements@))
    }

    /// Everything held in reserve for this registration: the deposit and the fees
    /// held for its reviews.
    pub fn total_deposit(&self) -> (r: Balance)
        ensures
            r == self.spec_total_deposit(),
    {
        let mut total: Balance = self.deposit;
        let n = self.judgements.len();
        let mut i: usize = 0;
        while i < n
            invariant
                n == self.judgements@.len(),
                i <= n,
                total == cap_balance(self.deposit + paid_fees(self.judgements@.take(i as int))),
            decreases n - i,
        {
            proof {
                assert(self.judgements@.take(i + 1).drop_last() =~= self.judgements@.take(i as int));
                assert(self.judgements@.take(i + 1).last() == self.judgements@[i as int]);
                assert(paid_fees(self.judgements@.take(i as int)) >= 0) by {
                    lemma_paid_fees_nonneg(self.judgements@.take(i as int));
                }
            }
            total = total.saturating_add(self.judgements[i].4);
            i = i + 1;
        }
        assert(self.judgements@.take(n as int) =~= self.judgements@);
        total
    }
}

/// Fees are never negative.
pub proof fn lemma_paid_fees_nonneg(js: Seq<JudgementItem>)
    ensures
        paid_fees(js) >= 0,
    decreases js.len(),
{
    if js.len() > 0 {
        lemma_paid_fees_nonneg(js.drop_last());
    }
}

/// Why an account was put on the black list.
#[derive(Clone, Debug, PartialEq, Eq)]
pub struct Black {
    pub reason: Data,
}

/// The reasons an account is on the black list for.
#[derive(Clone, Debug, PartialEq, Eq)]
pub struct BlackInfo {
    pub info: Vec<Black>,
}

} // verus!
