//! Properties of the KYC pallet that span calls.

use vstd::prelude::*;

use crate::currency::{
    account_of, moved_between, total_of, AccountData, AccountId, Balance, BalanceStatus, ReservableCurrency,
};
use crate::kyc::pallet::{
    add_service_call_outcome, apply_outcome, candidates, clear_kyc_outcome, first_match, ias_provide_outcome,
    id_used, lemma_candidates, remove_kyc_outcome, repatriated, request_outcome, seq_in, service_list,
    set_fee_outcome, set_kyc_outcome, storage_wf, sword_provide_outcome, Error, Event, FormQuery, KycStorage,
};
use crate::kyc::types::{
    field_code, Authentication, Black, Data, IASInfo, Judgement, KYCFields, KYCIndex, KYCInfo, Message,
};
use crate::system::{signer_of, Origin};

verus! {

/// A user without a KYC who sets one and then clears it is where it started: it
/// has no KYC again, and every account holds what it held, the deposit back in its
/// free balance.
pub proof fn law_clear_kyc_undoes_set_kyc<C: ReservableCurrency>(
    s0: KycStorage,
    s1: KycStorage,
    s2: KycStorage,
    b0: Map<AccountId, AccountData>,
    b1: Map<AccountId, AccountData>,
    b2: Map<AccountId, AccountData>,
    who: AccountId,
    info: KYCInfo,
    r1: Result<(), Error>,
    r2: Result<(), Error>,
)
    requires
        !s0.kyc_of.contains_key(who),
        set_kyc_outcome::<C>(s0, s1, b0, b1, Origin::Signed(who), info, r1),
        r1 is Ok,
        clear_kyc_outcome::<C>(s1, s2, b1, b2, Origin::Signed(who), r2),
    ensures
        r2 is Ok,
        s2.kyc_of == s0.kyc_of,
        s2.forms == s0.forms.remove(who),
        s2.blacklist == s0.blacklist,
        s2.events == s0.events.push(Event::KYCSet(who)).push(Event::KYCCleared(who, s0.config.basic_deposit)),
        forall|a: AccountId| #[trigger] account_of(b2, a) == account_of(b0, a),
{
    let mid = KycStorage { events: s0.events, ..s1 };
    let reg = s1.kyc_of[who];
    assert(reg.judgements@ == Seq::<crate::kyc::types::JudgementItem>::empty());
    assert(reg.spec_total_deposit() == s0.config.basic_deposit);
    assert(s2.kyc_of =~= s0.kyc_of);
    if s0.config.basic_deposit > 0 {
        C::law_unreserve_undoes_reserve(b0, who, s0.config.basic_deposit);
    } else {
        C::law_unreserve_nothing(b1, who);
    }
}

/// Once an account is put on the black list, it cannot set a KYC.
pub proof fn law_blacklisted_cannot_set_kyc<C: crate::currency::ReservableCurrency>(
    s0: KycStorage,
    s1: KycStorage,
    s2: KycStorage,
    b0: Map<AccountId, AccountData>,
    b1: Map<AccountId, AccountData>,
    b2: Map<AccountId, AccountData>,
    origin: Origin,
    target: AccountId,
    black: Black,
    info: KYCInfo,
    r1: Result<(), Error>,
    r2: Result<(), Error>,
)
    requires
        remove_kyc_outcome::<C>(s0, s1, b0, b1, origin, target, black, r1),
        r1 is Ok,
        set_kyc_outcome::<C>(s1, s2, b1, b2, Origin::Signed(target), info, r2),
    ensures
        r2 == Err::<(), Error>(Error::Blacklisted),
        s2 == s1,
        b2 == b1,
{
}

/// Once an account is put on the black list, it cannot apply for a review.
pub proof fn law_blacklisted_cannot_apply<C: crate::currency::ReservableCurrency>(
    s0: KycStorage,
    s1: KycStorage,
    s2: KycStorage,
    b0: Map<AccountId, AccountData>,
    b1: Map<AccountId, AccountData>,
    origin: Origin,
    target: AccountId,
    black: Black,
    f: KYCFields,
    max_fee: u128,
    random_ias: u64,
    random_sword: u64,
    r1: Result<(), Error>,
    r2: Result<(), Error>,
)
    requires
        remove_kyc_outcome::<C>(s0, s1, b0, b1, origin, target, black, r1),
        r1 is Ok,
        apply_outcome(s1, s2, Origin::Signed(target), f, max_fee, random_ias, random_sword, r2),
    ensures
        r2 == Err::<(), Error>(Error::Blacklisted),
        s2 == s1,
{
}

/// A document code serves one review of a field only: once an IAS has concluded
/// a review with it, any IAS of the field that tries it again is refused.
pub proof fn law_identification_code_used_once(
    s0: KycStorage,
    s1: KycStorage,
    s2: KycStorage,
    ias1: Origin,
    ias2: Origin,
    f: KYCFields,
    index1: KYCIndex,
    index2: KYCIndex,
    target1: AccountId,
    target2: AccountId,
    id: Data,
    id_again: Data,
    judgement1: Judgement,
    judgement2: Judgement,
    message1: Message,
    message2: Message,
    r1: Result<(), Error>,
    r2: Result<(), Error>,
)
    requires
        ias_provide_outcome(s0, s1, ias1, f, index1, target1, judgement1, id, message1, r1),
        r1 is Ok,
        id_again@ == id@,
        ias2 is Signed,
        crate::kyc::pallet::has_provider(service_list(s1, true, f), ias2->0),
        ias_provide_outcome(s1, s2, ias2, f, index2, target2, judgement2, id_again, message2, r2),
    ensures
        r2 == Err::<(), Error>(Error::NotUniqueID),
        s2 == s1,
{
    let ids = seq_in(s1.unique_id, field_code(f));
    let k = (ids.len() - 1) as int;
    assert(ids[k]@ == id_again@);
    assert(id_used(ids, id_again));
}

/// The IAS and the sword holder drawn for an application are providers of its
/// field, listed at the indices the application names, whose fees are at most
/// half of the fee the user offered.
pub proof fn law_drawn_providers_eligible(
    s0: KycStorage,
    s1: KycStorage,
    who: AccountId,
    f: KYCFields,
    max_fee: u128,
    random_ias: u64,
    random_sword: u64,
    r: Result<(), Error>,
)
    requires
        storage_wf(s0),
        apply_outcome(s0, s1, Origin::Signed(who), f, max_fee, random_ias, random_sword, r),
        r is Ok,
    ensures
        ({
            let form = seq_in(s1.forms, who).last()->0;
            &&& seq_in(s1.forms, who).len() == seq_in(s0.forms, who).len() + 1
            &&& service_list(s0, true, f)[form.ias.0 as int] == Some(form.ias.1)
            &&& service_list(s0, false, f)[form.supervisor.0 as int] == Some(form.supervisor.1)
            &&& form.ias.1.fields == f && form.supervisor.1.fields == f
            &&& form.ias.1.fee <= max_fee / 2 && form.supervisor.1.fee <= max_fee / 2
            &&& form.progress == crate::kyc::types::Progress::Pending
        }),
{
    let search_fee = (max_fee / 2) as u128;
    let l1 = service_list(s0, true, f);
    let l2 = service_list(s0, false, f);
    if s0.ias_list.contains_key(field_code(f)) {
        assert(crate::kyc::pallet::lists_bounded(s0.ias_list));
    }
    if s0.sword_holder.contains_key(field_code(f)) {
        assert(crate::kyc::pallet::lists_bounded(s0.sword_holder));
    }
    lemma_candidates(l1, f, search_fee);
    lemma_candidates(l2, f, search_fee);
    let c1 = candidates(l1, f, search_fee);
    let c2 = candidates(l2, f, search_fee);
    let i1 = (random_ias as int) % (c1.len() as int);
    let i2 = (random_sword as int) % (c2.len() as int);
    assert(0 <= i1 < c1.len());
    assert(0 <= i2 < c2.len());
}

/// A user cannot have two applications open for one field: once its application
/// for a field is taken, applying again for that field is refused and changes
/// nothing.
pub proof fn law_no_repeat_application(
    s0: KycStorage,
    s1: KycStorage,
    s2: KycStorage,
    who: AccountId,
    f: KYCFields,
    max_fee1: u128,
    max_fee2: u128,
    random_ias1: u64,
    random_sword1: u64,
    random_ias2: u64,
    random_sword2: u64,
    r1: Result<(), Error>,
    r2: Result<(), Error>,
)
    requires
        storage_wf(s0),
        apply_outcome(s0, s1, Origin::Signed(who), f, max_fee1, random_ias1, random_sword1, r1),
        r1 is Ok,
        apply_outcome(s1, s2, Origin::Signed(who), f, max_fee2, random_ias2, random_sword2, r2),
    ensures
        r2 == Err::<(), Error>(Error::RepeatApplication),
        s2 == s1,
{
    law_drawn_providers_eligible(s0, s1, who, f, max_fee1, random_ias1, random_sword1, r1);
    let forms = seq_in(s1.forms, who);
    let k = forms.len() - 1;
    assert(forms[k] is Some && forms[k]->0.ias.1.fields == f);
}

/// A call that a user, a provider or a privileged origin makes to the pallet,
/// with its arguments; a call of `apply_certification` carries the two random
/// numbers that it draws.
pub enum KycCall {
    SetKyc(Origin, KYCInfo),
    ClearKyc(Origin),
    RemoveKyc(Origin, AccountId, Black),
    AddIas(Origin, KYCIndex, IASInfo),
    AddSwordHolder(Origin, KYCIndex, IASInfo),
    IasSetFee(Origin, KYCFields, Balance),
    SwordHolderSetFee(Origin, KYCFields, Balance),
    ApplyCertification(Origin, KYCFields, Balance, u64, u64),
    RequestJudgement(Origin, KYCFields, KYCIndex, Message),
    IasProvideJudgement(Origin, KYCFields, KYCIndex, AccountId, Judgement, Data, Message),
    SwordHolderProvideJudgement(Origin, KYCFields, KYCIndex, AccountId, Authentication, Data),
}

/// Whether `call` takes the storage from `old` to `new` and the balances from
/// `b_old` to `b_new`, with the result `r`.
pub open spec fn call_outcome<C: ReservableCurrency>(
    old: KycStorage,
    new: KycStorage,
    b_old: Map<AccountId, AccountData>,
    b_new: Map<AccountId, AccountData>,
    call: KycCall,
    r: Result<(), Error>,
) -> bool {
    match call {
        KycCall::SetKyc(o, info) => set_kyc_outcome::<C>(old, new, b_old, b_new, o, info, r),
        KycCall::ClearKyc(o) => clear_kyc_outcome::<C>(old, new, b_old, b_new, o, r),
        KycCall::RemoveKyc(o, target, black) => remove_kyc_outcome::<C>(old, new, b_old, b_new, o, target, black, r),
        KycCall::AddIas(o, index, info) =>
            add_service_call_outcome::<C>(old, new, b_old, b_new, o, index, info, true, Event::IASAdded(index), r),
        KycCall::AddSwordHolder(o, index, info) =>
            add_service_call_outcome::<C>(old, new, b_old, b_new, o, index, info, false, Event::IASAdded(index), r),
        KycCall::IasSetFee(o, f, fee) => set_fee_outcome(old, new, o, f, fee, true, r) && b_new == b_old,
        KycCall::SwordHolderSetFee(o, f, fee) => set_fee_outcome(old, new, o, f, fee, false, r) && b_new == b_old,
        KycCall::ApplyCertification(o, f, max_fee, random_ias, random_sword) =>
            apply_outcome(old, new, o, f, max_fee, random_ias, random_sword, r) && b_new == b_old,
        KycCall::RequestJudgement(o, f, index, message) =>
            request_outcome::<C>(old, new, b_old, b_new, o, f, index, message, r),
        KycCall::IasProvideJudgement(o, f, index, target, judgement, id, message) =>
            ias_provide_outcome(old, new, o, f, index, target, judgement, id, message, r) && b_new == b_old,
        KycCall::SwordHolderProvideJudgement(o, f, index, target, auth, id) =>
            sword_provide_outcome::<C>(old, new, b_old, b_new, o, f, index, target, auth, id, r),
    }
}

/// Whether every identification code used in a field of `old` is used in it in `new`.
pub open spec fn codes_kept(old: KycStorage, new: KycStorage) -> bool {
    forall|c: u8, id: Data| id_used(seq_in(old.unique_id, c), id) ==> #[trigger] id_used(seq_in(new.unique_id, c), id)
}

/// No call forgets an identification code: what a field has used stays used.
pub proof fn law_calls_keep_identification_codes<C: ReservableCurrency>(
    old: KycStorage,
    new: KycStorage,
    b_old: Map<AccountId, AccountData>,
    b_new: Map<AccountId, AccountData>,
    call: KycCall,
    r: Result<(), Error>,
)
    requires
        call_outcome::<C>(old, new, b_old, b_new, call, r),
    ensures
        codes_kept(old, new),
{
    match call {
        KycCall::IasProvideJudgement(o, f, index, target, judgement, id0, message) => {
            if new.unique_id != old.unique_id {
                let code = field_code(f);
                let ids = seq_in(old.unique_id, code);
                let mid = KycStorage { events: old.events, ..new };
                assert(crate::kyc::pallet::ias_judgement_effect(old, mid, signer_of(o)->0, f, index, target, judgement, id0, message, r));
                assert(mid.unique_id == new.unique_id);
                assert forall|c: u8, id: Data| id_used(seq_in(old.unique_id, c), id) implies #[trigger] id_used(seq_in(new.unique_id, c), id) by {
                    let k = choose|i: int| 0 <= i < seq_in(old.unique_id, c).len() && (#[trigger] seq_in(old.unique_id, c)[i])@ == id@;
                    if c == code {
                        assert(seq_in(new.unique_id, c) == ids.push(id0));
                    } else {
                        assert(new.unique_id.remove(code).contains_key(c) == old.unique_id.remove(code).contains_key(c));
                        if old.unique_id.contains_key(c) {
                            assert(new.unique_id[c] == new.unique_id.remove(code)[c]);
                            assert(old.unique_id[c] == old.unique_id.remove(code)[c]);
                        }
                    }
                    assert(seq_in(new.unique_id, c)[k] == seq_in(old.unique_id, c)[k]);
                }
            }
        },
        _ => {
            assert(new.unique_id == old.unique_id);
        },
    }
}

/// Whether `states`, `balances` and `results` are the storages, balances and
/// results that `calls` give when made one after the other from `states[0]` and
/// `balances[0]`.
pub open spec fn runs<C: ReservableCurrency>(
    states: Seq<KycStorage>,
    balances: Seq<Map<AccountId, AccountData>>,
    calls: Seq<KycCall>,
    results: Seq<Result<(), Error>>,
) -> bool {
    &&& states.len() == calls.len() + 1
    &&& balances.len() == calls.len() + 1
    &&& results.len() == calls.len()
    &&& forall|i: int| 0 <= i < calls.len() ==>
        call_outcome::<C>(states[i], states[i + 1], balances[i], balances[i + 1], #[trigger] calls[i], results[i])
}

/// The identification codes used at the start of a run of calls are still used
/// after any number of them.
pub proof fn lemma_run_keeps_codes<C: ReservableCurrency>(
    states: Seq<KycStorage>,
    balances: Seq<Map<AccountId, AccountData>>,
    calls: Seq<KycCall>,
    results: Seq<Result<(), Error>>,
    i: int,
)
    requires
        runs::<C>(states, balances, calls, results),
        0 <= i <= calls.len(),
    ensures
        codes_kept(states[0], states[i]),
    decreases i,
{
    if i > 0 {
        lemma_run_keeps_codes::<C>(states, balances, calls, results, i - 1);
        let k = i - 1;
        assert(call_outcome::<C>(states[k], states[k + 1], balances[k], balances[k + 1], calls[k], results[k]));
        law_calls_keep_identification_codes::<C>(states[k], states[k + 1], balances[k], balances[k + 1], calls[k], results[k]);
        assert forall|c: u8, id: Data| id_used(seq_in(states[0].unique_id, c), id)
            implies #[trigger] id_used(seq_in(states[i].unique_id, c), id) by {
            assert(id_used(seq_in(states[k].unique_id, c), id));
        }
    }
}

/// A document code serves one review of a field only, however many calls come
/// between: once an IAS has concluded a review with it, any IAS of the field that
/// tries it again, after any run of calls, is refused and changes nothing.
pub proof fn law_identification_code_used_once_ever<C: ReservableCurrency>(
    s0: KycStorage,
    ias1: Origin,
    f: KYCFields,
    index1: KYCIndex,
    target1: AccountId,
    judgement1: Judgement,
    id: Data,
    message1: Message,
    r1: Result<(), Error>,
    states: Seq<KycStorage>,
    balances: Seq<Map<AccountId, AccountData>>,
    calls: Seq<KycCall>,
    results: Seq<Result<(), Error>>,
    ias2: Origin,
    index2: KYCIndex,
    target2: AccountId,
    judgement2: Judgement,
    id_again: Data,
    message2: Message,
    s_end: KycStorage,
    r2: Result<(), Error>,
)
    requires
        ias_provide_outcome(s0, states[0], ias1, f, index1, target1, judgement1, id, message1, r1),
        r1 is Ok,
        runs::<C>(states, balances, calls, results),
        id_again@ == id@,
        ias2 is Signed,
        crate::kyc::pallet::has_provider(service_list(states.last(), true, f), ias2->0),
        ias_provide_outcome(states.last(), s_end, ias2, f, index2, target2, judgement2, id_again, message2, r2),
    ensures
        r2 == Err::<(), Error>(Error::NotUniqueID),
        s_end == states.last(),
{
    let code = field_code(f);
    let ids = seq_in(states[0].unique_id, code);
    let k = (ids.len() - 1) as int;
    assert(ids[k]@ == id@);
    assert(id_used(ids, id));
    lemma_run_keeps_codes::<C>(states, balances, calls, results, calls.len() as int);
    assert(id_used(seq_in(states[calls.len() as int].unique_id, code), id));
    let later = seq_in(states.last().unique_id, code);
    let m = choose|i: int| 0 <= i < later.len() && (#[trigger] later[i])@ == id@;
    assert(later[m]@ == id_again@);
    assert(id_used(later, id_again));
}

/// The whole balances of `x`, `y` and `z` together, each account counted once.
pub open spec fn total_of_three(b: Map<AccountId, AccountData>, x: AccountId, y: AccountId, z: AccountId) -> int {
    total_of(b, x) + (if y != x { total_of(b, y) } else { 0 }) + (if z != x && z != y { total_of(b, z) } else { 0 })
}

/// Whether going from `b0` to `b1` only moves funds among `x`, `y` and `z`: what
/// they hold together is kept, `x` holds no more than before, and every other
/// account is left as it was.
pub open spec fn moved_among(b0: Map<AccountId, AccountData>, b1: Map<AccountId, AccountData>, x: AccountId, y: AccountId, z: AccountId) -> bool {
    &&& total_of_three(b1, x, y, z) == total_of_three(b0, x, y, z)
    &&& total_of(b1, x) <= total_of(b0, x)
    &&& forall|a: AccountId| a != x && a != y && a != z ==> #[trigger] account_of(b1, a) == account_of(b0, a)
}

/// Moving funds among the same accounts twice moves them among those accounts.
proof fn lemma_moved_among_trans(
    b0: Map<AccountId, AccountData>,
    b1: Map<AccountId, AccountData>,
    b2: Map<AccountId, AccountData>,
    x: AccountId,
    y: AccountId,
    z: AccountId,
)
    requires
        moved_among(b0, b1, x, y, z),
        moved_among(b1, b2, x, y, z),
    ensures
        moved_among(b0, b2, x, y, z),
{
    assert forall|a: AccountId| a != x && a != y && a != z implies #[trigger] account_of(b2, a) == account_of(b0, a) by {
        assert(account_of(b1, a) == account_of(b0, a));
    }
}

/// Funds that move from `x` to `y` or to `z` move among the three.
proof fn lemma_moved_between_among(
    b0: Map<AccountId, AccountData>,
    b1: Map<AccountId, AccountData>,
    x: AccountId,
    to: AccountId,
    y: AccountId,
    z: AccountId,
)
    requires
        moved_between(b0, b1, x, to),
        to == x || to == y || to == z,
    ensures
        moved_among(b0, b1, x, y, z),
{
    assert(forall|a: AccountId| a != x && a != to ==> #[trigger] account_of(b1, a) == account_of(b0, a));
    if to != y {
        assert(account_of(b1, y) == account_of(b0, y) || y == x);
    }
    if to != z {
        assert(account_of(b1, z) == account_of(b0, z) || z == x);
    }
}

/// Paying the IAS and the sword holder for the reviews of `js` moves funds among
/// the user, the IAS and the sword holder.
proof fn lemma_repatriated_moves<C: ReservableCurrency>(
    b: Map<AccountId, AccountData>,
    js: Seq<crate::kyc::types::JudgementItem>,
    f: KYCFields,
    index: KYCIndex,
    target: AccountId,
    ias: IASInfo,
    sup: IASInfo,
)
    ensures
        moved_among(b, repatriated::<C>(b, js, f, index, target, ias, sup), target, ias.account, sup.account),
    decreases js.len(),
{
    if js.len() > 0 {
        let b0 = repatriated::<C>(b, js.drop_last(), f, index, target, ias, sup);
        lemma_repatriated_moves::<C>(b, js.drop_last(), f, index, target, ias, sup);
        let e = js.last();
        if e.0 == f && e.1 == index && e.3 == Authentication::Pending && e.4 > 0 {
            let b1 = C::repatriate_outcome(b0, target, ias.account, ias.fee, BalanceStatus::Free).0;
            let b2 = C::repatriate_outcome(b1, target, sup.account, sup.fee, BalanceStatus::Free).0;
            C::law_repatriate_moves(b0, target, ias.account, ias.fee, BalanceStatus::Free);
            lemma_moved_between_among(b0, b1, target, ias.account, ias.account, sup.account);
            C::law_repatriate_moves(b1, target, sup.account, sup.fee, BalanceStatus::Free);
            lemma_moved_between_among(b1, b2, target, sup.account, ias.account, sup.account);
            lemma_moved_among_trans(b, b0, b1, target, ias.account, sup.account);
            lemma_moved_among_trans(b, b1, b2, target, ias.account, sup.account);
        }
    }
}

/// The IAS and the sword holder of the application that a sword holder's call is
/// about.
pub open spec fn sword_call_parties(old: KycStorage, origin: Origin, f: KYCFields, index: KYCIndex, target: AccountId) -> (AccountId, AccountId) {
    let forms = seq_in(old.forms, target);
    let j = first_match(forms, FormQuery::IasDone { sword: signer_of(origin)->0, fields: f, index });
    (forms[j]->0.ias.1.account, forms[j]->0.supervisor.1.account)
}

/// A sword holder's conclusion only moves funds among the user, the IAS and the
/// sword holder of the application: what the three hold together is kept, the
/// user holds no more than before, and no other account changes; whatever the
/// call's result.
pub proof fn law_sword_judgement_moves_funds_among_parties<C: ReservableCurrency>(
    old: KycStorage,
    new: KycStorage,
    b_old: Map<AccountId, AccountData>,
    b_new: Map<AccountId, AccountData>,
    origin: Origin,
    f: KYCFields,
    index: KYCIndex,
    target: AccountId,
    auth: Authentication,
    id: Data,
    r: Result<(), Error>,
)
    requires
        sword_provide_outcome::<C>(old, new, b_old, b_new, origin, f, index, target, auth, id, r),
    ensures
        moved_among(b_old, b_new, target, sword_call_parties(old, origin, f, index, target).0,
            sword_call_parties(old, origin, f, index, target).1),
{
    let (p1, p2) = sword_call_parties(old, origin, f, index, target);
    if b_new != b_old {
        let forms = seq_in(old.forms, target);
        let j = first_match(forms, FormQuery::IasDone { sword: signer_of(origin)->0, fields: f, index });
        let form = forms[j]->0;
        if auth == Authentication::Failure {
            let pay_fee = (form.ias.1.fee + form.supervisor.1.fee) as Balance;
            C::law_unreserve_moves(b_old, target, pay_fee);
            lemma_moved_between_among(b_old, b_new, target, target, p1, p2);
        } else {
            let reg = old.kyc_of[target];
            lemma_repatriated_moves::<C>(b_old, reg.judgements@, f, index, target, form.ias.1, form.supervisor.1);
        }
    }
}

/// A provider list that holds an eligible entry has a candidate to draw.
proof fn lemma_candidates_nonempty(list: Seq<Option<IASInfo>>, f: KYCFields, max_fee: Balance, i: int)
    requires
        0 <= i < list.len(),
        list[i] is Some,
        list[i]->0.fields == f,
        list[i]->0.fee <= max_fee,
    ensures
        candidates(list, f, max_fee).len() > 0,
    decreases list.len(),
{
    if i < list.len() - 1 {
        lemma_candidates_nonempty(list.drop_last(), f, max_fee, i);
    }
}

/// Only an application for the same field is a repeat: a registered user, not
/// on the black list, whose applications are all for other fields, applies
/// successfully for `f` whenever the field has an IAS and a sword holder whose
/// fees are at most half of the offer (and the nonce can count both draws); its
/// earlier applications stay, and an application for `f` is added after them.
pub proof fn law_apply_for_another_field_succeeds(
    s0: KycStorage,
    s1: KycStorage,
    who: AccountId,
    f: KYCFields,
    max_fee: u128,
    random_ias: u64,
    random_sword: u64,
    ias_at: int,
    sword_at: int,
    r: Result<(), Error>,
)
    requires
        storage_wf(s0),
        !s0.blacklist.contains_key(who),
        s0.kyc_of.contains_key(who),
        forall|i: int| 0 <= i < seq_in(s0.forms, who).len()
            ==> (#[trigger] seq_in(s0.forms, who)[i])->0.ias.1.fields != f,
        0 <= ias_at < service_list(s0, true, f).len(),
        service_list(s0, true, f)[ias_at] is Some,
        service_list(s0, true, f)[ias_at]->0.fields == f,
        service_list(s0, true, f)[ias_at]->0.fee <= max_fee / 2,
        0 <= sword_at < service_list(s0, false, f).len(),
        service_list(s0, false, f)[sword_at] is Some,
        service_list(s0, false, f)[sword_at]->0.fields == f,
        service_list(s0, false, f)[sword_at]->0.fee <= max_fee / 2,
        s0.nonce + 1 < u64::MAX,
        apply_outcome(s0, s1, Origin::Signed(who), f, max_fee, random_ias, random_sword, r),
    ensures
        r is Ok,
        seq_in(s1.forms, who).len() == seq_in(s0.forms, who).len() + 1,
        forall|i: int| 0 <= i < seq_in(s0.forms, who).len()
            ==> #[trigger] seq_in(s1.forms, who)[i] == seq_in(s0.forms, who)[i],
        seq_in(s1.forms, who).last() is Some,
        seq_in(s1.forms, who).last()->0.ias.1.fields == f,
        seq_in(s1.forms, who).last()->0.supervisor.1.fields == f,
        seq_in(s1.forms, who).last()->0.progress == crate::kyc::types::Progress::Pending,
{
    let search_fee = (max_fee / 2) as u128;
    lemma_candidates_nonempty(service_list(s0, true, f), f, search_fee, ias_at);
    lemma_candidates_nonempty(service_list(s0, false, f), f, search_fee, sword_at);
    let forms = seq_in(s0.forms, who);
    if s0.forms.contains_key(who) {
        assert(crate::kyc::pallet::forms_well_formed(s0.forms[who]@));
    }
    assert forall|i: int| 0 <= i < forms.len() implies (#[trigger] forms[i]) is Some && forms[i]->0.ias.1.fields != f by {}
    assert(r is Ok);
    law_drawn_providers_eligible(s0, s1, who, f, max_fee, random_ias, random_sword, r);
}

/// A request for the review of `f` acts on an application for `f` only: that
/// application, pending with the IAS at `index`, goes under review, the fees of
/// its IAS and sword holder are reserved and recorded as the fee of a new review
/// of `f`, and every application for another field is left as it was.
pub proof fn law_request_acts_on_its_field<C: ReservableCurrency>(
    old: KycStorage,
    new: KycStorage,
    b_old: Map<AccountId, AccountData>,
    b_new: Map<AccountId, AccountData>,
    who: AccountId,
    f: KYCFields,
    index: KYCIndex,
    message: Message,
    r: Result<(), Error>,
)
    requires
        request_outcome::<C>(old, new, b_old, b_new, Origin::Signed(who), f, index, message, r),
        r is Ok,
    ensures
        seq_in(new.forms, who).len() == seq_in(old.forms, who).len(),
        forall|i: int| 0 <= i < seq_in(old.forms, who).len()
            && (seq_in(old.forms, who)[i] is None || seq_in(old.forms, who)[i]->0.ias.1.fields != f)
            ==> #[trigger] seq_in(new.forms, who)[i] == seq_in(old.forms, who)[i],
        exists|i: int| #![trigger seq_in(old.forms, who)[i]] {
            &&& 0 <= i < seq_in(old.forms, who).len()
            &&& seq_in(old.forms, who)[i] is Some
            &&& seq_in(old.forms, who)[i]->0.ias.1.fields == f
            &&& seq_in(old.forms, who)[i]->0.ias.0 == index
            &&& seq_in(old.forms, who)[i]->0.progress == crate::kyc::types::Progress::Pending
            &&& seq_in(new.forms, who)[i] == Some(crate::kyc::types::ApplicationForm {
                progress: crate::kyc::types::Progress::IasDoing,
                ..seq_in(old.forms, who)[i]->0
            })
            &&& b_new == C::reserve_outcome(b_old, who,
                (seq_in(old.forms, who)[i]->0.ias.1.fee + seq_in(old.forms, who)[i]->0.supervisor.1.fee) as Balance).0
            &&& new.kyc_of[who].judgements@ == old.kyc_of[who].judgements@.push((f, index,
                Judgement::FeePaid((seq_in(old.forms, who)[i]->0.ias.1.fee + seq_in(old.forms, who)[i]->0.supervisor.1.fee) as Balance),
                Authentication::Pending,
                (seq_in(old.forms, who)[i]->0.ias.1.fee + seq_in(old.forms, who)[i]->0.supervisor.1.fee) as Balance))
        },
{
    let forms = seq_in(old.forms, who);
    let q = FormQuery::Pending { fields: f, index };
    crate::kyc::pallet::lemma_first_match_props(forms, q);
    let j = first_match(forms, q);
    assert(forms[j] is Some);
}

/// The judgement an IAS gives is the one recorded: after a successful call, each
/// review of the target for the field and the IAS index holds exactly that
/// judgement, with its authentication pending and its held fee kept, and every
/// other review is left as it was.
pub proof fn law_ias_judgement_is_recorded(
    old: KycStorage,
    new: KycStorage,
    ias: Origin,
    f: KYCFields,
    index: KYCIndex,
    target: AccountId,
    judgement: Judgement,
    id: Data,
    message: Message,
    r: Result<(), Error>,
)
    requires
        ias_provide_outcome(old, new, ias, f, index, target, judgement, id, message, r),
        r is Ok,
    ensures
        old.kyc_of.contains_key(target),
        new.kyc_of.contains_key(target),
        new.kyc_of[target].judgements@.len() == old.kyc_of[target].judgements@.len(),
        forall|i: int| #![trigger new.kyc_of[target].judgements@[i]]
            0 <= i < old.kyc_of[target].judgements@.len() ==> {
                let before = old.kyc_of[target].judgements@[i];
                let after = new.kyc_of[target].judgements@[i];
                if before.0 == f && before.1 == index {
                    &&& after.0 == f && after.1 == index
                    &&& after.2 == judgement
                    &&& after.3 == Authentication::Pending
                    &&& after.4 == before.4
                } else {
                    after == before
                }
            },
{
}

/// Only a confirmed review of the area counts a user in its area: a sword
/// holder's conclusion on any other field leaves the area counts as they were,
/// whatever its result.
pub proof fn law_only_area_reviews_count_users<C: ReservableCurrency>(
    old: KycStorage,
    new: KycStorage,
    b_old: Map<AccountId, AccountData>,
    b_new: Map<AccountId, AccountData>,
    origin: Origin,
    f: KYCFields,
    index: KYCIndex,
    target: AccountId,
    auth: Authentication,
    id: Data,
    r: Result<(), Error>,
)
    requires
        sword_provide_outcome::<C>(old, new, b_old, b_new, origin, f, index, target, auth, id, r),
        f != KYCFields::Area,
    ensures
        new.area_data == old.area_data,
{
}

/// A confirmed review of the area counts the user once more in the area of its
/// KYC; no other area count changes.
pub proof fn law_confirmed_area_review_counts_user<C: ReservableCurrency>(
    old: KycStorage,
    new: KycStorage,
    b_old: Map<AccountId, AccountData>,
    b_new: Map<AccountId, AccountData>,
    origin: Origin,
    index: KYCIndex,
    target: AccountId,
    id: Data,
    r: Result<(), Error>,
)
    requires
        sword_provide_outcome::<C>(old, new, b_old, b_new, origin, KYCFields::Area, index, target,
            Authentication::Success, id, r),
        r is Ok,
    ensures
        old.kyc_of.contains_key(target),
        ({
            let area = old.kyc_of[target].info.area;
            let before = if old.area_data.contains_key(area) { old.area_data[area] as int } else { 0 };
            &&& new.area_data.contains_key(area)
            &&& new.area_data[area] == before + 1
            &&& forall|a: crate::kyc::types::AreaCode| a != area ==> (#[trigger] new.area_data.contains_key(a)
                == old.area_data.contains_key(a)) && (old.area_data.contains_key(a) ==> new.area_data[a] == old.area_data[a])
        }),
{
}

} // verus!
