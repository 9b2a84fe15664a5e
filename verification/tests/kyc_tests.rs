use dico_pallets::currency::{Ledger, ReservableCurrency};
use dico_pallets::kyc::pallet::{Config, Error, Event, KycHandler, Pallet};
use dico_pallets::kyc::types::{
    Authentication, Black, IASInfo, Judgement, KYCFields, KYCInfo, Progress, Record,
};
use dico_pallets::randomness::{PalletId, Randomness};
use dico_pallets::system::{expect_events, last_events, Origin};

fn config() -> Config {
    Config {
        pallet_id: PalletId(*b"dico/kyc"),
        basic_deposit: 100,
        service_deposit: 1000,
        max_ias: 2,
        max_sword_holder: 2,
        force_origin: Origin::Root,
        ias_origin: Origin::Root,
    }
}

/// Gives back the seed of the subject as the random number: the subject is the
/// pallet id followed by the seed.
struct SeedEcho;

impl Randomness for SeedEcho {
    fn random(&self, subject: &[u8]) -> ([u8; 32], u64) {
        let mut h = [0u8; 32];
        h[..8].copy_from_slice(&subject[8..16]);
        (h, 1)
    }
}

const IAS: u64 = 1;
const SWORD: u64 = 2;
const USER: u64 = 3;
const POOR: u64 = 4;
const IAS2: u64 = 5;

fn ledger() -> Ledger {
    let mut l = Ledger::new();
    for who in [IAS, SWORD, USER, IAS2] {
        l.deposit_creating(who, 10_000).unwrap();
    }
    l
}

fn info(area: u16) -> KYCInfo {
    KYCInfo { name: b"Carol".to_vec(), area, email: b"carol@example.com".to_vec() }
}

fn provider(account: u64, fee: u128, fields: KYCFields) -> IASInfo {
    IASInfo { account, fee, fields }
}

/// A pallet with one IAS and one sword holder for the area, and USER registered.
fn setup() -> (Pallet, Ledger) {
    let mut p = Pallet::new(config());
    let mut l = ledger();
    p.add_ias(&mut l, Origin::Root, 0, provider(IAS, 50, KYCFields::Area)).unwrap();
    p.add_sword_holder(&mut l, Origin::Root, 0, provider(SWORD, 40, KYCFields::Area)).unwrap();
    p.set_kyc(&mut l, Origin::Signed(USER), info(86)).unwrap();
    (p, l)
}

#[test]
fn add_providers_hold_service_deposit() {
    let (p, l) = setup();
    assert_eq!(p.ias_list(&KYCFields::Area), vec![Some(provider(IAS, 50, KYCFields::Area))]);
    assert_eq!(p.sword_holder(&KYCFields::Area), vec![Some(provider(SWORD, 40, KYCFields::Area))]);
    assert_eq!(l.reserved_balance(IAS), 1000);
    assert_eq!(l.free_balance(IAS), 9000);
    assert_eq!(l.reserved_balance(SWORD), 1000);
    assert_eq!(l.reserved_balance(USER), 100);
    assert!(expect_events(p.events(), &vec![Event::IASAdded(0), Event::IASAdded(0), Event::KYCSet(USER)]));
}

#[test]
fn add_ias_errors() {
    let (mut p, mut l) = setup();
    assert_eq!(p.add_ias(&mut l, Origin::Signed(IAS), 1, provider(IAS2, 1, KYCFields::Area)), Err(Error::BadOrigin));
    assert_eq!(p.add_ias(&mut l, Origin::Root, 1, provider(IAS, 1, KYCFields::Area)), Err(Error::AccountExists));
    assert_eq!(p.add_ias(&mut l, Origin::Root, 2, provider(IAS2, 1, KYCFields::Area)), Err(Error::OutofBounds));
    assert_eq!(p.add_ias(&mut l, Origin::Root, 0, provider(POOR, 1, KYCFields::Area)), Err(Error::Currency(dico_pallets::currency::CurrencyError::InsufficientBalance)));
    p.add_ias(&mut l, Origin::Root, 1, provider(IAS2, 1, KYCFields::Area)).unwrap();
    assert_eq!(p.add_ias(&mut l, Origin::Root, 2, provider(USER, 1, KYCFields::Area)), Err(Error::TooManyAccount));
    // Replacing the provider at an index.
    p.add_ias(&mut l, Origin::Root, 0, provider(USER, 7, KYCFields::Name)).unwrap();
    assert_eq!(p.ias_list(&KYCFields::Name), vec![Some(provider(USER, 7, KYCFields::Name))]);
}

#[test]
fn add_ias_replaces_at_index() {
    let (mut p, mut l) = setup();
    p.add_ias(&mut l, Origin::Root, 0, provider(IAS2, 30, KYCFields::Area)).unwrap();
    assert_eq!(p.ias_list(&KYCFields::Area), vec![Some(provider(IAS2, 30, KYCFields::Area))]);
    assert_eq!(l.reserved_balance(IAS2), 1000);
}

#[test]
fn set_kyc_rules() {
    let (mut p, mut l) = setup();
    assert_eq!(p.set_kyc(&mut l, Origin::Root, info(1)), Err(Error::BadOrigin));
    assert_eq!(p.set_kyc(&mut l, Origin::Signed(POOR), info(1)), Err(Error::Currency(dico_pallets::currency::CurrencyError::InsufficientBalance)));
    let reg = p.kyc(&USER).unwrap();
    assert_eq!(reg.deposit, 100);
    assert!(reg.judgements.is_empty());
    assert_eq!(p.get_user_area(&USER), Some(86));
    assert_eq!(p.get_user_area(&POOR), None);
    // Setting it again resets it: the identity is replaced, the deposit already held.
    assert_eq!(p.set_kyc(&mut l, Origin::Signed(USER), info(1)), Ok(()));
    assert_eq!(p.get_user_area(&USER), Some(1));
    assert_eq!(p.kyc(&USER).unwrap().deposit, 100);
    assert_eq!(l.reserved_balance(USER), 100);
    assert_eq!(last_events(p.events(), 1), vec![Event::KYCSet(USER)]);
}

#[test]
fn clear_kyc_returns_deposit() {
    let (mut p, mut l) = setup();
    assert_eq!(l.free_balance(USER), 9900);
    p.clear_kyc(&mut l, Origin::Signed(USER)).unwrap();
    assert_eq!(l.free_balance(USER), 10_000);
    assert_eq!(l.reserved_balance(USER), 0);
    assert!(p.kyc(&USER).is_none());
    assert_eq!(last_events(p.events(), 1), vec![Event::KYCCleared(USER, 100)]);
    assert_eq!(p.clear_kyc(&mut l, Origin::Signed(USER)), Err(Error::NotFound));
}

#[test]
fn remove_kyc_blacklists() {
    let (mut p, mut l) = setup();
    let black = Black { reason: b"fraud".to_vec() };
    assert_eq!(p.remove_kyc(&mut l, Origin::Signed(IAS), USER, black.clone()), Err(Error::BadOrigin));
    assert_eq!(p.remove_kyc(&mut l, Origin::Root, POOR, black.clone()), Err(Error::NoKYC));
    p.remove_kyc(&mut l, Origin::Root, USER, black.clone()).unwrap();
    assert_eq!(p.blacklist(&USER).unwrap().info, vec![black.clone()]);
    // The KYC is gone from the list.
    assert!(p.kyc(&USER).is_none());
    assert_eq!(p.get_user_area(&USER), None);
    assert!(p.application_form(&USER).is_empty());
    // The deposit is unreserved and withdrawn.
    assert_eq!(l.reserved_balance(USER), 0);
    assert_eq!(l.free_balance(USER), 9900);
    assert_eq!(p.remove_kyc(&mut l, Origin::Root, USER, black), Err(Error::Blacklisted));
    assert_eq!(p.apply_certification_with(Origin::Signed(USER), KYCFields::Area, 200, 0, 0), Err(Error::Blacklisted));
    assert_eq!(last_events(p.events(), 1), vec![Event::KYCRemove(USER)]);
}

#[test]
fn apply_certification_draws_providers() {
    let (mut p, mut l) = setup();
    p.add_ias(&mut l, Origin::Root, 1, provider(IAS2, 60, KYCFields::Area)).unwrap();
    // Only providers whose fee is at most half the offer are drawn.
    p.apply_certification(&SeedEcho, Origin::Signed(USER), KYCFields::Area, 110).unwrap();
    let forms = p.application_form(&USER);
    assert_eq!(forms.len(), 1);
    let form = forms[0].unwrap();
    assert_eq!(form.ias, (0, provider(IAS, 50, KYCFields::Area)));
    assert_eq!(form.supervisor, (0, provider(SWORD, 40, KYCFields::Area)));
    assert_eq!(form.progress, Progress::Pending);
    assert_eq!(p.get_nonce(), 2);
    assert_eq!(p.apply_certification(&SeedEcho, Origin::Signed(USER), KYCFields::Area, 110), Err(Error::RepeatApplication));
}

#[test]
fn random_admin_takes_random_modulo_candidates() {
    let (mut p, mut l) = setup();
    p.add_ias(&mut l, Origin::Root, 1, provider(IAS2, 60, KYCFields::Area)).unwrap();
    assert_eq!(p.random_admin(&KYCFields::Area, &100, true, 7), Ok((1, provider(IAS2, 60, KYCFields::Area))));
    assert_eq!(p.random_admin(&KYCFields::Area, &100, true, 8), Ok((0, provider(IAS, 50, KYCFields::Area))));
    assert_eq!(p.random_admin(&KYCFields::Area, &10, true, 8), Err(Error::NoIASOrSwordHolder));
    assert_eq!(p.get_nonce(), 2);
}

#[test]
fn apply_certification_without_providers() {
    let (mut p, _l) = setup();
    assert_eq!(p.apply_certification_with(Origin::Signed(USER), KYCFields::Name, 1000, 0, 0), Err(Error::NoIASOrSwordHolder));
    assert_eq!(p.apply_certification_with(Origin::Signed(POOR), KYCFields::Area, 1000, 0, 0), Err(Error::NoKYC));
    assert_eq!(p.get_nonce(), 0);
}

#[test]
fn apply_certification_counts_first_draw_when_second_fails() {
    let (mut p, mut l) = setup();
    p.add_ias(&mut l, Origin::Root, 0, provider(IAS2, 1, KYCFields::Name)).unwrap();
    assert_eq!(p.apply_certification_with(Origin::Signed(USER), KYCFields::Name, 1000, 0, 0), Err(Error::NoIASOrSwordHolder));
    assert_eq!(p.get_nonce(), 1);
}

fn applied() -> (Pallet, Ledger) {
    let (mut p, l) = setup();
    p.apply_certification_with(Origin::Signed(USER), KYCFields::Area, 200, 5, 9).unwrap();
    (p, l)
}

#[test]
fn request_judgement_holds_fees() {
    let (mut p, mut l) = applied();
    assert_eq!(p.request_judgement(&mut l, Origin::Signed(USER), KYCFields::Area, 1, b"hi".to_vec()), Err(Error::NoApplication));
    p.request_judgement(&mut l, Origin::Signed(USER), KYCFields::Area, 0, b"hi".to_vec()).unwrap();
    assert_eq!(l.reserved_balance(USER), 100 + 90);
    let reg = p.kyc(&USER).unwrap();
    assert_eq!(reg.judgements, vec![(KYCFields::Area, 0, Judgement::FeePaid(90), Authentication::Pending, 90)]);
    assert_eq!(reg.total_deposit(), 190);
    assert_eq!(p.application_form(&USER)[0].unwrap().progress, Progress::IasDoing);
    assert_eq!(p.records(&USER), vec![Record { account: IAS, progress: Progress::Pending, fields: KYCFields::Area }]);
    assert_eq!(p.message(&USER, &IAS).to_vec(), vec![b"hi".to_vec()]);
    assert_eq!(last_events(p.events(), 1), vec![Event::JudgementRequested(USER, 0)]);
    // A second request finds no pending application.
    assert_eq!(p.request_judgement(&mut l, Origin::Signed(USER), KYCFields::Area, 0, b"hi".to_vec()), Err(Error::NoApplication));
}

fn reviewed_with(judgement: Judgement) -> (Pallet, Ledger) {
    let (mut p, mut l) = applied();
    p.request_judgement(&mut l, Origin::Signed(USER), KYCFields::Area, 0, b"hi".to_vec()).unwrap();
    p.ias_provide_judgement(Origin::Signed(IAS), KYCFields::Area, 0, USER, judgement, b"P123".to_vec(), b"ok".to_vec()).unwrap();
    (p, l)
}

fn reviewed() -> (Pallet, Ledger) {
    reviewed_with(Judgement::Reasonable)
}

#[test]
fn ias_provide_judgement_hands_over() {
    let (mut p, _l) = reviewed_with(Judgement::Reasonable);
    assert_eq!(p.application_form(&USER)[0].unwrap().progress, Progress::IasDone);
    assert_eq!(p.unique_id(&KYCFields::Area).to_vec(), vec![b"P123".to_vec()]);
    assert_eq!(p.message(&IAS, &SWORD).to_vec(), vec![b"ok".to_vec()]);
    // The judgement is stored in the review, which awaits the sword holder.
    assert_eq!(
        p.kyc(&USER).unwrap().judgements,
        vec![(KYCFields::Area, 0, Judgement::Reasonable, Authentication::Pending, 90)]
    );
    assert_eq!(p.records(&IAS), vec![]);
    assert_eq!(last_events(p.events(), 1), vec![Event::JudgementGiven(USER, 0)]);
    assert_eq!(
        p.ias_provide_judgement(Origin::Signed(SWORD), KYCFields::Area, 0, USER, Judgement::Reasonable, b"X".to_vec(), b"".to_vec()),
        Err(Error::InsufficientPermissions)
    );
    assert_eq!(
        p.ias_provide_judgement(Origin::Signed(IAS), KYCFields::Area, 0, USER, Judgement::Reasonable, b"P123".to_vec(), b"".to_vec()),
        Err(Error::NotUniqueID)
    );
    assert_eq!(
        p.ias_provide_judgement(Origin::Signed(IAS), KYCFields::Area, 0, USER, Judgement::Reasonable, b"P999".to_vec(), b"".to_vec()),
        Err(Error::NoApplication)
    );
}

#[test]
fn sword_holder_success_pays_providers() {
    let (mut p, mut l) = reviewed();
    assert_eq!(
        p.sword_holder_provide_judgement(&mut l, Origin::Signed(SWORD), KYCFields::Area, 0, USER, Authentication::Pending, b"P123".to_vec()),
        Err(Error::PendingAuthentication)
    );
    assert_eq!(
        p.sword_holder_provide_judgement(&mut l, Origin::Signed(SWORD), KYCFields::Area, 0, USER, Authentication::Success, b"nope".to_vec()),
        Err(Error::NotContainsUniqueID)
    );
    assert_eq!(
        p.sword_holder_provide_judgement(&mut l, Origin::Signed(IAS), KYCFields::Area, 0, USER, Authentication::Success, b"P123".to_vec()),
        Err(Error::InsufficientPermissions)
    );
    p.sword_holder_provide_judgement(&mut l, Origin::Signed(SWORD), KYCFields::Area, 0, USER, Authentication::Success, b"P123".to_vec()).unwrap();
    assert_eq!(l.reserved_balance(USER), 100);
    assert_eq!(l.free_balance(IAS), 9000 + 50);
    assert_eq!(l.free_balance(SWORD), 9000 + 40);
    assert_eq!(
        p.kyc(&USER).unwrap().judgements,
        vec![(KYCFields::Area, 0, Judgement::Reasonable, Authentication::Success, 0)]
    );
    assert_eq!(p.application_form(&USER)[0].unwrap().progress, Progress::Success);
    assert_eq!(p.area_data(&86), 1);
    assert_eq!(p.records(&USER), vec![Record { account: IAS, progress: Progress::Pending, fields: KYCFields::Area }]);
    assert_eq!(last_events(p.events(), 1), vec![Event::AuthenticationGiven(USER, 0)]);
    // Nothing awaits the sword holder any more.
    assert_eq!(
        p.sword_holder_provide_judgement(&mut l, Origin::Signed(SWORD), KYCFields::Area, 0, USER, Authentication::Success, b"P123".to_vec()),
        Err(Error::NoApplication)
    );
}

#[test]
fn sword_holder_failure_returns_fees() {
    let (mut p, mut l) = reviewed_with(Judgement::Reasonable);
    p.sword_holder_provide_judgement(&mut l, Origin::Signed(SWORD), KYCFields::Area, 0, USER, Authentication::Failure, b"P123".to_vec()).unwrap();
    assert_eq!(l.reserved_balance(USER), 100);
    assert_eq!(l.free_balance(USER), 9900);
    assert_eq!(l.free_balance(IAS), 9000);
    assert_eq!(p.application_form(&USER)[0].unwrap().progress, Progress::Failure);
    assert_eq!(
        p.kyc(&USER).unwrap().judgements,
        vec![(KYCFields::Area, 0, Judgement::Reasonable, Authentication::Failure, 0)]
    );
    assert_eq!(p.area_data(&86), 0);
    assert_eq!(p.records(&USER), vec![Record { account: IAS, progress: Progress::Pending, fields: KYCFields::Area }]);
}

#[test]
fn set_fee_changes_only_the_signer() {
    let (mut p, mut l) = setup();
    p.add_ias(&mut l, Origin::Root, 1, provider(IAS2, 60, KYCFields::Area)).unwrap();
    p.ias_set_fee(Origin::Signed(IAS2), KYCFields::Area, 5).unwrap();
    assert_eq!(
        p.ias_list(&KYCFields::Area),
        vec![Some(provider(IAS, 50, KYCFields::Area)), Some(provider(IAS2, 5, KYCFields::Area))]
    );
    assert_eq!(p.ias_set_fee(Origin::Signed(SWORD), KYCFields::Area, 5), Err(Error::InsufficientPermissions));
    p.sword_holder_set_fee(Origin::Signed(SWORD), KYCFields::Area, 7).unwrap();
    assert_eq!(p.sword_holder(&KYCFields::Area), vec![Some(provider(SWORD, 7, KYCFields::Area))]);
    assert_eq!(last_events(p.events(), 1), vec![Event::SetFee(7)]);
    assert_eq!(p.sword_holder_set_fee(Origin::Unsigned, KYCFields::Area, 7), Err(Error::BadOrigin));
}

#[test]
fn expect_events_checks_the_tail() {
    let (p, _l) = setup();
    assert!(expect_events(p.events(), &vec![Event::KYCSet(USER)]));
    assert!(!expect_events(p.events(), &vec![Event::KYCSet(IAS)]));
    assert!(!expect_events(p.events(), &vec![Event::IASAdded(0), Event::KYCSet(USER), Event::KYCSet(USER), Event::KYCSet(USER)]));
    assert_eq!(last_events(p.events(), 10).len(), 3);
}

#[test]
fn nonce_overflow_is_refused() {
    let mut p = Pallet::new(config());
    for _ in 0..3 {
        p.increment_nonce().unwrap();
    }
    assert_eq!(p.get_nonce(), 3);
}

#[test]
fn clear_after_confirmation_returns_the_basic_deposit() {
    let (mut p, mut l) = reviewed();
    p.sword_holder_provide_judgement(&mut l, Origin::Signed(SWORD), KYCFields::Area, 0, USER, Authentication::Success, b"P123".to_vec()).unwrap();
    // The fees went to the providers; only the basic deposit is left to give back.
    assert_eq!(p.kyc(&USER).unwrap().total_deposit(), 100);
    p.clear_kyc(&mut l, Origin::Signed(USER)).unwrap();
    assert_eq!(last_events(p.events(), 1), vec![Event::KYCCleared(USER, 100)]);
    assert_eq!(l.reserved_balance(USER), 0);
    assert_eq!(l.free_balance(USER), 10_000 - 90);
}

#[test]
fn reset_keeps_the_reviews_still_paid_for() {
    let (mut p, mut l) = applied();
    p.request_judgement(&mut l, Origin::Signed(USER), KYCFields::Area, 0, b"hi".to_vec()).unwrap();
    p.set_kyc(&mut l, Origin::Signed(USER), info(7)).unwrap();
    assert_eq!(
        p.kyc(&USER).unwrap().judgements,
        vec![(KYCFields::Area, 0, Judgement::FeePaid(90), Authentication::Pending, 90)]
    );
    p.ias_provide_judgement(Origin::Signed(IAS), KYCFields::Area, 0, USER, Judgement::Erroneous, b"P9".to_vec(), b"".to_vec()).unwrap();
    p.set_kyc(&mut l, Origin::Signed(USER), info(7)).unwrap();
    assert_eq!(p.kyc(&USER).unwrap().judgements.len(), 1);
    p.sword_holder_provide_judgement(&mut l, Origin::Signed(SWORD), KYCFields::Area, 0, USER, Authentication::Failure, b"P9".to_vec()).unwrap();
    // Concluded and refunded, the review is no longer paid for: a reset drops it.
    p.set_kyc(&mut l, Origin::Signed(USER), info(7)).unwrap();
    assert!(p.kyc(&USER).unwrap().judgements.is_empty());
    assert_eq!(l.reserved_balance(USER), 100);
}

#[test]
fn sword_holders_capped_by_their_own_limit() {
    let mut p = Pallet::new(Config { max_ias: 3, max_sword_holder: 1, ..config() });
    let mut l = ledger();
    p.add_sword_holder(&mut l, Origin::Root, 0, provider(SWORD, 40, KYCFields::Area)).unwrap();
    assert_eq!(
        p.add_sword_holder(&mut l, Origin::Root, 1, provider(IAS2, 40, KYCFields::Area)),
        Err(Error::TooManyAccount)
    );
    assert_eq!(p.sword_holder(&KYCFields::Area), vec![Some(provider(SWORD, 40, KYCFields::Area))]);
    assert_eq!(l.reserved_balance(IAS2), 0);
    // The IAS list has its own, larger, limit.
    p.add_ias(&mut l, Origin::Root, 0, provider(IAS, 50, KYCFields::Area)).unwrap();
    p.add_ias(&mut l, Origin::Root, 1, provider(IAS2, 50, KYCFields::Area)).unwrap();
    p.add_ias(&mut l, Origin::Root, 2, provider(USER, 50, KYCFields::Area)).unwrap();
    assert_eq!(
        p.add_ias(&mut l, Origin::Root, 3, provider(POOR, 50, KYCFields::Area)),
        Err(Error::TooManyAccount)
    );
}

fn total(l: &Ledger, who: u64) -> u128 {
    l.free_balance(who) + l.reserved_balance(who)
}

#[test]
fn sword_holder_conclusion_keeps_the_parties_total() {
    for auth in [Authentication::Success, Authentication::Failure] {
        let (mut p, mut l) = reviewed();
        let before = total(&l, USER) + total(&l, IAS) + total(&l, SWORD);
        let user_before = total(&l, USER);
        p.sword_holder_provide_judgement(&mut l, Origin::Signed(SWORD), KYCFields::Area, 0, USER, auth, b"P123".to_vec()).unwrap();
        assert_eq!(total(&l, USER) + total(&l, IAS) + total(&l, SWORD), before);
        assert!(total(&l, USER) <= user_before);
        assert_eq!(total(&l, IAS2), 10_000);
    }
}

#[test]
fn identification_code_refused_after_other_calls() {
    let (mut p, mut l) = reviewed();
    p.add_ias(&mut l, Origin::Root, 1, provider(IAS2, 10, KYCFields::Area)).unwrap();
    p.set_kyc(&mut l, Origin::Signed(POOR), info(1)).unwrap_err();
    p.ias_set_fee(Origin::Signed(IAS2), KYCFields::Area, 20).unwrap();
    assert_eq!(
        p.ias_provide_judgement(Origin::Signed(IAS2), KYCFields::Area, 1, USER, Judgement::Reasonable, b"P123".to_vec(), b"".to_vec()),
        Err(Error::NotUniqueID)
    );
}
