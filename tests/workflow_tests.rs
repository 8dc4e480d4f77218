use cargo_trace_backend::acid::{is_acid_format, is_acid_in_static_dataset};
use cargo_trace_backend::engine::{Engine, EngineError};
use cargo_trace_backend::entities::{CustomsStatus, DocumentStatus, LoanStatus};
use cargo_trace_backend::identity::Identity;
use cargo_trace_backend::ids::{format_id, generate_doc_id, generate_loan_id, get_next_id};
use cargo_trace_backend::ledger::{tokens_to_usd, usd_to_tokens, TransferError};
use cargo_trace_backend::uri::decode_token_uri_result;

fn who(b: &[u8]) -> Identity {
    Identity::from_slice(b).unwrap()
}

fn s(x: &str) -> String {
    x.to_string()
}

fn minted_document(e: &mut Engine, owner: &Identity, value: u64) -> String {
    let id = e.submit_document(&s("123456789"), &s("0xabc"), value, owner, 1).unwrap();
    e.approve_document(&id).unwrap();
    id
}

#[test]
fn scenario_submit_approve_and_request_loans() {
    let mut e = Engine::init();
    let alice = who(&[1]);
    let id = e.submit_document(&s("123456789"), &s("0xabc"), 100_000, &alice, 1).unwrap();
    assert_eq!(id, "DOC-000001");
    assert_eq!(e.get_document(&id).unwrap().unwrap().status, DocumentStatus::Pending);
    e.approve_document(&id).unwrap();
    assert_eq!(e.get_document(&id).unwrap().unwrap().status, DocumentStatus::NftMinted);
    let loan = e.request_loan(&id, 80_000, 1_000, &alice, 2).unwrap();
    assert_eq!(loan, "LOAN-000001");
    assert_eq!(e.request_loan(&id, 80_001, 1_000, &alice, 2), Err(EngineError::ExceedsLoanCap));
    let l = e.get_loan(&loan).unwrap().unwrap();
    assert_eq!(l.status, LoanStatus::Pending);
    assert_eq!(l.amount, 80_000);
    assert_eq!(l.interest_rate, 450);
}

#[test]
fn loan_cap_rounds_down() {
    let mut e = Engine::init();
    let alice = who(&[1]);
    let id = minted_document(&mut e, &alice, 99);
    assert_eq!(e.request_loan(&id, 80, 1, &alice, 2), Err(EngineError::ExceedsLoanCap));
    assert!(e.request_loan(&id, 79, 1, &alice, 2).is_ok());
}

#[test]
fn loan_needs_minted_document() {
    let mut e = Engine::init();
    let alice = who(&[1]);
    let id = e.submit_document(&s("123456789"), &s("0xabc"), 100, &alice, 1).unwrap();
    assert_eq!(e.request_loan(&id, 1, 1, &alice, 2), Err(EngineError::WrongStatus));
    assert_eq!(e.request_loan(&s("DOC-999999"), 1, 1, &alice, 2), Err(EngineError::NotFound));
}

#[test]
fn approve_document_twice() {
    let mut e = Engine::init();
    let alice = who(&[1]);
    let id = e.submit_document(&s("123456789"), &s("0xabc"), 10, &alice, 1).unwrap();
    assert_eq!(e.approve_document(&id), Ok(()));
    assert_eq!(e.approve_document(&id), Err(EngineError::WrongStatus));
}

#[test]
fn reject_document_guards() {
    let mut e = Engine::init();
    let alice = who(&[1]);
    let bob = who(&[2]);
    let id = e.submit_document(&s("123456789"), &s("0xabc"), 10, &alice, 1).unwrap();
    assert_eq!(e.reject_document(&id, &bob), Err(EngineError::NotOwner));
    assert_eq!(e.reject_document(&id, &alice), Ok(()));
    assert_eq!(e.get_document(&id).unwrap().unwrap().status, DocumentStatus::Rejected);
    assert_eq!(e.reject_document(&id, &alice), Err(EngineError::WrongStatus));
}

#[test]
fn acid_validation_outcomes() {
    let mut e = Engine::init();
    assert_eq!(e.validate_acid("123456789", 5), Ok(true));
    let v = e.get_acid_validation(&s("123456789")).unwrap().unwrap();
    assert!(v.is_valid);
    assert_eq!(v.customs_data.as_deref(), Some("Simulated customs data"));
    assert_eq!(v.validation_date, 5);
    assert_eq!(e.validate_acid("111111111", 6), Ok(false));
    assert!(!e.get_acid_validation(&s("111111111")).unwrap().unwrap().is_valid);
    assert_eq!(e.validate_acid("12345678", 7), Err(EngineError::InvalidAcidFormat));
    assert_eq!(e.validate_acid("12345678a", 7), Err(EngineError::InvalidAcidFormat));
    assert_eq!(e.validate_acid("1234567890", 7), Err(EngineError::InvalidAcidFormat));
    assert!(e.get_acid_validation(&s("12345678")).unwrap().is_none());
}

#[test]
fn submit_refusals() {
    let mut e = Engine::init();
    let alice = who(&[1]);
    assert_eq!(e.submit_document(&s("12345"), &s("0x"), 1, &alice, 1), Err(EngineError::InvalidAcidFormat));
    assert_eq!(e.submit_document(&s("111111111"), &s("0x"), 1, &alice, 1), Err(EngineError::InvalidAcid));
    assert_eq!(e.submit_document(&s("123456789"), &s("a\0b"), 1, &alice, 1), Err(EngineError::InvalidText));
    assert_eq!(
        e.submit_document(&s("123456789"), &"x".repeat(4000), 1, &alice, 1),
        Err(EngineError::TooLarge)
    );
    assert_eq!(e.submit_document(&s("123456789"), &s("0x"), 1, &alice, 1).unwrap(), "DOC-000001");
}

#[test]
fn transfer_failure_then_retry() {
    let mut e = Engine::init();
    let alice = who(&[1]);
    let treasury = who(&[200]);
    let doc = minted_document(&mut e, &alice, 100);
    let loan = e.request_loan(&doc, 50, 9, &alice, 2).unwrap();
    let args = e.begin_loan_approval(&loan, 3).unwrap();
    assert_eq!(args.amount, usd_to_tokens(50));
    assert_eq!(args.to.owner.as_slice(), &[1]);
    assert_eq!(args.memo.as_deref(), Some(&b"Loan approval: LOAN-000001"[..]));
    assert_eq!(e.get_loan(&loan).unwrap().unwrap().status, LoanStatus::TransferPending);
    let failed: Result<u64, TransferError> = Err(TransferError::TemporarilyUnavailable);
    assert_eq!(e.finish_loan_approval(&loan, &failed), Err(EngineError::TransferFailed));
    assert_eq!(e.get_loan(&loan).unwrap().unwrap().status, LoanStatus::TransferFailed);
    // the treasury is empty, so the retry fails again
    assert_eq!(e.retry_loan_transfer(&loan, &treasury, 4), Err(EngineError::TransferFailed));
    assert_eq!(e.get_loan(&loan).unwrap().unwrap().status, LoanStatus::TransferFailed);
    e.request_test_tokens(&treasury, 1_000).unwrap();
    assert_eq!(e.retry_loan_transfer(&loan, &treasury, 5), Ok(()));
    let l = e.get_loan(&loan).unwrap().unwrap();
    assert_eq!(l.status, LoanStatus::Active);
    assert_eq!(l.transfer_block_height, Some(1));
    assert_eq!(e.get_balance(&alice), usd_to_tokens(50));
    assert_eq!(e.get_balance(&treasury), usd_to_tokens(950) - 100_000);
    assert_eq!(e.retry_loan_transfer(&loan, &treasury, 6), Err(EngineError::WrongStatus));
}

#[test]
fn pending_transfer_is_visible_and_finishes() {
    let mut e = Engine::init();
    let alice = who(&[1]);
    let doc = minted_document(&mut e, &alice, 100);
    let loan = e.request_loan(&doc, 10, 9, &alice, 2).unwrap();
    e.begin_loan_approval(&loan, 3).unwrap();
    assert_eq!(e.get_loan(&loan).unwrap().unwrap().status, LoanStatus::TransferPending);
    assert_eq!(e.begin_loan_approval(&loan, 3).err(), Some(EngineError::WrongStatus));
    assert_eq!(e.finish_loan_approval(&loan, &Ok(77)), Ok(()));
    let l = e.get_loan(&loan).unwrap().unwrap();
    assert_eq!(l.status, LoanStatus::Active);
    assert_eq!(l.transfer_block_height, Some(77));
    assert_eq!(e.finish_loan_approval(&loan, &Ok(78)), Err(EngineError::WrongStatus));
}

#[test]
fn reject_and_repay_loans() {
    let mut e = Engine::init();
    let alice = who(&[1]);
    let bob = who(&[2]);
    let treasury = who(&[200]);
    let doc = minted_document(&mut e, &alice, 1000);
    let first = e.request_loan(&doc, 100, 9, &alice, 2).unwrap();
    assert_eq!(e.reject_loan(&first), Ok(()));
    assert_eq!(e.reject_loan(&first), Err(EngineError::WrongStatus));
    let second = e.request_loan(&doc, 100, 9, &alice, 2).unwrap();
    assert_eq!(e.repay_loan(&second, 1, &alice), Err(EngineError::WrongStatus));
    e.request_test_tokens(&treasury, 10_000).unwrap();
    e.approve_loan(&second, &treasury, 3).unwrap();
    assert_eq!(e.repay_loan(&second, 1, &bob), Err(EngineError::NotOwner));
    assert_eq!(e.repay_loan(&second, u64::MAX, &alice), Err(EngineError::InsufficientFunds));
    assert_eq!(e.repay_loan(&second, 60, &alice), Ok(()));
    let l = e.get_loan(&second).unwrap().unwrap();
    assert_eq!(l.status, LoanStatus::Active);
    assert_eq!(l.repaid, 60);
    assert_eq!(e.repay_loan(&second, 40, &alice), Ok(()));
    let l = e.get_loan(&second).unwrap().unwrap();
    assert_eq!(l.status, LoanStatus::Repaid);
    assert_eq!(l.repaid, 100);
    assert_eq!(e.repay_loan(&second, 1, &alice), Err(EngineError::WrongStatus));
    assert_eq!(e.get_balance(&alice), usd_to_tokens(100) - 100);
    assert_eq!(e.get_all_loan_ids(), vec![s("LOAN-000001"), s("LOAN-000002")]);
}

#[test]
fn customs_link_verify_and_reject() {
    let mut e = Engine::init();
    let alice = who(&[1]);
    let officer = who(&[3]);
    let doc = e.submit_document(&s("123456789"), &s("0xnft"), 10, &alice, 1).unwrap();
    assert_eq!(e.link_cargox_to_acid(&s("0xnft"), &s("123456789"), &alice, 2).unwrap(), "MAP-000001");
    assert_eq!(
        e.link_cargox_to_acid(&s("0xnft"), &s("123456789"), &alice, 2),
        Err(EngineError::AlreadyLinked)
    );
    assert_eq!(
        e.link_cargox_to_acid(&s("0xother"), &s("111111111"), &alice, 2),
        Err(EngineError::InvalidAcid)
    );
    let v = e.get_customs_verification(&s("0xnft")).unwrap().unwrap();
    assert_eq!(v.id, "VER-000001");
    assert_eq!(v.verification_status, CustomsStatus::Pending);
    assert_eq!(e.get_verification_stats(), Ok((1, 0, 0, 0)));
    assert_eq!(e.verify_customs_entry(&s("0xnft"), &officer, 9), Ok(()));
    assert!(e.get_cargox_mapping(&s("0xnft")).unwrap().unwrap().verified);
    let v = e.get_customs_verification(&s("0xnft")).unwrap().unwrap();
    assert_eq!(v.verification_status, CustomsStatus::Verified);
    assert_eq!(v.verified_at, Some(9));
    assert_eq!(v.verified_by.unwrap().as_slice(), &[3]);
    assert_eq!(v.customs_data.as_deref(), Some("Customs entry verified manually"));
    assert_eq!(e.get_document(&doc).unwrap().unwrap().status, DocumentStatus::Verified);
    assert_eq!(e.get_verification_stats(), Ok((0, 1, 0, 0)));
    assert_eq!(e.verify_customs_entry(&s("0xnft"), &officer, 9), Err(EngineError::WrongStatus));
    assert_eq!(e.trigger_lending(&doc), Ok(()));
    assert_eq!(e.get_document(&doc).unwrap().unwrap().status, DocumentStatus::NftMinted);
    assert_eq!(e.trigger_lending(&doc), Ok(()));

    let doc2 = e.submit_document(&s("987654321"), &s("0xnft2"), 10, &alice, 1).unwrap();
    e.link_cargox_to_acid(&s("0xnft2"), &s("987654321"), &alice, 2).unwrap();
    assert_eq!(e.reject_customs_entry(&s("0xnft2"), &s("bad"), &officer, 4), Ok(()));
    let v = e.get_customs_verification(&s("0xnft2")).unwrap().unwrap();
    assert_eq!(v.verification_status, CustomsStatus::Rejected);
    assert_eq!(v.customs_data.as_deref(), Some("Rejected: bad"));
    assert_eq!(e.get_document(&doc2).unwrap().unwrap().status, DocumentStatus::Rejected);
    assert_eq!(e.trigger_lending(&doc2), Err(EngineError::WrongStatus));
    assert_eq!(e.verify_customs_entry(&s("0xnone"), &officer, 9), Err(EngineError::NotFound));
    assert_eq!(e.reject_customs_entry(&s("0xnft2"), &s("a\0"), &officer, 4), Err(EngineError::InvalidText));
}

#[test]
fn token_operations() {
    let mut e = Engine::init();
    let alice = who(&[1]);
    let bob = who(&[2]);
    assert_eq!(e.get_balance(&alice), 0);
    e.mint(&alice, 100).unwrap();
    assert_eq!(e.transfer(&alice, &bob, 101), Err(EngineError::InsufficientFunds));
    assert_eq!(e.transfer(&alice, &bob, 40), Ok(()));
    assert_eq!(e.get_balance(&alice), 60);
    assert_eq!(e.get_balance(&bob), 40);
    assert_eq!(e.transfer(&alice, &alice, 60), Ok(()));
    assert_eq!(e.get_balance(&alice), 60);
    let anon = Identity::anonymous();
    e.mint(&anon, 5).unwrap();
    assert_eq!(e.transfer(&anon, &bob, 1), Err(EngineError::AnonymousCaller));
    assert_eq!(e.mint(&bob, u64::MAX), Err(EngineError::AmountTooLarge));
}

#[test]
fn conversions_and_ids() {
    assert_eq!(usd_to_tokens(3), 300_000_000);
    assert_eq!(tokens_to_usd(399_999_999), 3);
    assert_eq!(format_id("DOC-", 7), "DOC-000007");
    assert_eq!(format_id("LOAN-", 1234567), "LOAN-1234567");
    assert!(is_acid_in_static_dataset("321654987"));
    assert!(!is_acid_in_static_dataset("000000000"));
    assert!(is_acid_format("000000000"));
    assert!(!is_acid_format("00000000٣"));
    let mut engine = Engine::init();
    let counters = &mut engine.counters;
    assert_eq!(get_next_id(counters, "x"), 1);
    assert_eq!(get_next_id(counters, "x"), 2);
    assert_eq!(generate_doc_id(counters), "DOC-000001");
    assert_eq!(generate_doc_id(counters), "DOC-000002");
    assert_eq!(generate_loan_id(counters), "LOAN-000001");
    assert!(Identity::from_slice(&[0; 30]).is_none());
}

#[test]
fn token_uri_decoding() {
    let mut hex = String::from("0x");
    hex.push_str(&format!("{:064x}", 32));
    hex.push_str(&format!("{:064x}", 5));
    hex.push_str("68656c6c6f");
    hex.push_str(&"0".repeat(54));
    assert_eq!(decode_token_uri_result(&hex), Ok("hello".to_string()));
    assert!(decode_token_uri_result("0x1234").is_err());
    let mut bad = format!("{:064x}{:064x}", 32, 2);
    bad.push_str("fffe");
    assert!(decode_token_uri_result(&bad).is_err());
}

#[test]
fn batch_trigger_lending_reports_failures() {
    let mut e = Engine::init();
    let alice = who(&[1]);
    let officer = who(&[3]);
    let doc = e.submit_document(&s("123456789"), &s("0xa"), 10, &alice, 1).unwrap();
    e.link_cargox_to_acid(&s("0xa"), &s("123456789"), &alice, 2).unwrap();
    e.verify_customs_entry(&s("0xa"), &officer, 3).unwrap();
    assert_eq!(e.batch_trigger_lending(&vec![doc.clone(), doc.clone()]), Ok(vec![doc.clone(), doc.clone()]));
    assert_eq!(e.get_document(&doc).unwrap().unwrap().status, DocumentStatus::NftMinted);
    let pending = e.submit_document(&s("123456789"), &s("0xb"), 10, &alice, 1).unwrap();
    assert_eq!(
        e.batch_trigger_lending(&vec![doc.clone(), pending.clone(), s("DOC-424242")]),
        Err(vec![(pending, EngineError::WrongStatus), (s("DOC-424242"), EngineError::NotFound)])
    );
}

#[test]
fn listings_filter_by_owner_and_status() {
    let mut e = Engine::init();
    let alice = who(&[1]);
    let bob = who(&[2]);
    let treasury = who(&[200]);
    let d1 = minted_document(&mut e, &alice, 1000);
    let d2 = e.submit_document(&s("987654321"), &s("0xbob"), 10, &bob, 1).unwrap();
    let mine: Vec<String> = e.get_my_documents(&alice).unwrap().into_iter().map(|d| d.id).collect();
    assert_eq!(mine, vec![d1.clone()]);
    assert_eq!(e.get_document_by_nft_hash(&s("0xbob")).unwrap().unwrap().id, d2);
    assert!(e.get_document_by_nft_hash(&s("0xnone")).unwrap().is_none());
    assert_eq!(e.get_documents_by_nft_hash(&s("0xabc")).unwrap().len(), 1);
    let l1 = e.request_loan(&d1, 10, 9, &alice, 2).unwrap();
    let l2 = e.request_loan(&d1, 20, 9, &alice, 2).unwrap();
    assert_eq!(e.get_all_loans().unwrap().len(), 2);
    assert_eq!(e.get_my_loans(&bob).unwrap().len(), 0);
    assert!(e.get_active_loan(&alice).unwrap().is_none());
    e.request_test_tokens(&treasury, 1000).unwrap();
    e.approve_loan(&l2, &treasury, 3).unwrap();
    assert_eq!(e.get_active_loan(&alice).unwrap().unwrap().id, l2);
    let ids: Vec<String> = e.get_my_loans(&alice).unwrap().into_iter().map(|l| l.id).collect();
    assert_eq!(ids, vec![l1, l2]);
    e.link_cargox_to_acid(&s("0xabc"), &s("123456789"), &alice, 2).unwrap();
    e.link_cargox_to_acid(&s("0xbob"), &s("987654321"), &bob, 2).unwrap();
    e.verify_customs_entry(&s("0xbob"), &alice, 5).unwrap();
    assert_eq!(e.get_all_cargox_mappings().unwrap().len(), 2);
    assert_eq!(e.get_my_cargox_mappings(&bob).unwrap()[0].nft_hash, "0xbob");
    assert_eq!(e.get_all_customs_verifications().unwrap().len(), 2);
    let pending = e.get_pending_customs_verifications().unwrap();
    assert_eq!(pending.len(), 1);
    assert_eq!(pending[0].nft_hash, "0xabc");
    assert_eq!(e.get_verification_stats(), Ok((1, 1, 0, 0)));
}

#[test]
fn payout_refused_for_recipient_overflow_marks_failure() {
    let mut e = Engine::init();
    let alice = who(&[1]);
    let treasury = who(&[200]);
    let doc = minted_document(&mut e, &alice, 100);
    let loan = e.request_loan(&doc, 10, 9, &alice, 2).unwrap();
    e.request_test_tokens(&treasury, 1000).unwrap();
    e.mint(&alice, u64::MAX - 5).unwrap();
    let before_treasury = e.get_balance(&treasury);
    assert_eq!(e.approve_loan(&loan, &treasury, 3), Err(EngineError::TransferFailed));
    let l = e.get_loan(&loan).unwrap().unwrap();
    assert_eq!(l.status, LoanStatus::TransferFailed);
    assert_eq!(l.transfer_block_height, None);
    assert_eq!(e.get_balance(&treasury), before_treasury);
    assert_eq!(e.get_balance(&alice), u64::MAX - 5);
}

#[test]
fn ids_already_in_use_are_refused() {
    let mut e = Engine::init();
    let alice = who(&[1]);
    e.documents.insert(s("DOC-000001"), vec![1, 2, 3]);
    assert_eq!(
        e.submit_document(&s("123456789"), &s("0xabc"), 10, &alice, 1),
        Err(EngineError::IdInUse)
    );
    let doc = {
        let mut other = Engine::init();
        let d = minted_document(&mut other, &alice, 100);
        other.loans.insert(s("LOAN-000001"), vec![0]);
        assert_eq!(other.request_loan(&d, 10, 9, &alice, 2), Err(EngineError::IdInUse));
        d
    };
    assert_eq!(doc, "DOC-000001");
}
