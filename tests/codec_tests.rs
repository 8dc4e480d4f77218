use cargo_trace_backend::codec::{DecodeError, EncodeError};
use cargo_trace_backend::entities::{
    AcidValidation, CargoXMapping, CustomsStatus, CustomsVerification, Document, DocumentStatus,
    Loan, LoanStatus,
};
use cargo_trace_backend::identity::Identity;

fn who(b: &[u8]) -> Identity {
    Identity::from_slice(b).unwrap()
}

fn sample_document() -> Document {
    Document {
        id: "DOC-000001".to_string(),
        acid_number: "123456789".to_string(),
        ethereum_tx_hash: "0xabc".to_string(),
        value_usd: 100_000,
        status: DocumentStatus::NftMinted,
        created_at: 42,
        owner: who(&[1, 2, 3]),
    }
}

#[test]
fn document_round_trip() {
    let d = sample_document();
    let bytes = d.to_bytes().unwrap();
    let back = Document::from_bytes(&bytes).unwrap();
    assert_eq!(back.id, "DOC-000001");
    assert_eq!(back.acid_number, "123456789");
    assert_eq!(back.ethereum_tx_hash, "0xabc");
    assert_eq!(back.value_usd, 100_000);
    assert_eq!(back.status, DocumentStatus::NftMinted);
    assert_eq!(back.created_at, 42);
    assert_eq!(back.owner.as_slice(), &[1, 2, 3]);
}

#[test]
fn document_layout_is_exact() {
    let d = sample_document();
    let bytes = d.to_bytes().unwrap();
    let mut expected: Vec<u8> = Vec::new();
    expected.extend_from_slice(b"DOC-000001\0123456789\00xabc\0");
    expected.extend_from_slice(&100_000u64.to_le_bytes());
    expected.extend_from_slice(&42u64.to_le_bytes());
    expected.extend_from_slice(&[3, 1, 2, 3, 3]);
    assert_eq!(bytes, expected);
}

#[test]
fn loan_round_trip_with_receipt() {
    let l = Loan {
        id: "LOAN-000007".to_string(),
        document_id: "DOC-000001".to_string(),
        amount: 80_000,
        interest_rate: 450,
        status: LoanStatus::Active,
        created_at: 5,
        borrower: who(&[9; 29]),
        repayment_date: 99,
        repaid: 12,
        transfer_block_height: Some(123_456),
    };
    let back = Loan::from_bytes(&l.to_bytes().unwrap()).unwrap();
    assert_eq!(back.id, "LOAN-000007");
    assert_eq!(back.document_id, "DOC-000001");
    assert_eq!(back.amount, 80_000);
    assert_eq!(back.interest_rate, 450);
    assert_eq!(back.status, LoanStatus::Active);
    assert_eq!(back.borrower.as_slice(), &[9u8; 29][..]);
    assert_eq!(back.repayment_date, 99);
    assert_eq!(back.repaid, 12);
    assert_eq!(back.transfer_block_height, Some(123_456));
}

#[test]
fn acid_validation_round_trip() {
    for data in [None, Some("".to_string()), Some("note".to_string())] {
        let a = AcidValidation {
            acid_number: "987654321".to_string(),
            is_valid: data.is_some(),
            customs_data: data.clone(),
            validation_date: 77,
        };
        let back = AcidValidation::from_bytes(&a.to_bytes().unwrap()).unwrap();
        assert_eq!(back.acid_number, "987654321");
        assert_eq!(back.is_valid, data.is_some());
        assert_eq!(back.customs_data, data);
        assert_eq!(back.validation_date, 77);
    }
}

#[test]
fn mapping_and_verification_round_trip() {
    let m = CargoXMapping {
        id: "MAP-000001".to_string(),
        nft_hash: "0xhash".to_string(),
        acid_number: "123456789".to_string(),
        verified: true,
        created_at: 3,
        owner: who(&[4]),
        customs_entry_id: Some("entry".to_string()),
    };
    let bm = CargoXMapping::from_bytes(&m.to_bytes().unwrap()).unwrap();
    assert_eq!(bm.nft_hash, "0xhash");
    assert!(bm.verified);
    assert_eq!(bm.customs_entry_id.as_deref(), Some("entry"));

    let v = CustomsVerification {
        id: "VER-000001".to_string(),
        nft_hash: "0xhash".to_string(),
        acid_number: "123456789".to_string(),
        verification_status: CustomsStatus::Rejected,
        verified_at: Some(10),
        customs_data: Some("Rejected: bad".to_string()),
        created_at: 3,
        verified_by: Some(who(&[7, 7])),
    };
    let bv = CustomsVerification::from_bytes(&v.to_bytes().unwrap()).unwrap();
    assert_eq!(bv.verification_status, CustomsStatus::Rejected);
    assert_eq!(bv.verified_at, Some(10));
    assert_eq!(bv.customs_data.as_deref(), Some("Rejected: bad"));
    assert_eq!(bv.created_at, 3);
    assert_eq!(bv.verified_by.unwrap().as_slice(), &[7, 7]);
}

#[test]
fn truncated_input_is_an_error() {
    let bytes = sample_document().to_bytes().unwrap();
    for n in 0..bytes.len() {
        assert!(Document::from_bytes(&bytes[..n]).is_err());
    }
    assert_eq!(Document::from_bytes(&[]).err(), Some(DecodeError::MissingTerminator));
    assert_eq!(Document::from_bytes(b"a\0b\0c\0").err(), Some(DecodeError::UnexpectedEnd));
    assert!(Loan::from_bytes(&[0xff; 10]).is_err());
    assert!(CustomsVerification::from_bytes(&[1, 2, 3]).is_err());
    assert!(CargoXMapping::from_bytes(&[0, 0]).is_err());
    assert!(AcidValidation::from_bytes(&[]).is_err());
}

#[test]
fn garbage_input_errors() {
    assert_eq!(Document::from_bytes(&[0xff, 0xfe, 0]).err(), Some(DecodeError::InvalidText));
    let mut bytes: Vec<u8> = b"a\0b\0c\0".to_vec();
    bytes.extend_from_slice(&[0; 16]);
    bytes.push(30);
    bytes.extend_from_slice(&[0; 31]);
    assert_eq!(Document::from_bytes(&bytes).err(), Some(DecodeError::InvalidIdentity));
}

#[test]
fn unknown_status_reads_as_pending() {
    let mut bytes = sample_document().to_bytes().unwrap();
    let last = bytes.len() - 1;
    bytes[last] = 200;
    assert_eq!(Document::from_bytes(&bytes).unwrap().status, DocumentStatus::Pending);
}

#[test]
fn oversized_record_is_refused() {
    let mut d = sample_document();
    d.ethereum_tx_hash = "x".repeat(3000);
    assert_eq!(d.to_bytes(), Err(EncodeError::TooLarge));
}
