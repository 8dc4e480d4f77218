//! The records of the system, their statuses and their mathematical views.
use crate::codec::{opt_text_ok, opt_text_view, text_ok, MAX_IDENTITY_LEN};
use crate::identity::Identity;
use vstd::prelude::*;

verus! {

/// Lifecycle of a trade document.
#[derive(Clone, Copy, Debug, PartialEq, Eq, Structural)]
pub enum DocumentStatus {
    Pending,
    Verified,
    Rejected,
    NftMinted,
}

/// Lifecycle of a loan.
#[derive(Clone, Copy, Debug, PartialEq, Eq, Structural)]
pub enum LoanStatus {
    Pending,
    Approved,
    Active,
    Repaid,
    Defaulted,
    Rejected,
    TransferPending,
    TransferFailed,
}

/// Lifecycle of a customs verification.
#[derive(Clone, Copy, Debug, PartialEq, Eq, Structural)]
pub enum CustomsStatus {
    Pending,
    Verified,
    Rejected,
    UnderReview,
}

pub open spec fn document_status_byte(s: DocumentStatus) -> u8 {
    match s {
        DocumentStatus::Pending => 0,
        DocumentStatus::Verified => 1,
        DocumentStatus::Rejected => 2,
        DocumentStatus::NftMinted => 3,
    }
}

/// Unknown bytes read as the first status.
pub open spec fn document_status_of(b: u8) -> DocumentStatus {
    if b == 1 {
        DocumentStatus::Verified
    } else if b == 2 {
        DocumentStatus::Rejected
    } else if b == 3 {
        DocumentStatus::NftMinted
    } else {
        DocumentStatus::Pending
    }
}

pub open spec fn loan_status_byte(s: LoanStatus) -> u8 {
    match s {
        LoanStatus::Pending => 0,
        LoanStatus::Approved => 1,
        LoanStatus::Active => 2,
        LoanStatus::Repaid => 3,
        LoanStatus::Defaulted => 4,
        LoanStatus::Rejected => 5,
        LoanStatus::TransferPending => 6,
        LoanStatus::TransferFailed => 7,
    }
}

/// Unknown bytes read as the first status.
pub open spec fn loan_status_of(b: u8) -> LoanStatus {
    if b == 1 {
        LoanStatus::Approved
    } else if b == 2 {
        LoanStatus::Active
    } else if b == 3 {
        LoanStatus::Repaid
    } else if b == 4 {
        LoanStatus::Defaulted
    } else if b == 5 {
        LoanStatus::Rejected
    } else if b == 6 {
        LoanStatus::TransferPending
    } else if b == 7 {
        LoanStatus::TransferFailed
    } else {
        LoanStatus::Pending
    }
}

pub open spec fn customs_status_byte(s: CustomsStatus) -> u8 {
    match s {
        CustomsStatus::Pending => 0,
        CustomsStatus::Verified => 1,
        CustomsStatus::Rejected => 2,
        CustomsStatus::UnderReview => 3,
    }
}

/// Unknown bytes read as the first status.
pub open spec fn customs_status_of(b: u8) -> CustomsStatus {
    if b == 1 {
        CustomsStatus::Verified
    } else if b == 2 {
        CustomsStatus::Rejected
    } else if b == 3 {
        CustomsStatus::UnderReview
    } else {
        CustomsStatus::Pending
    }
}

impl DocumentStatus {
    pub fn to_byte(self) -> (r: u8)
        ensures
            r == document_status_byte(self),
    {
        match self {
            DocumentStatus::Pending => 0,
            DocumentStatus::Verified => 1,
            DocumentStatus::Rejected => 2,
            DocumentStatus::NftMinted => 3,
        }
    }

    pub fn from_byte(b: u8) -> (r: DocumentStatus)
        ensures
            r == document_status_of(b),
    {
        if b == 1 {
            DocumentStatus::Verified
        } else if b == 2 {
            DocumentStatus::Rejected
        } else if b == 3 {
            DocumentStatus::NftMinted
        } else {
            DocumentStatus::Pending
        }
    }
}

impl LoanStatus {
    pub fn to_byte(self) -> (r: u8)
        ensures
            r == loan_status_byte(self),
    {
        match self {
            LoanStatus::Pending => 0,
            LoanStatus::Approved => 1,
            LoanStatus::Active => 2,
            LoanStatus::Repaid => 3,
            LoanStatus::Defaulted => 4,
            LoanStatus::Rejected => 5,
            LoanStatus::TransferPending => 6,
            LoanStatus::TransferFailed => 7,
        }
    }

    pub fn from_byte(b: u8) -> (r: LoanStatus)
        ensures
            r == loan_status_of(b),
    {
        if b == 1 {
            LoanStatus::Approved
        } else if b == 2 {
            LoanStatus::Active
        } else if b == 3 {
            LoanStatus::Repaid
        } else if b == 4 {
            LoanStatus::Defaulted
        } else if b == 5 {
            LoanStatus::Rejected
        } else if b == 6 {
            LoanStatus::TransferPending
        } else if b == 7 {
            LoanStatus::TransferFailed
        } else {
            LoanStatus::Pending
        }
    }
}

impl CustomsStatus {
    pub fn to_byte(self) -> (r: u8)
        ensures
            r == customs_status_byte(self),
    {
        match self {
            CustomsStatus::Pending => 0,
            CustomsStatus::Verified => 1,
            CustomsStatus::Rejected => 2,
            CustomsStatus::UnderReview => 3,
        }
    }

    pub fn from_byte(b: u8) -> (r: CustomsStatus)
        ensures
            r == customs_status_of(b),
    {
        if b == 1 {
            CustomsStatus::Verified
        } else if b == 2 {
            CustomsStatus::Rejected
        } else if b == 3 {
            CustomsStatus::UnderReview
        } else {
            CustomsStatus::Pending
        }
    }
}

/// A trade document submitted against an ACID number.
#[derive(Debug)]
pub struct Document {
    pub id: String,
    pub acid_number: String,
    pub ethereum_tx_hash: String,
    pub value_usd: u64,
    pub status: DocumentStatus,
    pub created_at: u64,
    pub owner: Identity,
}

pub struct DocumentView {
    pub id: Seq<char>,
    pub acid_number: Seq<char>,
    pub ethereum_tx_hash: Seq<char>,
    pub value_usd: u64,
    pub status: DocumentStatus,
    pub created_at: u64,
    pub owner: Seq<u8>,
}

impl View for Document {
    type V = DocumentView;

    open spec fn view(&self) -> DocumentView {
        DocumentView {
            id: self.id@,
            acid_number: self.acid_number@,
            ethereum_tx_hash: self.ethereum_tx_hash@,
            value_usd: self.value_usd,
            status: self.status,
            created_at: self.created_at,
            owner: self.owner@,
        }
    }
}

/// A document that the codec carries exactly.
pub open spec fn document_valid(d: DocumentView) -> bool {
    &&& text_ok(d.id)
    &&& text_ok(d.acid_number)
    &&& text_ok(d.ethereum_tx_hash)
    &&& d.owner.len() <= MAX_IDENTITY_LEN
}

/// A loan against a document; the interest rate is in basis points, and
/// `repaid` is the total of the repayments accepted so far.
#[derive(Debug)]
pub struct Loan {
    pub id: String,
    pub document_id: String,
    pub amount: u64,
    pub interest_rate: u64,
    pub status: LoanStatus,
    pub created_at: u64,
    pub borrower: Identity,
    pub repayment_date: u64,
    pub repaid: u64,
    pub transfer_block_height: Option<u64>,
}

pub struct LoanView {
    pub id: Seq<char>,
    pub document_id: Seq<char>,
    pub amount: u64,
    pub interest_rate: u64,
    pub status: LoanStatus,
    pub created_at: u64,
    pub borrower: Seq<u8>,
    pub repayment_date: u64,
    pub repaid: u64,
    pub transfer_block_height: Option<u64>,
}

impl View for Loan {
    type V = LoanView;

    open spec fn view(&self) -> LoanView {
        LoanView {
            id: self.id@,
            document_id: self.document_id@,
            amount: self.amount,
            interest_rate: self.interest_rate,
            status: self.status,
            created_at: self.created_at,
            borrower: self.borrower@,
            repayment_date: self.repayment_date,
            repaid: self.repaid,
            transfer_block_height: self.transfer_block_height,
        }
    }
}

/// A loan that the codec carries exactly.
pub open spec fn loan_valid(l: LoanView) -> bool {
    &&& text_ok(l.id)
    &&& text_ok(l.document_id)
    &&& l.borrower.len() <= MAX_IDENTITY_LEN
}

/// The outcome of checking an ACID number against the allow-list.
#[derive(Debug)]
pub struct AcidValidation {
    pub acid_number: String,
    pub is_valid: bool,
    pub customs_data: Option<String>,
    pub validation_date: u64,
}

pub struct AcidValidationView {
    pub acid_number: Seq<char>,
    pub is_valid: bool,
    pub customs_data: Option<Seq<char>>,
    pub validation_date: u64,
}

impl View for AcidValidation {
    type V = AcidValidationView;

    open spec fn view(&self) -> AcidValidationView {
        AcidValidationView {
            acid_number: self.acid_number@,
            is_valid: self.is_valid,
            customs_data: opt_text_view(self.customs_data),
            validation_date: self.validation_date,
        }
    }
}

/// A validation record that the codec carries exactly.
pub open spec fn acid_validation_valid(a: AcidValidationView) -> bool {
    &&& text_ok(a.acid_number)
    &&& opt_text_ok(a.customs_data)
}

/// The link between an external asset hash and an ACID number.
#[derive(Debug)]
pub struct CargoXMapping {
    pub id: String,
    pub nft_hash: String,
    pub acid_number: String,
    pub verified: bool,
    pub created_at: u64,
    pub owner: Identity,
    pub customs_entry_id: Option<String>,
}

pub struct CargoXMappingView {
    pub id: Seq<char>,
    pub nft_hash: Seq<char>,
    pub acid_number: Seq<char>,
    pub verified: bool,
    pub created_at: u64,
    pub owner: Seq<u8>,
    pub customs_entry_id: Option<Seq<char>>,
}

impl View for CargoXMapping {
    type V = CargoXMappingView;

    open spec fn view(&self) -> CargoXMappingView {
        CargoXMappingView {
            id: self.id@,
            nft_hash: self.nft_hash@,
            acid_number: self.acid_number@,
            verified: self.verified,
            created_at: self.created_at,
            owner: self.owner@,
            customs_entry_id: opt_text_view(self.customs_entry_id),
        }
    }
}

/// A mapping that the codec carries exactly.
pub open spec fn mapping_valid(m: CargoXMappingView) -> bool {
    &&& text_ok(m.id)
    &&& text_ok(m.nft_hash)
    &&& text_ok(m.acid_number)
    &&& m.owner.len() <= MAX_IDENTITY_LEN
    &&& opt_text_ok(m.customs_entry_id)
}

/// The customs verification that accompanies a mapping.
#[derive(Debug)]
pub struct CustomsVerification {
    pub id: String,
    pub nft_hash: String,
    pub acid_number: String,
    pub verification_status: CustomsStatus,
    pub verified_at: Option<u64>,
    pub customs_data: Option<String>,
    pub created_at: u64,
    pub verified_by: Option<Identity>,
}

pub struct CustomsVerificationView {
    pub id: Seq<char>,
    pub nft_hash: Seq<char>,
    pub acid_number: Seq<char>,
    pub verification_status: CustomsStatus,
    pub verified_at: Option<u64>,
    pub customs_data: Option<Seq<char>>,
    pub created_at: u64,
    pub verified_by: Option<Seq<u8>>,
}

pub open spec fn opt_identity_view(o: Option<Identity>) -> Option<Seq<u8>> {
    match o {
        Some(i) => Some(i@),
        None => None,
    }
}

impl View for CustomsVerification {
    type V = CustomsVerificationView;

    open spec fn view(&self) -> CustomsVerificationView {
        CustomsVerificationView {
            id: self.id@,
            nft_hash: self.nft_hash@,
            acid_number: self.acid_number@,
            verification_status: self.verification_status,
            verified_at: self.verified_at,
            customs_data: opt_text_view(self.customs_data),
            created_at: self.created_at,
            verified_by: opt_identity_view(self.verified_by),
        }
    }
}

/// A verification that the codec carries exactly.
pub open spec fn verification_valid(v: CustomsVerificationView) -> bool {
    &&& text_ok(v.id)
    &&& text_ok(v.nft_hash)
    &&& text_ok(v.acid_number)
    &&& opt_text_ok(v.customs_data)
    &&& (v.verified_by matches Some(b) ==> b.len() <= MAX_IDENTITY_LEN)
}

} // verus!
