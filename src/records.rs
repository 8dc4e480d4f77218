//! The byte layout of each record type: encoding, bounds-checked decoding,
//! and the proofs that decoding an encoding gives the record back.
use crate::codec::{
    identity_field, lemma_parse_flag_field, lemma_parse_identity_field, lemma_parse_text_bounds,
    lemma_parse_text_field, lemma_parse_text_ok, lemma_parse_u64_field, lemma_parse_u8_field, lemma_u64_field_len,
    parse_flag, parse_identity, parse_text, parse_u64, parse_u8, read_flag, read_identity,
    read_text, read_u64, read_u8, text_field, u64_field, flag_field, write_flag,
    write_identity, write_text, write_u64, write_u8, DecodeError, EncodeError,
    lemma_parse_opt_identity_field, lemma_parse_opt_text_field, lemma_parse_opt_u64_field,
    opt_identity_field, opt_text_field, opt_text_view, opt_u64_field, parse_opt_identity,
    parse_opt_text, parse_opt_u64, read_opt_identity, read_opt_text, read_opt_u64,
    write_opt_text, write_opt_u64,
};
use crate::entities::{
    acid_validation_valid, customs_status_byte, customs_status_of, document_status_byte,
    document_status_of, document_valid, loan_status_byte, loan_status_of, loan_valid,
    mapping_valid, opt_identity_view, verification_valid, AcidValidation, AcidValidationView, CargoXMapping,
    CargoXMappingView, CustomsStatus, CustomsVerification, CustomsVerificationView, Document,
    DocumentStatus, DocumentView, Loan, LoanStatus, LoanView,
};
use crate::identity::Identity;
use vstd::prelude::*;

verus! {

broadcast use {lemma_parse_text_bounds, lemma_parse_text_ok};

pub const DOCUMENT_MAX_SIZE: usize = 2048;

/// Fewest bytes a document can take: three terminators, two integers, an
/// empty identity prefix and the status byte.
pub const DOCUMENT_MIN_SIZE: usize = 21;

pub open spec fn document_bytes(d: DocumentView) -> Seq<u8> {
    text_field(d.id) + text_field(d.acid_number) + text_field(d.ethereum_tx_hash) + u64_field(
        d.value_usd,
    ) + u64_field(d.created_at) + identity_field(d.owner) + seq![document_status_byte(d.status)]
}

pub open spec fn parse_document(b: Seq<u8>) -> Result<DocumentView, DecodeError> {
    match parse_text(b, 0) {
        Err(e) => Err(e),
        Ok((id, at1)) => match parse_text(b, at1) {
            Err(e) => Err(e),
            Ok((acid_number, at2)) => match parse_text(b, at2) {
                Err(e) => Err(e),
                Ok((ethereum_tx_hash, at3)) => match parse_u64(b, at3) {
                    Err(e) => Err(e),
                    Ok((value_usd, at4)) => match parse_u64(b, at4) {
                        Err(e) => Err(e),
                        Ok((created_at, at5)) => match parse_identity(b, at5) {
                            Err(e) => Err(e),
                            Ok((owner, at6)) => match parse_u8(b, at6) {
                                Err(e) => Err(e),
                                Ok((s, _)) => Ok(
                                    DocumentView {
                                        id,
                                        acid_number,
                                        ethereum_tx_hash,
                                        value_usd,
                                        status: document_status_of(s),
                                        created_at,
                                        owner,
                                    },
                                ),
                            },
                        },
                    },
                },
            },
        },
    }
}

/// Decoding the encoding of a valid document gives that document.
pub proof fn lemma_document_round_trip(d: DocumentView)
    requires
        document_valid(d),
    ensures
        parse_document(document_bytes(d)) == Ok::<DocumentView, DecodeError>(d),
{
    let b = document_bytes(d);
    let f1 = text_field(d.id);
    let f2 = text_field(d.acid_number);
    let f3 = text_field(d.ethereum_tx_hash);
    let f4 = u64_field(d.value_usd);
    let f5 = u64_field(d.created_at);
    let f6 = identity_field(d.owner);
    let f7 = seq![document_status_byte(d.status)];
    lemma_u64_field_len(d.value_usd);
    lemma_u64_field_len(d.created_at);
    let at1 = f1.len() as int;
    let at2 = at1 + f2.len();
    let at3 = at2 + f3.len();
    let at4 = at3 + 8;
    let at5 = at4 + 8;
    let at6 = at5 + f6.len();
    assert(b.subrange(0, at1) =~= f1);
    assert(b.subrange(at1, at2) =~= f2);
    assert(b.subrange(at2, at3) =~= f3);
    assert(b.subrange(at3, at4) =~= f4);
    assert(b.subrange(at4, at5) =~= f5);
    assert(b.subrange(at5, at6) =~= f6);
    assert(b.subrange(at6, at6 + 1) =~= f7);
    lemma_parse_text_field(b, 0, d.id);
    lemma_parse_text_field(b, at1, d.acid_number);
    lemma_parse_text_field(b, at2, d.ethereum_tx_hash);
    lemma_parse_u64_field(b, at3, d.value_usd);
    lemma_parse_u64_field(b, at4, d.created_at);
    lemma_parse_identity_field(b, at5, d.owner);
    lemma_parse_u8_field(b, at6, document_status_byte(d.status));
}

/// A buffer shorter than the smallest document never decodes.
pub proof fn lemma_document_short_input(b: Seq<u8>)
    requires
        b.len() < DOCUMENT_MIN_SIZE,
    ensures
        parse_document(b) is Err,
{
}

impl Document {
    /// The record's bytes, unless they exceed the document size bound.
    pub fn to_bytes(&self) -> (r: Result<Vec<u8>, EncodeError>)
        ensures
            r is Ok <==> document_bytes(self@).len() <= DOCUMENT_MAX_SIZE,
            r matches Ok(v) ==> v@ == document_bytes(self@),
    {
        let mut out: Vec<u8> = Vec::new();
        write_text(&mut out, self.id.as_str());
        write_text(&mut out, self.acid_number.as_str());
        write_text(&mut out, self.ethereum_tx_hash.as_str());
        write_u64(&mut out, self.value_usd);
        write_u64(&mut out, self.created_at);
        write_identity(&mut out, self.owner.as_slice());
        write_u8(&mut out, self.status.to_byte());
        assert(out@ =~= document_bytes(self@));
        if out.len() <= DOCUMENT_MAX_SIZE {
            Ok(out)
        } else {
            Err(EncodeError::TooLarge)
        }
    }

    /// Consumes the record and returns its bytes, as `to_bytes` does.
    pub fn into_bytes(self) -> (r: Result<Vec<u8>, EncodeError>)
        ensures
            r is Ok <==> document_bytes(self@).len() <= DOCUMENT_MAX_SIZE,
            r matches Ok(v) ==> v@ == document_bytes(self@),
    {
        self.to_bytes()
    }

    /// The document that the bytes hold, or why they hold none.
    pub fn from_bytes(b: &[u8]) -> (r: Result<Document, DecodeError>)
        ensures
            match parse_document(b@) {
                Ok(v) => r is Ok && r->Ok_0@ == v,
                Err(e) => r == Err::<Document, DecodeError>(e),
            },
    {
        let (id, p) = match read_text(b, 0) {
            Ok(x) => x,
            Err(e) => return Err(e),
        };
        let (acid_number, p) = match read_text(b, p) {
            Ok(x) => x,
            Err(e) => return Err(e),
        };
        let (ethereum_tx_hash, p) = match read_text(b, p) {
            Ok(x) => x,
            Err(e) => return Err(e),
        };
        let (value_usd, p) = match read_u64(b, p) {
            Ok(x) => x,
            Err(e) => return Err(e),
        };
        let (created_at, p) = match read_u64(b, p) {
            Ok(x) => x,
            Err(e) => return Err(e),
        };
        let (owner_bytes, p) = match read_identity(b, p) {
            Ok(x) => x,
            Err(e) => return Err(e),
        };
        let (s, _) = match read_u8(b, p) {
            Ok(x) => x,
            Err(e) => return Err(e),
        };
        let owner = match Identity::from_slice(owner_bytes.as_slice()) {
            Some(o) => o,
            None => return Err(DecodeError::InvalidIdentity),
        };
        Ok(
            Document {
                id,
                acid_number,
                ethereum_tx_hash,
                value_usd,
                status: DocumentStatus::from_byte(s),
                created_at,
                owner,
            },
        )
    }
}

pub const LOAN_MAX_SIZE: usize = 1524;

/// Fewest bytes a loan can take.
pub const LOAN_MIN_SIZE: usize = 45;

pub open spec fn loan_bytes(l: LoanView) -> Seq<u8> {
    text_field(l.id) + text_field(l.document_id) + u64_field(l.amount) + u64_field(
        l.interest_rate,
    ) + u64_field(l.created_at) + u64_field(l.repayment_date) + u64_field(l.repaid) + identity_field(
        l.borrower,
    ) + seq![
        loan_status_byte(l.status),
    ] + opt_u64_field(l.transfer_block_height)
}

pub open spec fn parse_loan(b: Seq<u8>) -> Result<LoanView, DecodeError> {
    match parse_text(b, 0) {
        Err(e) => Err(e),
        Ok((id, at1)) => match parse_text(b, at1) {
            Err(e) => Err(e),
            Ok((document_id, at2)) => match parse_u64(b, at2) {
                Err(e) => Err(e),
                Ok((amount, at3)) => match parse_u64(b, at3) {
                    Err(e) => Err(e),
                    Ok((interest_rate, at4)) => match parse_u64(b, at4) {
                        Err(e) => Err(e),
                        Ok((created_at, at5)) => match parse_u64(b, at5) {
                            Err(e) => Err(e),
                            Ok((repayment_date, at5r)) => match parse_u64(b, at5r) {
                                Err(e) => Err(e),
                                Ok((repaid, at6)) => match parse_identity(b, at6) {
                                Err(e) => Err(e),
                                Ok((borrower, at7)) => match parse_u8(b, at7) {
                                    Err(e) => Err(e),
                                    Ok((s, at8)) => match parse_opt_u64(b, at8) {
                                        Err(e) => Err(e),
                                        Ok((transfer_block_height, _)) => Ok(
                                            LoanView {
                                                id,
                                                document_id,
                                                amount,
                                                interest_rate,
                                                status: loan_status_of(s),
                                                created_at,
                                                borrower,
                                                repayment_date,
                                                repaid,
                                                transfer_block_height,
                                            },
                                        ),
                                    },
                                },
                                },
                            },
                        },
                    },
                },
            },
        },
    }
}

/// Decoding the encoding of a valid loan gives that loan.
pub proof fn lemma_loan_round_trip(l: LoanView)
    requires
        loan_valid(l),
    ensures
        parse_loan(loan_bytes(l)) == Ok::<LoanView, DecodeError>(l),
{
    let b = loan_bytes(l);
    let f1 = text_field(l.id);
    let f2 = text_field(l.document_id);
    let f7 = identity_field(l.borrower);
    let f9 = opt_u64_field(l.transfer_block_height);
    lemma_u64_field_len(l.amount);
    lemma_u64_field_len(l.interest_rate);
    lemma_u64_field_len(l.created_at);
    lemma_u64_field_len(l.repayment_date);
    lemma_u64_field_len(l.repaid);
    let at1 = f1.len() as int;
    let at2 = at1 + f2.len();
    let at3 = at2 + 8;
    let at4 = at3 + 8;
    let at5 = at4 + 8;
    let at5r = at5 + 8;
    let at6 = at5r + 8;
    let at7 = at6 + f7.len();
    let at8 = at7 + 1;
    assert(b.subrange(0, at1) =~= f1);
    assert(b.subrange(at1, at2) =~= f2);
    assert(b.subrange(at2, at3) =~= u64_field(l.amount));
    assert(b.subrange(at3, at4) =~= u64_field(l.interest_rate));
    assert(b.subrange(at4, at5) =~= u64_field(l.created_at));
    assert(b.subrange(at5, at5r) =~= u64_field(l.repayment_date));
    assert(b.subrange(at5r, at6) =~= u64_field(l.repaid));
    assert(b.subrange(at6, at7) =~= f7);
    assert(b.subrange(at7, at8) =~= seq![loan_status_byte(l.status)]);
    assert(b.subrange(at8, at8 + f9.len()) =~= f9);
    lemma_parse_text_field(b, 0, l.id);
    lemma_parse_text_field(b, at1, l.document_id);
    lemma_parse_u64_field(b, at2, l.amount);
    lemma_parse_u64_field(b, at3, l.interest_rate);
    lemma_parse_u64_field(b, at4, l.created_at);
    lemma_parse_u64_field(b, at5, l.repayment_date);
    lemma_parse_u64_field(b, at5r, l.repaid);
    lemma_parse_identity_field(b, at6, l.borrower);
    lemma_parse_u8_field(b, at7, loan_status_byte(l.status));
    lemma_parse_opt_u64_field(b, at8, l.transfer_block_height);
}

/// A buffer shorter than the smallest loan never decodes.
pub proof fn lemma_loan_short_input(b: Seq<u8>)
    requires
        b.len() < LOAN_MIN_SIZE,
    ensures
        parse_loan(b) is Err,
{
}

impl Loan {
    /// The record's bytes, unless they exceed the loan size bound.
    pub fn to_bytes(&self) -> (r: Result<Vec<u8>, EncodeError>)
        ensures
            r is Ok <==> loan_bytes(self@).len() <= LOAN_MAX_SIZE,
            r matches Ok(v) ==> v@ == loan_bytes(self@),
    {
        let mut out: Vec<u8> = Vec::new();
        write_text(&mut out, self.id.as_str());
        write_text(&mut out, self.document_id.as_str());
        write_u64(&mut out, self.amount);
        write_u64(&mut out, self.interest_rate);
        write_u64(&mut out, self.created_at);
        write_u64(&mut out, self.repayment_date);
        write_u64(&mut out, self.repaid);
        write_identity(&mut out, self.borrower.as_slice());
        write_u8(&mut out, self.status.to_byte());
        write_opt_u64(&mut out, self.transfer_block_height);
        assert(out@ =~= loan_bytes(self@));
        if out.len() <= LOAN_MAX_SIZE {
            Ok(out)
        } else {
            Err(EncodeError::TooLarge)
        }
    }

    /// Consumes the record and returns its bytes, as `to_bytes` does.
    pub fn into_bytes(self) -> (r: Result<Vec<u8>, EncodeError>)
        ensures
            r is Ok <==> loan_bytes(self@).len() <= LOAN_MAX_SIZE,
            r matches Ok(v) ==> v@ == loan_bytes(self@),
    {
        self.to_bytes()
    }

    /// The loan that the bytes hold, or why they hold none.
    pub fn from_bytes(b: &[u8]) -> (r: Result<Loan, DecodeError>)
        ensures
            match parse_loan(b@) {
                Ok(v) => r is Ok && r->Ok_0@ == v,
                Err(e) => r == Err::<Loan, DecodeError>(e),
            },
    {
        let (id, p) = match read_text(b, 0) {
            Ok(x) => x,
            Err(e) => return Err(e),
        };
        let (document_id, p) = match read_text(b, p) {
            Ok(x) => x,
            Err(e) => return Err(e),
        };
        let (amount, p) = match read_u64(b, p) {
            Ok(x) => x,
            Err(e) => return Err(e),
        };
        let (interest_rate, p) = match read_u64(b, p) {
            Ok(x) => x,
            Err(e) => return Err(e),
        };
        let (created_at, p) = match read_u64(b, p) {
            Ok(x) => x,
            Err(e) => return Err(e),
        };
        let (repayment_date, p) = match read_u64(b, p) {
            Ok(x) => x,
            Err(e) => return Err(e),
        };
        let (repaid, p) = match read_u64(b, p) {
            Ok(x) => x,
            Err(e) => return Err(e),
        };
        let (borrower_bytes, p) = match read_identity(b, p) {
            Ok(x) => x,
            Err(e) => return Err(e),
        };
        let (s, p) = match read_u8(b, p) {
            Ok(x) => x,
            Err(e) => return Err(e),
        };
        let (transfer_block_height, _) = match read_opt_u64(b, p) {
            Ok(x) => x,
            Err(e) => return Err(e),
        };
        let borrower = match Identity::from_slice(borrower_bytes.as_slice()) {
            Some(o) => o,
            None => return Err(DecodeError::InvalidIdentity),
        };
        Ok(
            Loan {
                id,
                document_id,
                amount,
                interest_rate,
                status: LoanStatus::from_byte(s),
                created_at,
                borrower,
                repayment_date,
                repaid,
                transfer_block_height,
            },
        )
    }
}

pub const ACID_VALIDATION_MAX_SIZE: usize = 512;

/// Fewest bytes a validation record can take.
pub const ACID_VALIDATION_MIN_SIZE: usize = 11;

pub open spec fn acid_validation_bytes(a: AcidValidationView) -> Seq<u8> {
    text_field(a.acid_number) + flag_field(a.is_valid) + u64_field(a.validation_date)
        + opt_text_field(a.customs_data)
}

pub open spec fn parse_acid_validation(b: Seq<u8>) -> Result<AcidValidationView, DecodeError> {
    match parse_text(b, 0) {
        Err(e) => Err(e),
        Ok((acid_number, at1)) => match parse_flag(b, at1) {
            Err(e) => Err(e),
            Ok((is_valid, at2)) => match parse_u64(b, at2) {
                Err(e) => Err(e),
                Ok((validation_date, at3)) => match parse_opt_text(b, at3) {
                    Err(e) => Err(e),
                    Ok((customs_data, _)) => Ok(
                        AcidValidationView { acid_number, is_valid, customs_data, validation_date },
                    ),
                },
            },
        },
    }
}

/// Decoding the encoding of a valid validation record gives that record.
pub proof fn lemma_acid_validation_round_trip(a: AcidValidationView)
    requires
        acid_validation_valid(a),
    ensures
        parse_acid_validation(acid_validation_bytes(a)) == Ok::<AcidValidationView, DecodeError>(a),
{
    let b = acid_validation_bytes(a);
    let f1 = text_field(a.acid_number);
    let f4 = opt_text_field(a.customs_data);
    lemma_u64_field_len(a.validation_date);
    let at1 = f1.len() as int;
    let at2 = at1 + 1;
    let at3 = at2 + 8;
    assert(b.subrange(0, at1) =~= f1);
    assert(b.subrange(at1, at2) =~= flag_field(a.is_valid));
    assert(b.subrange(at2, at3) =~= u64_field(a.validation_date));
    assert(b.subrange(at3, at3 + f4.len()) =~= f4);
    lemma_parse_text_field(b, 0, a.acid_number);
    lemma_parse_flag_field(b, at1, a.is_valid);
    lemma_parse_u64_field(b, at2, a.validation_date);
    lemma_parse_opt_text_field(b, at3, a.customs_data);
}

/// A buffer shorter than the smallest validation record never decodes.
pub proof fn lemma_acid_validation_short_input(b: Seq<u8>)
    requires
        b.len() < ACID_VALIDATION_MIN_SIZE,
    ensures
        parse_acid_validation(b) is Err,
{
}

impl AcidValidation {
    /// The record's bytes, unless they exceed the validation size bound.
    pub fn to_bytes(&self) -> (r: Result<Vec<u8>, EncodeError>)
        ensures
            r is Ok <==> acid_validation_bytes(self@).len() <= ACID_VALIDATION_MAX_SIZE,
            r matches Ok(v) ==> v@ == acid_validation_bytes(self@),
    {
        let mut out: Vec<u8> = Vec::new();
        write_text(&mut out, self.acid_number.as_str());
        write_flag(&mut out, self.is_valid);
        write_u64(&mut out, self.validation_date);
        write_opt_text(&mut out, &self.customs_data);
        assert(out@ =~= acid_validation_bytes(self@));
        if out.len() <= ACID_VALIDATION_MAX_SIZE {
            Ok(out)
        } else {
            Err(EncodeError::TooLarge)
        }
    }

    /// Consumes the record and returns its bytes, as `to_bytes` does.
    pub fn into_bytes(self) -> (r: Result<Vec<u8>, EncodeError>)
        ensures
            r is Ok <==> acid_validation_bytes(self@).len() <= ACID_VALIDATION_MAX_SIZE,
            r matches Ok(v) ==> v@ == acid_validation_bytes(self@),
    {
        self.to_bytes()
    }

    /// The validation record that the bytes hold, or why they hold none.
    pub fn from_bytes(b: &[u8]) -> (r: Result<AcidValidation, DecodeError>)
        ensures
            match parse_acid_validation(b@) {
                Ok(v) => r is Ok && r->Ok_0@ == v,
                Err(e) => r == Err::<AcidValidation, DecodeError>(e),
            },
    {
        let (acid_number, p) = match read_text(b, 0) {
            Ok(x) => x,
            Err(e) => return Err(e),
        };
        let (is_valid, p) = match read_flag(b, p) {
            Ok(x) => x,
            Err(e) => return Err(e),
        };
        let (validation_date, p) = match read_u64(b, p) {
            Ok(x) => x,
            Err(e) => return Err(e),
        };
        let (customs_data, _) = match read_opt_text(b, p) {
            Ok(x) => x,
            Err(e) => return Err(e),
        };
        Ok(AcidValidation { acid_number, is_valid, customs_data, validation_date })
    }
}

pub const MAPPING_MAX_SIZE: usize = 1024;

/// Fewest bytes a mapping can take.
pub const MAPPING_MIN_SIZE: usize = 14;

pub open spec fn mapping_bytes(m: CargoXMappingView) -> Seq<u8> {
    text_field(m.id) + text_field(m.nft_hash) + text_field(m.acid_number) + flag_field(m.verified)
        + u64_field(m.created_at) + identity_field(m.owner) + opt_text_field(m.customs_entry_id)
}

pub open spec fn parse_mapping(b: Seq<u8>) -> Result<CargoXMappingView, DecodeError> {
    match parse_text(b, 0) {
        Err(e) => Err(e),
        Ok((id, at1)) => match parse_text(b, at1) {
            Err(e) => Err(e),
            Ok((nft_hash, at2)) => match parse_text(b, at2) {
                Err(e) => Err(e),
                Ok((acid_number, at3)) => match parse_flag(b, at3) {
                    Err(e) => Err(e),
                    Ok((verified, at4)) => match parse_u64(b, at4) {
                        Err(e) => Err(e),
                        Ok((created_at, at5)) => match parse_identity(b, at5) {
                            Err(e) => Err(e),
                            Ok((owner, at6)) => match parse_opt_text(b, at6) {
                                Err(e) => Err(e),
                                Ok((customs_entry_id, _)) => Ok(
                                    CargoXMappingView {
                                        id,
                                        nft_hash,
                                        acid_number,
                                        verified,
                                        created_at,
                                        owner,
                                        customs_entry_id,
                                    },
                                ),
                            },
                        },
                    },
                },
            },
        },
    }
}

/// Decoding the encoding of a valid mapping gives that mapping.
pub proof fn lemma_mapping_round_trip(m: CargoXMappingView)
    requires
        mapping_valid(m),
    ensures
        parse_mapping(mapping_bytes(m)) == Ok::<CargoXMappingView, DecodeError>(m),
{
    let b = mapping_bytes(m);
    let f1 = text_field(m.id);
    let f2 = text_field(m.nft_hash);
    let f3 = text_field(m.acid_number);
    let f6 = identity_field(m.owner);
    let f7 = opt_text_field(m.customs_entry_id);
    lemma_u64_field_len(m.created_at);
    let at1 = f1.len() as int;
    let at2 = at1 + f2.len();
    let at3 = at2 + f3.len();
    let at4 = at3 + 1;
    let at5 = at4 + 8;
    let at6 = at5 + f6.len();
    assert(b.subrange(0, at1) =~= f1);
    assert(b.subrange(at1, at2) =~= f2);
    assert(b.subrange(at2, at3) =~= f3);
    assert(b.subrange(at3, at4) =~= flag_field(m.verified));
    assert(b.subrange(at4, at5) =~= u64_field(m.created_at));
    assert(b.subrange(at5, at6) =~= f6);
    assert(b.subrange(at6, at6 + f7.len()) =~= f7);
    lemma_parse_text_field(b, 0, m.id);
    lemma_parse_text_field(b, at1, m.nft_hash);
    lemma_parse_text_field(b, at2, m.acid_number);
    lemma_parse_flag_field(b, at3, m.verified);
    lemma_parse_u64_field(b, at4, m.created_at);
    lemma_parse_identity_field(b, at5, m.owner);
    lemma_parse_opt_text_field(b, at6, m.customs_entry_id);
}

/// A buffer shorter than the smallest mapping never decodes.
pub proof fn lemma_mapping_short_input(b: Seq<u8>)
    requires
        b.len() < MAPPING_MIN_SIZE,
    ensures
        parse_mapping(b) is Err,
{
}

impl CargoXMapping {
    /// The record's bytes, unless they exceed the mapping size bound.
    pub fn to_bytes(&self) -> (r: Result<Vec<u8>, EncodeError>)
        ensures
            r is Ok <==> mapping_bytes(self@).len() <= MAPPING_MAX_SIZE,
            r matches Ok(v) ==> v@ == mapping_bytes(self@),
    {
        let mut out: Vec<u8> = Vec::new();
        write_text(&mut out, self.id.as_str());
        write_text(&mut out, self.nft_hash.as_str());
        write_text(&mut out, self.acid_number.as_str());
        write_flag(&mut out, self.verified);
        write_u64(&mut out, self.created_at);
        write_identity(&mut out, self.owner.as_slice());
        write_opt_text(&mut out, &self.customs_entry_id);
        assert(out@ =~= mapping_bytes(self@));
        if out.len() <= MAPPING_MAX_SIZE {
            Ok(out)
        } else {
            Err(EncodeError::TooLarge)
        }
    }

    /// Consumes the record and returns its bytes, as `to_bytes` does.
    pub fn into_bytes(self) -> (r: Result<Vec<u8>, EncodeError>)
        ensures
            r is Ok <==> mapping_bytes(self@).len() <= MAPPING_MAX_SIZE,
            r matches Ok(v) ==> v@ == mapping_bytes(self@),
    {
        self.to_bytes()
    }

    /// The mapping that the bytes hold, or why they hold none.
    pub fn from_bytes(b: &[u8]) -> (r: Result<CargoXMapping, DecodeError>)
        ensures
            match parse_mapping(b@) {
                Ok(v) => r is Ok && r->Ok_0@ == v,
                Err(e) => r == Err::<CargoXMapping, DecodeError>(e),
            },
    {
        let (id, p) = match read_text(b, 0) {
            Ok(x) => x,
            Err(e) => return Err(e),
        };
        let (nft_hash, p) = match read_text(b, p) {
            Ok(x) => x,
            Err(e) => return Err(e),
        };
        let (acid_number, p) = match read_text(b, p) {
            Ok(x) => x,
            Err(e) => return Err(e),
        };
        let (verified, p) = match read_flag(b, p) {
            Ok(x) => x,
            Err(e) => return Err(e),
        };
        let (created_at, p) = match read_u64(b, p) {
            Ok(x) => x,
            Err(e) => return Err(e),
        };
        let (owner_bytes, p) = match read_identity(b, p) {
            Ok(x) => x,
            Err(e) => return Err(e),
        };
        let (customs_entry_id, _) = match read_opt_text(b, p) {
            Ok(x) => x,
            Err(e) => return Err(e),
        };
        let owner = match Identity::from_slice(owner_bytes.as_slice()) {
            Some(o) => o,
            None => return Err(DecodeError::InvalidIdentity),
        };
        Ok(
            CargoXMapping {
                id,
                nft_hash,
                acid_number,
                verified,
                created_at,
                owner,
                customs_entry_id,
            },
        )
    }
}

pub const VERIFICATION_MAX_SIZE: usize = 1024;

/// Fewest bytes a verification can take.
pub const VERIFICATION_MIN_SIZE: usize = 15;

pub open spec fn verification_bytes(v: CustomsVerificationView) -> Seq<u8> {
    text_field(v.id) + text_field(v.nft_hash) + text_field(v.acid_number) + seq![
        customs_status_byte(v.verification_status),
    ] + opt_u64_field(v.verified_at) + opt_text_field(v.customs_data) + u64_field(v.created_at)
        + opt_identity_field(v.verified_by)
}

pub open spec fn parse_verification(b: Seq<u8>) -> Result<CustomsVerificationView, DecodeError> {
    match parse_text(b, 0) {
        Err(e) => Err(e),
        Ok((id, at1)) => match parse_text(b, at1) {
            Err(e) => Err(e),
            Ok((nft_hash, at2)) => match parse_text(b, at2) {
                Err(e) => Err(e),
                Ok((acid_number, at3)) => match parse_u8(b, at3) {
                    Err(e) => Err(e),
                    Ok((s, at4)) => match parse_opt_u64(b, at4) {
                        Err(e) => Err(e),
                        Ok((verified_at, at5)) => match parse_opt_text(b, at5) {
                            Err(e) => Err(e),
                            Ok((customs_data, at6)) => match parse_u64(b, at6) {
                                Err(e) => Err(e),
                                Ok((created_at, at7)) => match parse_opt_identity(b, at7) {
                                    Err(e) => Err(e),
                                    Ok((verified_by, _)) => Ok(
                                        CustomsVerificationView {
                                            id,
                                            nft_hash,
                                            acid_number,
                                            verification_status: customs_status_of(s),
                                            verified_at,
                                            customs_data,
                                            created_at,
                                            verified_by,
                                        },
                                    ),
                                },
                            },
                        },
                    },
                },
            },
        },
    }
}

/// Decoding the encoding of a valid verification gives that verification.
#[verifier::spinoff_prover]
#[verifier::rlimit(80)]
pub proof fn lemma_verification_round_trip(v: CustomsVerificationView)
    requires
        verification_valid(v),
    ensures
        parse_verification(verification_bytes(v)) == Ok::<CustomsVerificationView, DecodeError>(v),
{
    let b = verification_bytes(v);
    let f1 = text_field(v.id);
    let f2 = text_field(v.nft_hash);
    let f3 = text_field(v.acid_number);
    let f5 = opt_u64_field(v.verified_at);
    let f6 = opt_text_field(v.customs_data);
    let f8 = opt_identity_field(v.verified_by);
    lemma_u64_field_len(v.created_at);
    let at1 = f1.len() as int;
    let at2 = at1 + f2.len();
    let at3 = at2 + f3.len();
    let at4 = at3 + 1;
    let at5 = at4 + f5.len();
    let at6 = at5 + f6.len();
    let at7 = at6 + 8;
    assert(b.subrange(0, at1) =~= f1);
    assert(b.subrange(at1, at2) =~= f2);
    assert(b.subrange(at2, at3) =~= f3);
    assert(b.subrange(at3, at4) =~= seq![customs_status_byte(v.verification_status)]);
    assert(b.subrange(at4, at5) =~= f5);
    assert(b.subrange(at5, at6) =~= f6);
    assert(b.subrange(at6, at7) =~= u64_field(v.created_at));
    assert(b.subrange(at7, at7 + f8.len()) =~= f8);
    lemma_parse_text_field(b, 0, v.id);
    lemma_parse_text_field(b, at1, v.nft_hash);
    lemma_parse_text_field(b, at2, v.acid_number);
    lemma_parse_u8_field(b, at3, customs_status_byte(v.verification_status));
    lemma_parse_opt_u64_field(b, at4, v.verified_at);
    lemma_parse_opt_text_field(b, at5, v.customs_data);
    lemma_parse_u64_field(b, at6, v.created_at);
    lemma_parse_opt_identity_field(b, at7, v.verified_by);
}

/// A buffer shorter than the smallest verification never decodes.
pub proof fn lemma_verification_short_input(b: Seq<u8>)
    requires
        b.len() < VERIFICATION_MIN_SIZE,
    ensures
        parse_verification(b) is Err,
{
}

fn write_opt_identity(out: &mut Vec<u8>, o: &Option<Identity>)
    ensures
        final(out)@ == old(out)@ + opt_identity_field(opt_identity_view(*o)),
{
    match o {
        Some(id) => {
            out.push(1u8);
            write_identity(out, id.as_slice());
        },
        None => {
            out.push(0u8);
        },
    }
    assert(final(out)@ =~= old(out)@ + opt_identity_field(opt_identity_view(*o)));
}

impl CustomsVerification {
    /// The record's bytes, unless they exceed the verification size bound.
    pub fn to_bytes(&self) -> (r: Result<Vec<u8>, EncodeError>)
        ensures
            r is Ok <==> verification_bytes(self@).len() <= VERIFICATION_MAX_SIZE,
            r matches Ok(v) ==> v@ == verification_bytes(self@),
    {
        let mut out: Vec<u8> = Vec::new();
        write_text(&mut out, self.id.as_str());
        write_text(&mut out, self.nft_hash.as_str());
        write_text(&mut out, self.acid_number.as_str());
        write_u8(&mut out, self.verification_status.to_byte());
        write_opt_u64(&mut out, self.verified_at);
        write_opt_text(&mut out, &self.customs_data);
        write_u64(&mut out, self.created_at);
        write_opt_identity(&mut out, &self.verified_by);
        assert(out@ =~= verification_bytes(self@));
        if out.len() <= VERIFICATION_MAX_SIZE {
            Ok(out)
        } else {
            Err(EncodeError::TooLarge)
        }
    }

    /// Consumes the record and returns its bytes, as `to_bytes` does.
    pub fn into_bytes(self) -> (r: Result<Vec<u8>, EncodeError>)
        ensures
            r is Ok <==> verification_bytes(self@).len() <= VERIFICATION_MAX_SIZE,
            r matches Ok(v) ==> v@ == verification_bytes(self@),
    {
        self.to_bytes()
    }

    /// The verification that the bytes hold, or why they hold none.
    pub fn from_bytes(b: &[u8]) -> (r: Result<CustomsVerification, DecodeError>)
        ensures
            match parse_verification(b@) {
                Ok(v) => r is Ok && r->Ok_0@ == v,
                Err(e) => r == Err::<CustomsVerification, DecodeError>(e),
            },
    {
        let (id, p) = match read_text(b, 0) {
            Ok(x) => x,
            Err(e) => return Err(e),
        };
        let (nft_hash, p) = match read_text(b, p) {
            Ok(x) => x,
            Err(e) => return Err(e),
        };
        let (acid_number, p) = match read_text(b, p) {
            Ok(x) => x,
            Err(e) => return Err(e),
        };
        let (s, p) = match read_u8(b, p) {
            Ok(x) => x,
            Err(e) => return Err(e),
        };
        let (verified_at, p) = match read_opt_u64(b, p) {
            Ok(x) => x,
            Err(e) => return Err(e),
        };
        let (customs_data, p) = match read_opt_text(b, p) {
            Ok(x) => x,
            Err(e) => return Err(e),
        };
        let (created_at, p) = match read_u64(b, p) {
            Ok(x) => x,
            Err(e) => return Err(e),
        };
        let (verified_by_bytes, _) = match read_opt_identity(b, p) {
            Ok(x) => x,
            Err(e) => return Err(e),
        };
        let verified_by = match verified_by_bytes {
            Some(v) => match Identity::from_slice(v.as_slice()) {
                Some(i) => Some(i),
                None => return Err(DecodeError::InvalidIdentity),
            },
            None => None,
        };
        Ok(
            CustomsVerification {
                id,
                nft_hash,
                acid_number,
                verification_status: CustomsStatus::from_byte(s),
                verified_at,
                customs_data,
                created_at,
                verified_by,
            },
        )
    }
}

/// Every document that decodes is one that the codec carries exactly.
pub proof fn lemma_parsed_document_valid(b: Seq<u8>)
    ensures
        parse_document(b) matches Ok(d) ==> document_valid(d),
{
}

/// Every loan that decodes is one that the codec carries exactly.
pub proof fn lemma_parsed_loan_valid(b: Seq<u8>)
    ensures
        parse_loan(b) matches Ok(l) ==> loan_valid(l),
{
}

/// Every mapping that decodes is one that the codec carries exactly.
pub proof fn lemma_parsed_mapping_valid(b: Seq<u8>)
    ensures
        parse_mapping(b) matches Ok(m) ==> mapping_valid(m),
{
}

/// Every verification that decodes is one that the codec carries exactly.
pub proof fn lemma_parsed_verification_valid(b: Seq<u8>)
    ensures
        parse_verification(b) matches Ok(v) ==> verification_valid(v),
{
}

} // verus!
