//! The workflow engine: guarded state transitions of documents, customs
//! verifications and loans over the durable collections.
use crate::acid::{acid_allow_list, acid_format_ok, is_acid_format, is_acid_in_static_dataset};
use crate::codec::{text_ok, DecodeError, is_text_ok};
use crate::entities::{
    AcidValidation, AcidValidationView, CargoXMapping, CargoXMappingView, CustomsStatus,
    CustomsVerification, CustomsVerificationView, Document, DocumentStatus, DocumentView, Loan,
    LoanStatus, LoanView,
};
use crate::ledger::{
    balance_in, balance_of, block_counter, credit_fits, icrc1_transfer, mint, moved, paid_from,
    payout_fits, transfer, usd_to_tokens,
    LedgerError, Account, TransferArgs, TransferError,
    TOKENS_PER_USD, TRANSFER_FEE,
};
use crate::identity::{anonymous_bytes, Identity};
use crate::ids::{
    counter_value, document_counter, document_prefix, format_id, generate_doc_id,
    generate_loan_id, generate_mapping_id, generate_verification_id, id_text, loan_counter,
    loan_prefix, mapping_counter, mapping_prefix, verification_counter, verification_prefix,
};
use crate::records::{
    acid_validation_bytes, document_bytes, parse_acid_validation, lemma_document_round_trip, lemma_loan_round_trip,
    lemma_parsed_document_valid, lemma_parsed_loan_valid, loan_bytes, parse_document, parse_loan,
    ACID_VALIDATION_MAX_SIZE, DOCUMENT_MAX_SIZE, LOAN_MAX_SIZE, mapping_bytes, parse_mapping,
    parse_verification, verification_bytes, MAPPING_MAX_SIZE, VERIFICATION_MAX_SIZE,
};
use crate::store::{
    BalanceMap, CounterMap, MemoryRegion, RecordMap, ACID_VALIDATIONS_PARTITION,
    BALANCES_PARTITION, COUNTERS_PARTITION, DOCUMENTS_PARTITION, LOANS_PARTITION,
    MAPPINGS_PARTITION, VERIFICATIONS_PARTITION,
};
use vstd::prelude::*;
use vstd::utf8::{encode_utf8, is_ascii_chars, is_ascii_chars_encode_utf8};

verus! {

/// Why an operation was refused. Every refusal leaves the state as it was,
/// except where an operation's contract says otherwise.
#[derive(Clone, Copy, Debug, PartialEq, Eq, Structural)]
pub enum EngineError {
    /// The ACID number is not nine ASCII digits.
    InvalidAcidFormat,
    /// The ACID number is not on the allow-list.
    InvalidAcid,
    /// A text argument holds a character that records cannot carry.
    InvalidText,
    /// No record has the given key.
    NotFound,
    /// The record's status does not allow the transition.
    WrongStatus,
    /// Only the record's owner may do this.
    NotOwner,
    /// The loan amount exceeds 80% of the document's value.
    ExceedsLoanCap,
    /// The asset hash is already linked to an ACID number.
    AlreadyLinked,
    /// The balance is below the amount.
    InsufficientFunds,
    /// The anonymous identity may not do this.
    AnonymousCaller,
    /// The amount does not fit the ledger's arithmetic.
    AmountTooLarge,
    /// An id counter has reached its largest value.
    IdsExhausted,
    /// The next id is already the key of a stored record.
    IdInUse,
    /// The record would exceed its type's size bound.
    TooLarge,
    /// The stored record does not decode.
    Corrupt(DecodeError),
    /// The external transfer failed; the loan can be retried.
    TransferFailed,
}

/// The durable state that the workflow operates on.
pub struct Engine {
    pub documents: RecordMap,
    pub loans: RecordMap,
    pub acid_validations: RecordMap,
    pub balances: BalanceMap,
    pub mappings: RecordMap,
    pub verifications: RecordMap,
    pub counters: CounterMap,
}

/// The document stored under `id`, or why there is none.
pub open spec fn document_in(m: Map<Seq<char>, Seq<u8>>, id: Seq<char>) -> Result<
    DocumentView,
    EngineError,
> {
    if !m.contains_key(id) {
        Err(EngineError::NotFound)
    } else {
        match parse_document(m[id]) {
            Ok(d) => Ok(d),
            Err(e) => Err(EngineError::Corrupt(e)),
        }
    }
}

/// The customs note stored with an allow-listed ACID number.
pub open spec fn simulated_customs_note() -> Seq<char> {
    "Simulated customs data"@
}

/// The validation record written for an ACID number at time `now`.
pub open spec fn acid_record(acid: Seq<char>, now: u64) -> AcidValidationView {
    let valid = acid_allow_list().contains(acid);
    AcidValidationView {
        acid_number: acid,
        is_valid: valid,
        customs_data: if valid {
            Some(simulated_customs_note())
        } else {
            None
        },
        validation_date: now,
    }
}

/// The outcome of validating an ACID number: the answer and the new
/// validation records.
pub open spec fn validate_acid_outcome(
    m: Map<Seq<char>, Seq<u8>>,
    acid: Seq<char>,
    now: u64,
) -> Result<(bool, Map<Seq<char>, Seq<u8>>), EngineError> {
    if !acid_format_ok(acid) {
        Err(EngineError::InvalidAcidFormat)
    } else {
        Ok(
            (
                acid_allow_list().contains(acid),
                m.insert(acid, acid_validation_bytes(acid_record(acid, now))),
            ),
        )
    }
}

/// The document with a new status.
pub open spec fn with_document_status(d: DocumentView, s: DocumentStatus) -> DocumentView {
    DocumentView { status: s, ..d }
}

/// The outcome of moving a document from `from` to `to`.
pub open spec fn document_transition(
    m: Map<Seq<char>, Seq<u8>>,
    id: Seq<char>,
    from: DocumentStatus,
    to: DocumentStatus,
) -> Result<Map<Seq<char>, Seq<u8>>, EngineError> {
    match document_in(m, id) {
        Err(e) => Err(e),
        Ok(d) => if d.status != from {
            Err(EngineError::WrongStatus)
        } else if document_bytes(with_document_status(d, to)).len() > DOCUMENT_MAX_SIZE {
            Err(EngineError::TooLarge)
        } else {
            Ok(m.insert(id, document_bytes(with_document_status(d, to))))
        },
    }
}

/// The document that `submit_document` creates.
pub open spec fn submitted_document(
    counters: Map<Seq<char>, u64>,
    acid: Seq<char>,
    tx: Seq<char>,
    value: u64,
    caller: Seq<u8>,
    now: u64,
) -> DocumentView {
    DocumentView {
        id: id_text(document_prefix(), (counter_value(counters, document_counter()) + 1) as nat),
        acid_number: acid,
        ethereum_tx_hash: tx,
        value_usd: value,
        status: DocumentStatus::Pending,
        created_at: now,
        owner: caller,
    }
}

/// Interest rate of new loans, in basis points.
pub const LOAN_INTEREST_BPS: u64 = 450;

/// The largest loan a document of the given value backs: 80%, rounded down.
pub open spec fn loan_cap(value: u64) -> int {
    (value as int * 80) / 100
}

/// The loan stored under `id`, or why there is none.
pub open spec fn loan_in(m: Map<Seq<char>, Seq<u8>>, id: Seq<char>) -> Result<LoanView, EngineError> {
    if !m.contains_key(id) {
        Err(EngineError::NotFound)
    } else {
        match parse_loan(m[id]) {
            Ok(l) => Ok(l),
            Err(e) => Err(EngineError::Corrupt(e)),
        }
    }
}

/// The loan with a new status.
pub open spec fn with_loan_status(l: LoanView, s: LoanStatus) -> LoanView {
    LoanView { status: s, ..l }
}

/// The outcome of moving a loan from `from` to `to`.
pub open spec fn loan_transition(
    m: Map<Seq<char>, Seq<u8>>,
    id: Seq<char>,
    from: LoanStatus,
    to: LoanStatus,
) -> Result<Map<Seq<char>, Seq<u8>>, EngineError> {
    match loan_in(m, id) {
        Err(e) => Err(e),
        Ok(l) => if l.status != from {
            Err(EngineError::WrongStatus)
        } else if loan_bytes(with_loan_status(l, to)).len() > LOAN_MAX_SIZE {
            Err(EngineError::TooLarge)
        } else {
            Ok(m.insert(id, loan_bytes(with_loan_status(l, to))))
        },
    }
}

/// The loan that `request_loan` creates.
pub open spec fn requested_loan(
    counters: Map<Seq<char>, u64>,
    document_id: Seq<char>,
    amount: u64,
    repayment_date: u64,
    caller: Seq<u8>,
    now: u64,
) -> LoanView {
    LoanView {
        id: id_text(loan_prefix(), (counter_value(counters, loan_counter()) + 1) as nat),
        document_id,
        amount,
        interest_rate: LOAN_INTEREST_BPS,
        status: LoanStatus::Pending,
        created_at: now,
        borrower: caller,
        repayment_date,
        repaid: 0,
        transfer_block_height: None,
    }
}

/// The outcome of requesting a loan: the new loan, or why there is none.
pub open spec fn request_loan_outcome(
    documents: Map<Seq<char>, Seq<u8>>,
    loans: Map<Seq<char>, Seq<u8>>,
    counters: Map<Seq<char>, u64>,
    document_id: Seq<char>,
    amount: u64,
    repayment_date: u64,
    caller: Seq<u8>,
    now: u64,
) -> Result<LoanView, EngineError> {
    match document_in(documents, document_id) {
        Err(e) => Err(e),
        Ok(d) => {
            let l = requested_loan(counters, document_id, amount, repayment_date, caller, now);
            if d.status != DocumentStatus::NftMinted {
                Err(EngineError::WrongStatus)
            } else if amount > loan_cap(d.value_usd) {
                Err(EngineError::ExceedsLoanCap)
            } else if !text_ok(document_id) {
                Err(EngineError::InvalidText)
            } else if counter_value(counters, loan_counter()) == u64::MAX {
                Err(EngineError::IdsExhausted)
            } else if loans.contains_key(l.id) {
                Err(EngineError::IdInUse)
            } else if loan_bytes(l).len() > LOAN_MAX_SIZE {
                Err(EngineError::TooLarge)
            } else {
                Ok(l)
            }
        },
    }
}

/// The memo of a loan's payout transfer.
pub open spec fn loan_memo(id: Seq<char>) -> Seq<u8> {
    encode_utf8("Loan approval: "@) + encode_utf8(id)
}

/// The first half of a loan approval: the pending loan is marked as waiting
/// for its transfer, which the result describes.
pub open spec fn begin_approval_outcome(loans: Map<Seq<char>, Seq<u8>>, id: Seq<char>) -> Result<
    (LoanView, Map<Seq<char>, Seq<u8>>),
    EngineError,
> {
    match loan_in(loans, id) {
        Err(e) => Err(e),
        Ok(l) => if l.status != LoanStatus::Pending {
            Err(EngineError::WrongStatus)
        } else if l.amount * TOKENS_PER_USD > u64::MAX {
            Err(EngineError::AmountTooLarge)
        } else if loan_bytes(paid_out(l, 0)).len() > LOAN_MAX_SIZE {
            Err(EngineError::TooLarge)
        } else {
            match loan_transition(loans, id, LoanStatus::Pending, LoanStatus::TransferPending) {
                Ok(m) => Ok((l, m)),
                Err(e) => Err(e),
            }
        },
    }
}

/// What approving a loan and paying it out through the local ledger does:
/// the maps before, the maps after, and the result `r`. When the treasury
/// can pay, the loan becomes active with the ledger's next block; otherwise
/// it is marked as failed and no balance changes.
pub open spec fn approval_made(
    loans: Map<Seq<char>, Seq<u8>>,
    balances: Map<Seq<u8>, u64>,
    counters: Map<Seq<char>, u64>,
    new_loans: Map<Seq<char>, Seq<u8>>,
    new_balances: Map<Seq<u8>, u64>,
    new_counters: Map<Seq<char>, u64>,
    id: Seq<char>,
    treasury: Seq<u8>,
    r: Result<(), EngineError>,
) -> bool {
    match begin_approval_outcome(loans, id) {
        Err(e) => r == Err::<(), EngineError>(e) && new_loans == loans && new_balances == balances
            && new_counters == counters,
        Ok((l, _)) => {
            let tokens = l.amount * TOKENS_PER_USD;
            let debit = tokens + TRANSFER_FEE;
            let blocks = counter_value(counters, block_counter());
            if debit <= u64::MAX && balance_in(balances, treasury) >= debit && payout_fits(
                balances,
                treasury,
                l.borrower,
                debit as u64,
                tokens as u64,
            ) && blocks < u64::MAX {
                &&& r is Ok
                &&& new_loans == loans.insert(id, loan_bytes(paid_out(l, (blocks + 1) as u64)))
                &&& new_balances == paid_from(
                    balances,
                    treasury,
                    l.borrower,
                    debit as u64,
                    tokens as u64,
                )
                &&& new_counters == counters.insert(block_counter(), (blocks + 1) as u64)
            } else {
                &&& r == Err::<(), EngineError>(EngineError::TransferFailed)
                &&& new_loans == loans.insert(
                    id,
                    loan_bytes(with_loan_status(l, LoanStatus::TransferFailed)),
                )
                &&& new_balances == balances
                &&& new_counters == counters
            }
        },
    }
}

/// The loan after a repayment of `amount`: the total repaid grows (held at
/// the largest `u64`), and the loan is repaid once the total reaches its amount.
pub open spec fn after_repayment(l: LoanView, amount: u64) -> LoanView {
    LoanView {
        repaid: if l.repaid + amount > u64::MAX {
            u64::MAX
        } else {
            (l.repaid + amount) as u64
        },
        status: if l.repaid + amount >= l.amount {
            LoanStatus::Repaid
        } else {
            l.status
        },
        ..l
    }
}

/// The loan once its transfer has succeeded with the given block.
pub open spec fn paid_out(l: LoanView, block: u64) -> LoanView {
    LoanView { status: LoanStatus::Active, transfer_block_height: Some(block), ..l }
}

/// The second half of a loan approval: the loan waiting for its transfer
/// becomes active with the block of a successful transfer, or failed.
pub open spec fn finish_approval_outcome(
    loans: Map<Seq<char>, Seq<u8>>,
    id: Seq<char>,
    block: Option<u64>,
) -> Result<Map<Seq<char>, Seq<u8>>, EngineError> {
    match loan_in(loans, id) {
        Err(e) => Err(e),
        Ok(l) => if l.status != LoanStatus::TransferPending {
            Err(EngineError::WrongStatus)
        } else {
            match block {
                Some(b) => if loan_bytes(paid_out(l, b)).len() > LOAN_MAX_SIZE {
                    Err(EngineError::TooLarge)
                } else {
                    Ok(loans.insert(id, loan_bytes(paid_out(l, b))))
                },
                None => loan_transition(
                    loans,
                    id,
                    LoanStatus::TransferPending,
                    LoanStatus::TransferFailed,
                ),
            }
        },
    }
}

/// The mapping stored under an asset hash, or why there is none.
pub open spec fn mapping_in(m: Map<Seq<char>, Seq<u8>>, hash: Seq<char>) -> Result<
    CargoXMappingView,
    EngineError,
> {
    if !m.contains_key(hash) {
        Err(EngineError::NotFound)
    } else {
        match parse_mapping(m[hash]) {
            Ok(v) => Ok(v),
            Err(e) => Err(EngineError::Corrupt(e)),
        }
    }
}

/// The verification stored under an asset hash, or why there is none.
pub open spec fn verification_in(m: Map<Seq<char>, Seq<u8>>, hash: Seq<char>) -> Result<
    CustomsVerificationView,
    EngineError,
> {
    if !m.contains_key(hash) {
        Err(EngineError::NotFound)
    } else {
        match parse_verification(m[hash]) {
            Ok(v) => Ok(v),
            Err(e) => Err(EngineError::Corrupt(e)),
        }
    }
}

/// The mapping that linking an asset hash creates.
pub open spec fn linked_mapping(
    counters: Map<Seq<char>, u64>,
    hash: Seq<char>,
    acid: Seq<char>,
    caller: Seq<u8>,
    now: u64,
) -> CargoXMappingView {
    CargoXMappingView {
        id: id_text(mapping_prefix(), (counter_value(counters, mapping_counter()) + 1) as nat),
        nft_hash: hash,
        acid_number: acid,
        verified: false,
        created_at: now,
        owner: caller,
        customs_entry_id: None,
    }
}

/// The verification that linking an asset hash creates.
pub open spec fn linked_verification(
    counters: Map<Seq<char>, u64>,
    hash: Seq<char>,
    acid: Seq<char>,
    now: u64,
) -> CustomsVerificationView {
    CustomsVerificationView {
        id: id_text(
            verification_prefix(),
            (counter_value(counters, verification_counter()) + 1) as nat,
        ),
        nft_hash: hash,
        acid_number: acid,
        verification_status: CustomsStatus::Pending,
        verified_at: None,
        customs_data: None,
        created_at: now,
        verified_by: None,
    }
}

/// Whether the document under `key` is pending and refers to the asset hash.
pub open spec fn pending_document_for(m: Map<Seq<char>, Seq<u8>>, key: Seq<char>, hash: Seq<char>) -> bool {
    document_in(m, key) matches Ok(d) && d.ethereum_tx_hash == hash && d.status
        == DocumentStatus::Pending
}

/// The documents after a customs decision is cascaded to the pending
/// document, if any, that refers to the asset hash.
pub open spec fn cascaded(
    before: Map<Seq<char>, Seq<u8>>,
    after: Map<Seq<char>, Seq<u8>>,
    hash: Seq<char>,
    to: DocumentStatus,
) -> bool {
    ||| (after == before && forall|k: Seq<char>| !pending_document_for(before, k, hash))
    ||| exists|k: Seq<char>|
        pending_document_for(before, k, hash) && after == before.insert(
            k,
            document_bytes(with_document_status(document_in(before, k)->Ok_0, to)),
        )
}

/// The note stored with a verified customs entry.
pub open spec fn verified_note() -> Seq<char> {
    "Customs entry verified manually"@
}

/// The note stored with a rejected customs entry.
pub open spec fn rejected_note(reason: Seq<char>) -> Seq<char> {
    "Rejected: "@ + reason
}

/// The customs verification once decided.
pub open spec fn decided(
    v: CustomsVerificationView,
    s: CustomsStatus,
    note: Seq<char>,
    by: Seq<u8>,
    now: u64,
) -> CustomsVerificationView {
    CustomsVerificationView {
        verification_status: s,
        verified_at: Some(now),
        verified_by: Some(by),
        customs_data: Some(note),
        ..v
    }
}

/// What deciding the customs entry of an asset hash does: `r` is the
/// result, the maps are those before and after.
pub open spec fn decision_made(
    verifications: Map<Seq<char>, Seq<u8>>,
    documents: Map<Seq<char>, Seq<u8>>,
    new_verifications: Map<Seq<char>, Seq<u8>>,
    new_documents: Map<Seq<char>, Seq<u8>>,
    nft_hash: Seq<char>,
    status: CustomsStatus,
    note: Seq<char>,
    document_status: DocumentStatus,
    caller: Seq<u8>,
    now: u64,
    r: Result<(), EngineError>,
) -> bool {
    &&& match verification_in(verifications, nft_hash) {
        Err(e) => r == Err::<(), EngineError>(e),
        Ok(v) => if v.verification_status != CustomsStatus::Pending {
            r == Err::<(), EngineError>(EngineError::WrongStatus)
        } else if verification_bytes(decided(v, status, note, caller, now)).len()
            > VERIFICATION_MAX_SIZE {
            r == Err::<(), EngineError>(EngineError::TooLarge)
        } else {
            &&& r is Err ==> r == Err::<(), EngineError>(EngineError::TooLarge) && exists|
                k: Seq<char>,
            |
                pending_document_for(documents, k, nft_hash) && document_bytes(
                    with_document_status(document_in(documents, k)->Ok_0, document_status),
                ).len() > DOCUMENT_MAX_SIZE
            &&& r is Ok ==> new_verifications == verifications.insert(
                nft_hash,
                verification_bytes(decided(v, status, note, caller, now)),
            ) && cascaded(documents, new_documents, nft_hash, document_status)
        },
    }
    &&& r is Err ==> new_verifications == verifications && new_documents == documents
}

/// The outcome of a lookup by key.
pub open spec fn looked_up<V, T: View<V = V>>(
    m: Map<Seq<char>, Seq<u8>>,
    decode: spec_fn(Seq<u8>) -> Result<V, DecodeError>,
    key: Seq<char>,
    r: Result<Option<T>, DecodeError>,
) -> bool {
    if !m.contains_key(key) {
        r matches Ok(None)
    } else {
        match decode(m[key]) {
            Ok(v) => r matches Ok(Some(t)) && t@ == v,
            Err(e) => r == Err::<Option<T>, DecodeError>(e),
        }
    }
}

/// How many of the keys `ks` hold a verification in the given status.
pub open spec fn status_count(m: Map<Seq<char>, Seq<u8>>, ks: Seq<Seq<char>>, s: CustomsStatus) -> nat
    decreases ks.len(),
{
    if ks.len() == 0 {
        0
    } else {
        status_count(m, ks.drop_last(), s) + if parse_verification(m[ks.last()]) matches Ok(v)
            && v.verification_status == s {
            1nat
        } else {
            0nat
        }
    }
}

/// The keys `ks` are every key of `m`, each once.
pub open spec fn enumerates(m: Map<Seq<char>, Seq<u8>>, ks: Seq<Seq<char>>) -> bool {
    &&& ks.no_duplicates()
    &&& forall|k: Seq<char>| m.contains_key(k) <==> ks.contains(k)
}

/// The outcome of making a document available for lending.
pub open spec fn trigger_outcome(m: Map<Seq<char>, Seq<u8>>, id: Seq<char>) -> Result<
    Map<Seq<char>, Seq<u8>>,
    EngineError,
> {
    match document_in(m, id) {
        Err(e) => Err(e),
        Ok(d) => if d.status == DocumentStatus::NftMinted {
            Ok(m)
        } else {
            document_transition(m, id, DocumentStatus::Verified, DocumentStatus::NftMinted)
        },
    }
}

/// The documents after triggering lending for each id in turn.
pub open spec fn batch_documents(m: Map<Seq<char>, Seq<u8>>, ids: Seq<Seq<char>>) -> Map<
    Seq<char>,
    Seq<u8>,
>
    decreases ids.len(),
{
    if ids.len() == 0 {
        m
    } else {
        let prev = batch_documents(m, ids.drop_last());
        match trigger_outcome(prev, ids.last()) {
            Ok(next) => next,
            Err(_) => prev,
        }
    }
}

/// The ids for which triggering lending failed in turn, with the reasons.
pub open spec fn batch_failures(m: Map<Seq<char>, Seq<u8>>, ids: Seq<Seq<char>>) -> Seq<
    (Seq<char>, EngineError),
>
    decreases ids.len(),
{
    if ids.len() == 0 {
        Seq::empty()
    } else {
        let prev = batch_failures(m, ids.drop_last());
        match trigger_outcome(batch_documents(m, ids.drop_last()), ids.last()) {
            Ok(_) => prev,
            Err(e) => prev.push((ids.last(), e)),
        }
    }
}

/// The decodable records under the keys `ks`, in the order of `ks`, that `keep` accepts.
pub open spec fn documents_where(
    m: Map<Seq<char>, Seq<u8>>,
    ks: Seq<Seq<char>>,
    keep: spec_fn(DocumentView) -> bool,
) -> Seq<DocumentView>
    decreases ks.len(),
{
    if ks.len() == 0 {
        Seq::empty()
    } else {
        let prev = documents_where(m, ks.drop_last(), keep);
        match parse_document(m[ks.last()]) {
            Ok(v) => if keep(v) {
                prev.push(v)
            } else {
                prev
            },
            Err(_) => prev,
        }
    }
}

/// The decodable records under the keys `ks`, in the order of `ks`, that `keep` accepts.
pub open spec fn loans_where(
    m: Map<Seq<char>, Seq<u8>>,
    ks: Seq<Seq<char>>,
    keep: spec_fn(LoanView) -> bool,
) -> Seq<LoanView>
    decreases ks.len(),
{
    if ks.len() == 0 {
        Seq::empty()
    } else {
        let prev = loans_where(m, ks.drop_last(), keep);
        match parse_loan(m[ks.last()]) {
            Ok(v) => if keep(v) {
                prev.push(v)
            } else {
                prev
            },
            Err(_) => prev,
        }
    }
}

/// The decodable records under the keys `ks`, in the order of `ks`, that `keep` accepts.
pub open spec fn mappings_where(
    m: Map<Seq<char>, Seq<u8>>,
    ks: Seq<Seq<char>>,
    keep: spec_fn(CargoXMappingView) -> bool,
) -> Seq<CargoXMappingView>
    decreases ks.len(),
{
    if ks.len() == 0 {
        Seq::empty()
    } else {
        let prev = mappings_where(m, ks.drop_last(), keep);
        match parse_mapping(m[ks.last()]) {
            Ok(v) => if keep(v) {
                prev.push(v)
            } else {
                prev
            },
            Err(_) => prev,
        }
    }
}

/// The decodable records under the keys `ks`, in the order of `ks`, that `keep` accepts.
pub open spec fn verifications_where(
    m: Map<Seq<char>, Seq<u8>>,
    ks: Seq<Seq<char>>,
    keep: spec_fn(CustomsVerificationView) -> bool,
) -> Seq<CustomsVerificationView>
    decreases ks.len(),
{
    if ks.len() == 0 {
        Seq::empty()
    } else {
        let prev = verifications_where(m, ks.drop_last(), keep);
        match parse_verification(m[ks.last()]) {
            Ok(v) => if keep(v) {
                prev.push(v)
            } else {
                prev
            },
            Err(_) => prev,
        }
    }
}

proof fn lemma_ascii_len(s: Seq<char>)
    requires
        is_ascii_chars(s),
    ensures
        encode_utf8(s).len() == s.len(),
{
    is_ascii_chars_encode_utf8(s);
}

proof fn lemma_acid_record_fits(acid: Seq<char>, now: u64)
    requires
        acid_format_ok(acid),
    ensures
        acid_validation_bytes(acid_record(acid, now)).len() <= ACID_VALIDATION_MAX_SIZE,
{
    lemma_ascii_len(acid);
    reveal_strlit("Simulated customs data");
    lemma_ascii_len(simulated_customs_note());
    crate::codec::lemma_u64_field_len(now);
}

impl Engine {
    /// Opens every collection in its partition of the durable memory region.
    pub fn init() -> (r: Engine) {
        let region = MemoryRegion::init();
        Engine {
            documents: region.open_records(DOCUMENTS_PARTITION),
            loans: region.open_records(LOANS_PARTITION),
            acid_validations: region.open_records(ACID_VALIDATIONS_PARTITION),
            balances: region.open_balances(BALANCES_PARTITION),
            mappings: region.open_records(MAPPINGS_PARTITION),
            verifications: region.open_records(VERIFICATIONS_PARTITION),
            counters: region.open_counters(COUNTERS_PARTITION),
        }
    }

    /// Checks an ACID number against the allow-list and records the outcome,
    /// whatever it is, under the number.
    pub fn validate_acid(&mut self, acid_number: &str, now: u64) -> (r: Result<bool, EngineError>)
        ensures
            match validate_acid_outcome(old(self).acid_validations@, acid_number@, now) {
                Ok((v, m)) => r == Ok::<bool, EngineError>(v) && final(self).acid_validations@ == m,
                Err(e) => r == Err::<bool, EngineError>(e) && final(self).acid_validations@ == old(
                    self,
                ).acid_validations@,
            },
            final(self).documents@ == old(self).documents@,
            final(self).loans@ == old(self).loans@,
            final(self).balances@ == old(self).balances@,
            final(self).mappings@ == old(self).mappings@,
            final(self).verifications@ == old(self).verifications@,
            final(self).counters@ == old(self).counters@,
    {
        if !is_acid_format(acid_number) {
            return Err(EngineError::InvalidAcidFormat);
        }
        let is_valid = is_acid_in_static_dataset(acid_number);
        let customs_data = if is_valid {
            Some(String::from_str("Simulated customs data"))
        } else {
            None
        };
        let validation = AcidValidation {
            acid_number: String::from_str(acid_number),
            is_valid,
            customs_data,
            validation_date: now,
        };
        proof {
            lemma_acid_record_fits(acid_number@, now);
            assert(validation@ == acid_record(acid_number@, now));
        }
        let bytes = match validation.to_bytes() {
            Ok(b) => b,
            Err(_) => return Err(EngineError::TooLarge),
        };
        self.acid_validations.insert(String::from_str(acid_number), bytes);
        Ok(is_valid)
    }

    fn load_document(&self, id: &String) -> (r: Result<Document, EngineError>)
        ensures
            match document_in(self.documents@, id@) {
                Ok(d) => r is Ok && r->Ok_0@ == d,
                Err(e) => r == Err::<Document, EngineError>(e),
            },
    {
        match self.documents.get(id) {
            None => Err(EngineError::NotFound),
            Some(bytes) => match Document::from_bytes(bytes.as_slice()) {
                Ok(d) => Ok(d),
                Err(e) => Err(EngineError::Corrupt(e)),
            },
        }
    }

    /// Moves a document from one status to another, if it is in the first.
    fn move_document(&mut self, document_id: &String, from: DocumentStatus, to: DocumentStatus) -> (r:
        Result<(), EngineError>)
        ensures
            match document_transition(old(self).documents@, document_id@, from, to) {
                Ok(m) => r is Ok && final(self).documents@ == m,
                Err(e) => r == Err::<(), EngineError>(e) && final(self).documents@ == old(
                    self,
                ).documents@,
            },
            final(self).loans@ == old(self).loans@,
            final(self).acid_validations@ == old(self).acid_validations@,
            final(self).balances@ == old(self).balances@,
            final(self).mappings@ == old(self).mappings@,
            final(self).verifications@ == old(self).verifications@,
            final(self).counters@ == old(self).counters@,
    {
        let mut document = match self.load_document(document_id) {
            Ok(d) => d,
            Err(e) => return Err(e),
        };
        if document.status != from {
            return Err(EngineError::WrongStatus);
        }
        document.status = to;
        let bytes = match document.to_bytes() {
            Ok(b) => b,
            Err(_) => return Err(EngineError::TooLarge),
        };
        self.documents.insert(document_id.clone(), bytes);
        Ok(())
    }

    /// Approves a pending document, which mints its NFT. Any caller may.
    pub fn approve_document(&mut self, document_id: &String) -> (r: Result<(), EngineError>)
        ensures
            match document_transition(
                old(self).documents@,
                document_id@,
                DocumentStatus::Pending,
                DocumentStatus::NftMinted,
            ) {
                Ok(m) => r is Ok && final(self).documents@ == m,
                Err(e) => r == Err::<(), EngineError>(e) && final(self).documents@ == old(
                    self,
                ).documents@,
            },
            final(self).loans@ == old(self).loans@,
            final(self).acid_validations@ == old(self).acid_validations@,
            final(self).balances@ == old(self).balances@,
            final(self).mappings@ == old(self).mappings@,
            final(self).verifications@ == old(self).verifications@,
            final(self).counters@ == old(self).counters@,
    {
        self.move_document(document_id, DocumentStatus::Pending, DocumentStatus::NftMinted)
    }

    /// Rejects a pending document; only its owner may.
    pub fn reject_document(&mut self, document_id: &String, caller: &Identity) -> (r: Result<
        (),
        EngineError,
    >)
        ensures
            match document_in(old(self).documents@, document_id@) {
                Err(e) => r == Err::<(), EngineError>(e),
                Ok(d) => if d.owner != caller@ {
                    r == Err::<(), EngineError>(EngineError::NotOwner)
                } else {
                    match document_transition(
                        old(self).documents@,
                        document_id@,
                        DocumentStatus::Pending,
                        DocumentStatus::Rejected,
                    ) {
                        Ok(m) => r is Ok && final(self).documents@ == m,
                        Err(e) => r == Err::<(), EngineError>(e),
                    }
                },
            },
            r is Err ==> final(self).documents@ == old(self).documents@,
            final(self).loans@ == old(self).loans@,
            final(self).acid_validations@ == old(self).acid_validations@,
            final(self).balances@ == old(self).balances@,
            final(self).mappings@ == old(self).mappings@,
            final(self).verifications@ == old(self).verifications@,
            final(self).counters@ == old(self).counters@,
    {
        let document = match self.load_document(document_id) {
            Ok(d) => d,
            Err(e) => return Err(e),
        };
        if !document.owner.same_as(caller) {
            return Err(EngineError::NotOwner);
        }
        self.move_document(document_id, DocumentStatus::Pending, DocumentStatus::Rejected)
    }

    /// Makes a verified document available for lending by minting its NFT;
    /// a document whose NFT is minted already is left as it is.
    pub fn trigger_lending(&mut self, document_id: &String) -> (r: Result<(), EngineError>)
        ensures
            match trigger_outcome(old(self).documents@, document_id@) {
                Ok(m) => r is Ok && final(self).documents@ == m,
                Err(e) => r == Err::<(), EngineError>(e) && final(self).documents@ == old(
                    self,
                ).documents@,
            },
            final(self).loans@ == old(self).loans@,
            final(self).acid_validations@ == old(self).acid_validations@,
            final(self).balances@ == old(self).balances@,
            final(self).mappings@ == old(self).mappings@,
            final(self).verifications@ == old(self).verifications@,
            final(self).counters@ == old(self).counters@,
    {
        let document = match self.load_document(document_id) {
            Ok(d) => d,
            Err(e) => return Err(e),
        };
        if document.status == DocumentStatus::NftMinted {
            return Ok(());
        }
        self.move_document(document_id, DocumentStatus::Verified, DocumentStatus::NftMinted)
    }

    /// Submits a document against an allow-listed ACID number; it starts
    /// pending and is owned by the caller. The ACID number's validation is
    /// recorded once its format and the other arguments have been checked.
    pub fn submit_document(
        &mut self,
        acid_number: &String,
        ethereum_tx_hash: &String,
        value_usd: u64,
        caller: &Identity,
        now: u64,
    ) -> (r: Result<String, EngineError>)
        ensures
            ({
                let counters = old(self).counters@;
                let d = submitted_document(
                    counters,
                    acid_number@,
                    ethereum_tx_hash@,
                    value_usd,
                    caller@,
                    now,
                );
                if !acid_format_ok(acid_number@) {
                    r == Err::<String, EngineError>(EngineError::InvalidAcidFormat)
                } else if !text_ok(ethereum_tx_hash@) {
                    r == Err::<String, EngineError>(EngineError::InvalidText)
                } else if counter_value(counters, document_counter()) == u64::MAX {
                    r == Err::<String, EngineError>(EngineError::IdsExhausted)
                } else if old(self).documents@.contains_key(d.id) {
                    r == Err::<String, EngineError>(EngineError::IdInUse)
                } else if document_bytes(d).len() > DOCUMENT_MAX_SIZE {
                    r == Err::<String, EngineError>(EngineError::TooLarge)
                } else {
                    &&& final(self).acid_validations@ == old(self).acid_validations@.insert(
                        acid_number@,
                        acid_validation_bytes(acid_record(acid_number@, now)),
                    )
                    &&& if !acid_allow_list().contains(acid_number@) {
                        &&& r == Err::<String, EngineError>(EngineError::InvalidAcid)
                        &&& final(self).documents@ == old(self).documents@
                        &&& final(self).counters@ == old(self).counters@
                    } else {
                        &&& r is Ok
                        &&& r->Ok_0@ == d.id
                        &&& final(self).documents@ == old(self).documents@.insert(
                            d.id,
                            document_bytes(d),
                        )
                        &&& final(self).counters@ == counters.insert(
                            document_counter(),
                            (counter_value(counters, document_counter()) + 1) as u64,
                        )
                    }
                }
            }),
            r matches Err(e) && e != EngineError::InvalidAcid ==> final(self).acid_validations@ == old(
                self,
            ).acid_validations@,
            r is Err ==> final(self).documents@ == old(self).documents@ && final(self).counters@
                == old(self).counters@,
            final(self).loans@ == old(self).loans@,
            final(self).balances@ == old(self).balances@,
            final(self).mappings@ == old(self).mappings@,
            final(self).verifications@ == old(self).verifications@,
    {
        if !is_acid_format(acid_number.as_str()) {
            return Err(EngineError::InvalidAcidFormat);
        }
        if !is_text_ok(ethereum_tx_hash.as_str()) {
            return Err(EngineError::InvalidText);
        }
        let current = match self.counters.get(&String::from_str("document")) {
            Some(v) => v,
            None => 0,
        };
        proof {
            reveal_strlit("document");
            assert("document"@ =~= document_counter());
            reveal_strlit("DOC-");
            assert("DOC-"@ =~= document_prefix());
        }
        if current == u64::MAX {
            return Err(EngineError::IdsExhausted);
        }
        let candidate = Document {
            id: format_id("DOC-", current + 1),
            acid_number: acid_number.clone(),
            ethereum_tx_hash: ethereum_tx_hash.clone(),
            value_usd,
            status: DocumentStatus::Pending,
            created_at: now,
            owner: caller.copied(),
        };
        if self.documents.contains_key(&candidate.id) {
            return Err(EngineError::IdInUse);
        }
        let bytes = match candidate.to_bytes() {
            Ok(b) => b,
            Err(_) => return Err(EngineError::TooLarge),
        };
        let is_valid = match self.validate_acid(acid_number.as_str(), now) {
            Ok(v) => v,
            Err(e) => return Err(e),
        };
        if !is_valid {
            return Err(EngineError::InvalidAcid);
        }
        let document_id = generate_doc_id(&mut self.counters);
        self.documents.insert(document_id.clone(), bytes);
        Ok(document_id)
    }

    fn load_loan(&self, id: &String) -> (r: Result<Loan, EngineError>)
        ensures
            match loan_in(self.loans@, id@) {
                Ok(l) => r is Ok && r->Ok_0@ == l,
                Err(e) => r == Err::<Loan, EngineError>(e),
            },
    {
        match self.loans.get(id) {
            None => Err(EngineError::NotFound),
            Some(bytes) => match Loan::from_bytes(bytes.as_slice()) {
                Ok(l) => Ok(l),
                Err(e) => Err(EngineError::Corrupt(e)),
            },
        }
    }

    /// Moves a loan from one status to another, if it is in the first.
    fn move_loan(&mut self, loan_id: &String, from: LoanStatus, to: LoanStatus) -> (r: Result<
        (),
        EngineError,
    >)
        ensures
            match loan_transition(old(self).loans@, loan_id@, from, to) {
                Ok(m) => r is Ok && final(self).loans@ == m,
                Err(e) => r == Err::<(), EngineError>(e) && final(self).loans@ == old(self).loans@,
            },
            final(self).documents@ == old(self).documents@,
            final(self).acid_validations@ == old(self).acid_validations@,
            final(self).balances@ == old(self).balances@,
            final(self).mappings@ == old(self).mappings@,
            final(self).verifications@ == old(self).verifications@,
            final(self).counters@ == old(self).counters@,
    {
        let mut loan = match self.load_loan(loan_id) {
            Ok(l) => l,
            Err(e) => return Err(e),
        };
        if loan.status != from {
            return Err(EngineError::WrongStatus);
        }
        loan.status = to;
        let bytes = match loan.to_bytes() {
            Ok(b) => b,
            Err(_) => return Err(EngineError::TooLarge),
        };
        self.loans.insert(loan_id.clone(), bytes);
        Ok(())
    }

    /// Requests a loan against a document whose NFT is minted, for at most
    /// 80% of its value; the loan starts pending and the caller borrows.
    pub fn request_loan(
        &mut self,
        document_id: &String,
        amount: u64,
        repayment_date: u64,
        caller: &Identity,
        now: u64,
    ) -> (r: Result<String, EngineError>)
        ensures
            match request_loan_outcome(
                old(self).documents@,
                old(self).loans@,
                old(self).counters@,
                document_id@,
                amount,
                repayment_date,
                caller@,
                now,
            ) {
                Ok(l) => {
                    &&& r is Ok
                    &&& r->Ok_0@ == l.id
                    &&& final(self).loans@ == old(self).loans@.insert(l.id, loan_bytes(l))
                    &&& final(self).counters@ == old(self).counters@.insert(
                        loan_counter(),
                        (counter_value(old(self).counters@, loan_counter()) + 1) as u64,
                    )
                },
                Err(e) => {
                    &&& r == Err::<String, EngineError>(e)
                    &&& final(self).loans@ == old(self).loans@
                    &&& final(self).counters@ == old(self).counters@
                },
            },
            final(self).documents@ == old(self).documents@,
            final(self).acid_validations@ == old(self).acid_validations@,
            final(self).balances@ == old(self).balances@,
            final(self).mappings@ == old(self).mappings@,
            final(self).verifications@ == old(self).verifications@,
    {
        let document = match self.load_document(document_id) {
            Ok(d) => d,
            Err(e) => return Err(e),
        };
        if document.status != DocumentStatus::NftMinted {
            return Err(EngineError::WrongStatus);
        }
        let v = document.value_usd;
        let cap = (v / 5) * 4 + (v % 5) * 4 / 5;
        proof {
            assert(cap as int == loan_cap(v)) by (nonlinear_arith)
                requires
                    cap as int == (v as int / 5) * 4 + (v as int % 5) * 4 / 5,
            {
            }
        }
        if amount > cap {
            return Err(EngineError::ExceedsLoanCap);
        }
        if !is_text_ok(document_id.as_str()) {
            return Err(EngineError::InvalidText);
        }
        let current = match self.counters.get(&String::from_str("loan")) {
            Some(c) => c,
            None => 0,
        };
        proof {
            reveal_strlit("loan");
            assert("loan"@ =~= loan_counter());
            reveal_strlit("LOAN-");
            assert("LOAN-"@ =~= loan_prefix());
        }
        if current == u64::MAX {
            return Err(EngineError::IdsExhausted);
        }
        let candidate = Loan {
            id: format_id("LOAN-", current + 1),
            document_id: document_id.clone(),
            amount,
            interest_rate: LOAN_INTEREST_BPS,
            status: LoanStatus::Pending,
            created_at: now,
            borrower: caller.copied(),
            repayment_date,
            repaid: 0,
            transfer_block_height: None,
        };
        if self.loans.contains_key(&candidate.id) {
            return Err(EngineError::IdInUse);
        }
        let bytes = match candidate.to_bytes() {
            Ok(b) => b,
            Err(_) => return Err(EngineError::TooLarge),
        };
        let loan_id = generate_loan_id(&mut self.counters);
        self.loans.insert(loan_id.clone(), bytes);
        Ok(loan_id)
    }

    /// Starts approving a pending loan: it is marked as waiting for its
    /// transfer, durably and visibly, and the transfer to pay it out is
    /// returned for the ledger.
    pub fn begin_loan_approval(&mut self, loan_id: &String, now: u64) -> (r: Result<
        TransferArgs,
        EngineError,
    >)
        ensures
            match begin_approval_outcome(old(self).loans@, loan_id@) {
                Ok((l, m)) => {
                    &&& r is Ok
                    &&& final(self).loans@ == m
                    &&& r->Ok_0.to.owner@ == l.borrower
                    &&& r->Ok_0.to.subaccount is None
                    &&& r->Ok_0.from_subaccount is None
                    &&& r->Ok_0.amount == l.amount * TOKENS_PER_USD
                    &&& r->Ok_0.fee == Some(TRANSFER_FEE)
                    &&& r->Ok_0.memo matches Some(memo) && memo@ == loan_memo(loan_id@)
                    &&& r->Ok_0.created_at_time == Some(now)
                },
                Err(e) => r is Err && r->Err_0 == e && final(self).loans@ == old(self).loans@,
            },
            final(self).documents@ == old(self).documents@,
            final(self).acid_validations@ == old(self).acid_validations@,
            final(self).balances@ == old(self).balances@,
            final(self).mappings@ == old(self).mappings@,
            final(self).verifications@ == old(self).verifications@,
            final(self).counters@ == old(self).counters@,
    {
        let mut loan = match self.load_loan(loan_id) {
            Ok(l) => l,
            Err(e) => return Err(e),
        };
        if loan.status != LoanStatus::Pending {
            return Err(EngineError::WrongStatus);
        }
        if loan.amount > u64::MAX / TOKENS_PER_USD {
            return Err(EngineError::AmountTooLarge);
        }
        let ghost pending = loan@;
        loan.status = LoanStatus::Active;
        loan.transfer_block_height = Some(0);
        match loan.to_bytes() {
            Ok(_) => {},
            Err(_) => return Err(EngineError::TooLarge),
        }
        proof {
            assert(loan@ == paid_out(pending, 0));
        }
        match self.move_loan(loan_id, LoanStatus::Pending, LoanStatus::TransferPending) {
            Ok(()) => {},
            Err(e) => return Err(e),
        }
        let mut memo = vstd::slice::slice_to_vec("Loan approval: ".as_bytes());
        let mut id_bytes = vstd::slice::slice_to_vec(loan_id.as_str().as_bytes());
        memo.append(&mut id_bytes);
        Ok(
            TransferArgs {
                from_subaccount: None,
                to: Account { owner: loan.borrower, subaccount: None },
                amount: usd_to_tokens(loan.amount),
                fee: Some(TRANSFER_FEE),
                memo: Some(memo),
                created_at_time: Some(now),
            },
        )
    }

    /// Completes a loan approval with the transfer's outcome: the loan
    /// becomes active and records the block, or is marked as failed and can
    /// be retried.
    pub fn finish_loan_approval(
        &mut self,
        loan_id: &String,
        outcome: &Result<u64, TransferError>,
    ) -> (r: Result<(), EngineError>)
        ensures
            match finish_approval_outcome(
                old(self).loans@,
                loan_id@,
                match outcome {
                    Ok(b) => Some(*b),
                    Err(_) => None,
                },
            ) {
                Ok(m) => final(self).loans@ == m && if outcome is Ok {
                    r is Ok
                } else {
                    r == Err::<(), EngineError>(EngineError::TransferFailed)
                },
                Err(e) => r == Err::<(), EngineError>(e) && final(self).loans@ == old(self).loans@,
            },
            final(self).documents@ == old(self).documents@,
            final(self).acid_validations@ == old(self).acid_validations@,
            final(self).balances@ == old(self).balances@,
            final(self).mappings@ == old(self).mappings@,
            final(self).verifications@ == old(self).verifications@,
            final(self).counters@ == old(self).counters@,
    {
        let mut loan = match self.load_loan(loan_id) {
            Ok(l) => l,
            Err(e) => return Err(e),
        };
        if loan.status != LoanStatus::TransferPending {
            return Err(EngineError::WrongStatus);
        }
        match outcome {
            Ok(block) => {
                loan.status = LoanStatus::Active;
                loan.transfer_block_height = Some(*block);
                let bytes = match loan.to_bytes() {
                    Ok(b) => b,
                    Err(_) => return Err(EngineError::TooLarge),
                };
                self.loans.insert(loan_id.clone(), bytes);
                Ok(())
            },
            Err(_) => {
                match self.move_loan(loan_id, LoanStatus::TransferPending, LoanStatus::TransferFailed) {
                    Ok(()) => Err(EngineError::TransferFailed),
                    Err(e) => Err(e),
                }
            },
        }
    }

    /// Approves a pending loan and pays it out from the treasury through the
    /// local ledger: the loan becomes active, or is marked as failed when the
    /// ledger refuses the transfer.
    pub fn approve_loan(&mut self, loan_id: &String, treasury: &Identity, now: u64) -> (r: Result<
        (),
        EngineError,
    >)
        ensures
            approval_made(
                old(self).loans@,
                old(self).balances@,
                old(self).counters@,
                final(self).loans@,
                final(self).balances@,
                final(self).counters@,
                loan_id@,
                treasury@,
                r,
            ),
            final(self).documents@ == old(self).documents@,
            final(self).acid_validations@ == old(self).acid_validations@,
            final(self).mappings@ == old(self).mappings@,
            final(self).verifications@ == old(self).verifications@,
    {
        let args = match self.begin_loan_approval(loan_id, now) {
            Ok(a) => a,
            Err(e) => return Err(e),
        };
        let outcome = icrc1_transfer(&mut self.balances, &mut self.counters, treasury, &args);
        proof {
            lemma_pending_loan(old(self).loans@, loan_id@);
        }
        self.finish_loan_approval(loan_id, &outcome)
    }

    /// Retries the payout of a loan whose transfer failed: it returns to
    /// pending and is approved again.
    pub fn retry_loan_transfer(&mut self, loan_id: &String, treasury: &Identity, now: u64) -> (r:
        Result<(), EngineError>)
        ensures
            match loan_transition(
                old(self).loans@,
                loan_id@,
                LoanStatus::TransferFailed,
                LoanStatus::Pending,
            ) {
                Err(e) => {
                    &&& r == Err::<(), EngineError>(e)
                    &&& final(self).loans@ == old(self).loans@
                    &&& final(self).balances@ == old(self).balances@
                    &&& final(self).counters@ == old(self).counters@
                },
                Ok(reset) => approval_made(
                    reset,
                    old(self).balances@,
                    old(self).counters@,
                    final(self).loans@,
                    final(self).balances@,
                    final(self).counters@,
                    loan_id@,
                    treasury@,
                    r,
                ),
            },
            final(self).documents@ == old(self).documents@,
            final(self).acid_validations@ == old(self).acid_validations@,
            final(self).mappings@ == old(self).mappings@,
            final(self).verifications@ == old(self).verifications@,
    {
        match self.move_loan(loan_id, LoanStatus::TransferFailed, LoanStatus::Pending) {
            Ok(()) => {},
            Err(e) => return Err(e),
        }
        self.approve_loan(loan_id, treasury, now)
    }

    /// Rejects a pending loan.
    pub fn reject_loan(&mut self, loan_id: &String) -> (r: Result<(), EngineError>)
        ensures
            match loan_transition(old(self).loans@, loan_id@, LoanStatus::Pending, LoanStatus::Rejected) {
                Ok(m) => r is Ok && final(self).loans@ == m,
                Err(e) => r == Err::<(), EngineError>(e) && final(self).loans@ == old(self).loans@,
            },
            final(self).documents@ == old(self).documents@,
            final(self).acid_validations@ == old(self).acid_validations@,
            final(self).balances@ == old(self).balances@,
            final(self).mappings@ == old(self).mappings@,
            final(self).verifications@ == old(self).verifications@,
            final(self).counters@ == old(self).counters@,
    {
        self.move_loan(loan_id, LoanStatus::Pending, LoanStatus::Rejected)
    }
}

/// After the first half of an approval the loan is visibly waiting for its
/// transfer, with every other field as before; the second half then ends it
/// active with the block, or failed.
pub proof fn lemma_pending_loan(loans: Map<Seq<char>, Seq<u8>>, id: Seq<char>)
    requires
        begin_approval_outcome(loans, id) is Ok,
    ensures
        ({
            let (l, m) = begin_approval_outcome(loans, id)->Ok_0;
            &&& loan_in(loans, id) == Ok::<LoanView, EngineError>(l)
            &&& loan_in(m, id) == Ok::<LoanView, EngineError>(
                with_loan_status(l, LoanStatus::TransferPending),
            )
            &&& forall|b: u64|
                #[trigger] finish_approval_outcome(m, id, Some(b)) == Ok::<
                    Map<Seq<char>, Seq<u8>>,
                    EngineError,
                >(loans.insert(id, loan_bytes(paid_out(l, b))))
            &&& finish_approval_outcome(m, id, None) == Ok::<Map<Seq<char>, Seq<u8>>, EngineError>(
                loans.insert(id, loan_bytes(with_loan_status(l, LoanStatus::TransferFailed))),
            )
        }),
{
    let l = loan_in(loans, id)->Ok_0;
    let m = begin_approval_outcome(loans, id)->Ok_0.1;
    let p = with_loan_status(l, LoanStatus::TransferPending);
    lemma_parsed_loan_valid(loans[id]);
    lemma_loan_round_trip(p);
    crate::codec::lemma_u64_field_len(0);
    assert forall|b: u64|
        #[trigger] finish_approval_outcome(m, id, Some(b)) == Ok::<
            Map<Seq<char>, Seq<u8>>,
            EngineError,
        >(loans.insert(id, loan_bytes(paid_out(l, b)))) by {
        crate::codec::lemma_u64_field_len(b);
        assert(paid_out(p, b) == paid_out(l, b));
        assert(loan_bytes(paid_out(l, b)).len() == loan_bytes(paid_out(l, 0)).len());
        assert(m.insert(id, loan_bytes(paid_out(l, b))) =~= loans.insert(
            id,
            loan_bytes(paid_out(l, b)),
        ));
    }
    assert(with_loan_status(p, LoanStatus::TransferFailed) == with_loan_status(
        l,
        LoanStatus::TransferFailed,
    ));
    assert(m.insert(id, loan_bytes(with_loan_status(l, LoanStatus::TransferFailed))) =~= loans.insert(
        id,
        loan_bytes(with_loan_status(l, LoanStatus::TransferFailed)),
    ));
}

/// After an approval, the loan is active with the ledger's block when the
/// approval succeeded, and failed, with no balance changed, when the
/// transfer failed.
pub proof fn lemma_approval_result(
    loans: Map<Seq<char>, Seq<u8>>,
    balances: Map<Seq<u8>, u64>,
    counters: Map<Seq<char>, u64>,
    new_loans: Map<Seq<char>, Seq<u8>>,
    new_balances: Map<Seq<u8>, u64>,
    new_counters: Map<Seq<char>, u64>,
    id: Seq<char>,
    treasury: Seq<u8>,
    r: Result<(), EngineError>,
)
    requires
        approval_made(loans, balances, counters, new_loans, new_balances, new_counters, id, treasury, r),
        begin_approval_outcome(loans, id) is Ok,
    ensures
        r is Ok ==> (loan_in(new_loans, id) matches Ok(l) && l.status == LoanStatus::Active
            && l.transfer_block_height == Some(
            (counter_value(counters, block_counter()) + 1) as u64,
        )),
        r is Err ==> r == Err::<(), EngineError>(EngineError::TransferFailed) && new_balances
            == balances && (loan_in(new_loans, id) matches Ok(l) && l.status
            == LoanStatus::TransferFailed),
{
    let l = loan_in(loans, id)->Ok_0;
    lemma_parsed_loan_valid(loans[id]);
    lemma_loan_round_trip(paid_out(l, (counter_value(counters, block_counter()) + 1) as u64));
    lemma_loan_round_trip(with_loan_status(l, LoanStatus::TransferFailed));
}

/// A failed transfer leaves the loan failed, and a retry starts again from
/// pending only then.
pub proof fn lemma_failed_transfer_retry(loans: Map<Seq<char>, Seq<u8>>, id: Seq<char>)
    requires
        finish_approval_outcome(loans, id, None) is Ok,
    ensures
        loan_in(finish_approval_outcome(loans, id, None)->Ok_0, id) matches Ok(l) && l.status
            == LoanStatus::TransferFailed,
        loan_transition(
            finish_approval_outcome(loans, id, None)->Ok_0,
            id,
            LoanStatus::TransferFailed,
            LoanStatus::Pending,
        ) is Ok,
        loan_transition(loans, id, LoanStatus::TransferFailed, LoanStatus::Pending)
            == Err::<Map<Seq<char>, Seq<u8>>, EngineError>(EngineError::WrongStatus),
{
    let l = loan_in(loans, id)->Ok_0;
    lemma_parsed_loan_valid(loans[id]);
    lemma_loan_round_trip(with_loan_status(l, LoanStatus::TransferFailed));
    lemma_loan_round_trip(with_loan_status(l, LoanStatus::Pending));
}

/// A successful transfer leaves the loan active with the transfer's block.
pub proof fn lemma_successful_transfer(loans: Map<Seq<char>, Seq<u8>>, id: Seq<char>, block: u64)
    requires
        finish_approval_outcome(loans, id, Some(block)) is Ok,
    ensures
        loan_in(finish_approval_outcome(loans, id, Some(block))->Ok_0, id) matches Ok(l) && l.status
            == LoanStatus::Active && l.transfer_block_height == Some(block),
{
    let l = loan_in(loans, id)->Ok_0;
    lemma_parsed_loan_valid(loans[id]);
    lemma_loan_round_trip(paid_out(l, block));
}

/// A loan request for more than 80% of the document's value is refused;
/// one for exactly the cap passes the cap check, and any amount up to the
/// cap is granted as a pending loan when the id and size checks pass.
pub proof fn lemma_loan_cap(
    documents: Map<Seq<char>, Seq<u8>>,
    loans: Map<Seq<char>, Seq<u8>>,
    counters: Map<Seq<char>, u64>,
    document_id: Seq<char>,
    amount: u64,
    repayment_date: u64,
    caller: Seq<u8>,
    now: u64,
)
    requires
        document_in(documents, document_id) matches Ok(d) && d.status == DocumentStatus::NftMinted,
    ensures
        amount > loan_cap(document_in(documents, document_id)->Ok_0.value_usd) ==> request_loan_outcome(
            documents,
            loans,
            counters,
            document_id,
            amount,
            repayment_date,
            caller,
            now,
        ) == Err::<LoanView, EngineError>(EngineError::ExceedsLoanCap),
        amount == loan_cap(document_in(documents, document_id)->Ok_0.value_usd) ==> request_loan_outcome(
            documents,
            loans,
            counters,
            document_id,
            amount,
            repayment_date,
            caller,
            now,
        ) != Err::<LoanView, EngineError>(EngineError::ExceedsLoanCap),
        ({
            let l = requested_loan(counters, document_id, amount, repayment_date, caller, now);
            amount <= loan_cap(document_in(documents, document_id)->Ok_0.value_usd) && text_ok(
                document_id,
            ) && counter_value(counters, loan_counter()) < u64::MAX && !loans.contains_key(l.id)
                && loan_bytes(l).len() <= LOAN_MAX_SIZE ==> request_loan_outcome(
                documents,
                loans,
                counters,
                document_id,
                amount,
                repayment_date,
                caller,
                now,
            ) == Ok::<LoanView, EngineError>(l) && l.amount == amount && l.status
                == LoanStatus::Pending
        }),
{
}

impl Engine {
    fn load_mapping(&self, hash: &String) -> (r: Result<CargoXMapping, EngineError>)
        ensures
            match mapping_in(self.mappings@, hash@) {
                Ok(v) => r is Ok && r->Ok_0@ == v,
                Err(e) => r == Err::<CargoXMapping, EngineError>(e),
            },
    {
        match self.mappings.get(hash) {
            None => Err(EngineError::NotFound),
            Some(bytes) => match CargoXMapping::from_bytes(bytes.as_slice()) {
                Ok(v) => Ok(v),
                Err(e) => Err(EngineError::Corrupt(e)),
            },
        }
    }

    fn load_verification(&self, hash: &String) -> (r: Result<CustomsVerification, EngineError>)
        ensures
            match verification_in(self.verifications@, hash@) {
                Ok(v) => r is Ok && r->Ok_0@ == v,
                Err(e) => r == Err::<CustomsVerification, EngineError>(e),
            },
    {
        match self.verifications.get(hash) {
            None => Err(EngineError::NotFound),
            Some(bytes) => match CustomsVerification::from_bytes(bytes.as_slice()) {
                Ok(v) => Ok(v),
                Err(e) => Err(EngineError::Corrupt(e)),
            },
        }
    }

    /// The key and record of a pending document that refers to the asset hash.
    fn find_pending_document(&self, hash: &String) -> (r: Option<(String, Document)>)
        ensures
            r matches Some((k, d)) ==> pending_document_for(self.documents@, k@, hash@)
                && document_in(self.documents@, k@) == Ok::<DocumentView, EngineError>(d@),
            r is None ==> forall|k: Seq<char>| !pending_document_for(self.documents@, k, hash@),
    {
        let keys = self.documents.keys();
        let mut i: usize = 0;
        while i < keys.len()
            invariant
                i <= keys@.len(),
                forall|k: int| 0 <= k < keys@.len() ==> self.documents@.contains_key(#[trigger] keys@[k]@),
                forall|k: Seq<char>|
                    self.documents@.contains_key(k) ==> exists|j: int|
                        0 <= j < keys@.len() && #[trigger] keys@[j]@ == k,
                forall|j: int| 0 <= j < i ==> !pending_document_for(self.documents@, #[trigger] keys@[j]@, hash@),
            decreases keys@.len() - i,
        {
            let key = &keys[i];
            match self.load_document(key) {
                Ok(d) => {
                    if d.ethereum_tx_hash == *hash && d.status == DocumentStatus::Pending {
                        return Some((key.clone(), d));
                    }
                },
                Err(_) => {},
            }
            i = i + 1;
        }
        proof {
            assert forall|k: Seq<char>| !pending_document_for(self.documents@, k, hash@) by {
                if pending_document_for(self.documents@, k, hash@) {
                    let j = choose|j: int| 0 <= j < keys@.len() && #[trigger] keys@[j]@ == k;
                }
            }
        }
        None
    }

    /// Links an external asset hash to an allow-listed ACID number, creating
    /// the mapping and its pending customs verification under the hash; a
    /// hash that already has either is refused. The ACID number's validation
    /// is recorded once the other checks pass.
    pub fn link_cargox_to_acid(
        &mut self,
        nft_hash: &String,
        acid_number: &String,
        caller: &Identity,
        now: u64,
    ) -> (r: Result<String, EngineError>)
        ensures
            ({
                let counters = old(self).counters@;
                let m = linked_mapping(counters, nft_hash@, acid_number@, caller@, now);
                let v = linked_verification(counters, nft_hash@, acid_number@, now);
                if !acid_format_ok(acid_number@) {
                    r == Err::<String, EngineError>(EngineError::InvalidAcidFormat)
                } else if !text_ok(nft_hash@) {
                    r == Err::<String, EngineError>(EngineError::InvalidText)
                } else if old(self).mappings@.contains_key(nft_hash@)
                    || old(self).verifications@.contains_key(nft_hash@) {
                    r == Err::<String, EngineError>(EngineError::AlreadyLinked)
                } else if counter_value(counters, mapping_counter()) == u64::MAX || counter_value(
                    counters,
                    verification_counter(),
                ) == u64::MAX {
                    r == Err::<String, EngineError>(EngineError::IdsExhausted)
                } else if mapping_bytes(m).len() > MAPPING_MAX_SIZE || verification_bytes(v).len()
                    > VERIFICATION_MAX_SIZE {
                    r == Err::<String, EngineError>(EngineError::TooLarge)
                } else {
                    &&& final(self).acid_validations@ == old(self).acid_validations@.insert(
                        acid_number@,
                        acid_validation_bytes(acid_record(acid_number@, now)),
                    )
                    &&& if !acid_allow_list().contains(acid_number@) {
                        r == Err::<String, EngineError>(EngineError::InvalidAcid)
                    } else {
                        &&& r is Ok
                        &&& r->Ok_0@ == m.id
                        &&& final(self).mappings@ == old(self).mappings@.insert(
                            nft_hash@,
                            mapping_bytes(m),
                        )
                        &&& final(self).verifications@ == old(self).verifications@.insert(
                            nft_hash@,
                            verification_bytes(v),
                        )
                        &&& final(self).counters@ == counters.insert(
                            mapping_counter(),
                            (counter_value(counters, mapping_counter()) + 1) as u64,
                        ).insert(
                            verification_counter(),
                            (counter_value(counters, verification_counter()) + 1) as u64,
                        )
                    }
                }
            }),
            r matches Err(e) && e != EngineError::InvalidAcid ==> final(self).acid_validations@
                == old(self).acid_validations@,
            r is Err ==> final(self).mappings@ == old(self).mappings@ && final(self).verifications@
                == old(self).verifications@ && final(self).counters@ == old(self).counters@,
            final(self).documents@ == old(self).documents@,
            final(self).loans@ == old(self).loans@,
            final(self).balances@ == old(self).balances@,
    {
        if !is_acid_format(acid_number.as_str()) {
            return Err(EngineError::InvalidAcidFormat);
        }
        if !is_text_ok(nft_hash.as_str()) {
            return Err(EngineError::InvalidText);
        }
        if self.mappings.contains_key(nft_hash) || self.verifications.contains_key(nft_hash) {
            return Err(EngineError::AlreadyLinked);
        }
        let mapping_count = match self.counters.get(&String::from_str("mapping")) {
            Some(c) => c,
            None => 0,
        };
        let verification_count = match self.counters.get(&String::from_str("verification")) {
            Some(c) => c,
            None => 0,
        };
        proof {
            reveal_strlit("mapping");
            assert("mapping"@ =~= mapping_counter());
            reveal_strlit("verification");
            assert("verification"@ =~= verification_counter());
            reveal_strlit("MAP-");
            assert("MAP-"@ =~= mapping_prefix());
            reveal_strlit("VER-");
            assert("VER-"@ =~= verification_prefix());
        }
        if mapping_count == u64::MAX || verification_count == u64::MAX {
            return Err(EngineError::IdsExhausted);
        }
        let mapping = CargoXMapping {
            id: format_id("MAP-", mapping_count + 1),
            nft_hash: nft_hash.clone(),
            acid_number: acid_number.clone(),
            verified: false,
            created_at: now,
            owner: caller.copied(),
            customs_entry_id: None,
        };
        let verification = CustomsVerification {
            id: format_id("VER-", verification_count + 1),
            nft_hash: nft_hash.clone(),
            acid_number: acid_number.clone(),
            verification_status: CustomsStatus::Pending,
            verified_at: None,
            customs_data: None,
            created_at: now,
            verified_by: None,
        };
        let mapping_bytes = match mapping.to_bytes() {
            Ok(b) => b,
            Err(_) => return Err(EngineError::TooLarge),
        };
        let verification_bytes = match verification.to_bytes() {
            Ok(b) => b,
            Err(_) => return Err(EngineError::TooLarge),
        };
        let is_valid = match self.validate_acid(acid_number.as_str(), now) {
            Ok(v) => v,
            Err(e) => return Err(e),
        };
        if !is_valid {
            return Err(EngineError::InvalidAcid);
        }
        let mapping_id = generate_mapping_id(&mut self.counters);
        let _verification_id = generate_verification_id(&mut self.counters);
        self.mappings.insert(nft_hash.clone(), mapping_bytes);
        self.verifications.insert(nft_hash.clone(), verification_bytes);
        Ok(mapping_id)
    }

    /// Decides a pending customs verification and cascades the decision to
    /// the pending document that refers to the same asset hash, if any.
    fn decide_customs_entry(
        &mut self,
        nft_hash: &String,
        status: CustomsStatus,
        note: String,
        document_status: DocumentStatus,
        caller: &Identity,
        now: u64,
    ) -> (r: Result<(), EngineError>)
        ensures
            decision_made(
                old(self).verifications@,
                old(self).documents@,
                final(self).verifications@,
                final(self).documents@,
                nft_hash@,
                status,
                note@,
                document_status,
                caller@,
                now,
                r,
            ),
            final(self).loans@ == old(self).loans@,
            final(self).acid_validations@ == old(self).acid_validations@,
            final(self).balances@ == old(self).balances@,
            final(self).mappings@ == old(self).mappings@,
            final(self).counters@ == old(self).counters@,
    {
        let mut verification = match self.load_verification(nft_hash) {
            Ok(v) => v,
            Err(e) => return Err(e),
        };
        if verification.verification_status != CustomsStatus::Pending {
            return Err(EngineError::WrongStatus);
        }
        verification.verification_status = status;
        verification.verified_at = Some(now);
        verification.verified_by = Some(caller.copied());
        verification.customs_data = Some(note);
        let verification_bytes = match verification.to_bytes() {
            Ok(b) => b,
            Err(_) => return Err(EngineError::TooLarge),
        };
        let cascade = match self.find_pending_document(nft_hash) {
            Some((key, mut document)) => {
                document.status = document_status;
                match document.to_bytes() {
                    Ok(b) => Some((key, b)),
                    Err(_) => return Err(EngineError::TooLarge),
                }
            },
            None => None,
        };
        self.verifications.insert(nft_hash.clone(), verification_bytes);
        match cascade {
            Some((key, bytes)) => {
                self.documents.insert(key, bytes);
            },
            None => {},
        }
        Ok(())
    }

    /// Verifies the customs entry of a linked asset hash: the mapping is
    /// marked verified, the verification records who verified it and when,
    /// and the pending document that refers to the hash becomes verified.
    pub fn verify_customs_entry(&mut self, nft_hash: &String, caller: &Identity, now: u64) -> (r:
        Result<(), EngineError>)
        ensures
            match mapping_in(old(self).mappings@, nft_hash@) {
                Err(e) => r == Err::<(), EngineError>(e) && final(self).verifications@ == old(
                    self,
                ).verifications@ && final(self).documents@ == old(self).documents@,
                Ok(m) => if mapping_bytes(CargoXMappingView { verified: true, ..m }).len()
                    > MAPPING_MAX_SIZE {
                    r == Err::<(), EngineError>(EngineError::TooLarge) && final(self).verifications@
                        == old(self).verifications@ && final(self).documents@ == old(
                        self,
                    ).documents@
                } else {
                    &&& decision_made(
                        old(self).verifications@,
                        old(self).documents@,
                        final(self).verifications@,
                        final(self).documents@,
                        nft_hash@,
                        CustomsStatus::Verified,
                        verified_note(),
                        DocumentStatus::Verified,
                        caller@,
                        now,
                        r,
                    )
                    &&& r is Ok ==> final(self).mappings@ == old(self).mappings@.insert(
                        nft_hash@,
                        mapping_bytes(CargoXMappingView { verified: true, ..m }),
                    )
                },
            },
            r is Err ==> final(self).mappings@ == old(self).mappings@,
            final(self).loans@ == old(self).loans@,
            final(self).acid_validations@ == old(self).acid_validations@,
            final(self).balances@ == old(self).balances@,
            final(self).counters@ == old(self).counters@,
    {
        let mut mapping = match self.load_mapping(nft_hash) {
            Ok(m) => m,
            Err(e) => return Err(e),
        };
        mapping.verified = true;
        let bytes = match mapping.to_bytes() {
            Ok(b) => b,
            Err(_) => return Err(EngineError::TooLarge),
        };
        let note = String::from_str("Customs entry verified manually");
        match self.decide_customs_entry(
            nft_hash,
            CustomsStatus::Verified,
            note,
            DocumentStatus::Verified,
            caller,
            now,
        ) {
            Ok(()) => {},
            Err(e) => return Err(e),
        }
        self.mappings.insert(nft_hash.clone(), bytes);
        Ok(())
    }

    /// Rejects the customs entry of an asset hash with a reason, and rejects
    /// the pending document that refers to the hash.
    pub fn reject_customs_entry(
        &mut self,
        nft_hash: &String,
        reason: &String,
        caller: &Identity,
        now: u64,
    ) -> (r: Result<(), EngineError>)
        ensures
            !text_ok(reason@) ==> r == Err::<(), EngineError>(EngineError::InvalidText)
                && final(self).verifications@ == old(self).verifications@ && final(self).documents@
                == old(self).documents@,
            text_ok(reason@) ==> decision_made(
                old(self).verifications@,
                old(self).documents@,
                final(self).verifications@,
                final(self).documents@,
                nft_hash@,
                CustomsStatus::Rejected,
                rejected_note(reason@),
                DocumentStatus::Rejected,
                caller@,
                now,
                r,
            ),
            final(self).mappings@ == old(self).mappings@,
            final(self).loans@ == old(self).loans@,
            final(self).acid_validations@ == old(self).acid_validations@,
            final(self).balances@ == old(self).balances@,
            final(self).counters@ == old(self).counters@,
    {
        if !is_text_ok(reason.as_str()) {
            return Err(EngineError::InvalidText);
        }
        let note = String::from_str("Rejected: ").concat(reason.as_str());
        self.decide_customs_entry(
            nft_hash,
            CustomsStatus::Rejected,
            note,
            DocumentStatus::Rejected,
            caller,
            now,
        )
    }

    /// Repays part of an active loan from the borrower's balance; once the
    /// repayments add up to the loan amount the loan is repaid.
    pub fn repay_loan(&mut self, loan_id: &String, amount: u64, caller: &Identity) -> (r: Result<
        (),
        EngineError,
    >)
        ensures
            match loan_in(old(self).loans@, loan_id@) {
                Err(e) => r == Err::<(), EngineError>(e),
                Ok(l) => {
                    let paid = after_repayment(l, amount);
                    let bal = balance_in(old(self).balances@, caller@);
                    if l.borrower != caller@ {
                        r == Err::<(), EngineError>(EngineError::NotOwner)
                    } else if l.status != LoanStatus::Active {
                        r == Err::<(), EngineError>(EngineError::WrongStatus)
                    } else if bal < amount {
                        r == Err::<(), EngineError>(EngineError::InsufficientFunds)
                    } else if loan_bytes(paid).len() > LOAN_MAX_SIZE {
                        r == Err::<(), EngineError>(EngineError::TooLarge)
                    } else {
                        &&& r is Ok
                        &&& final(self).loans@ == old(self).loans@.insert(loan_id@, loan_bytes(paid))
                        &&& final(self).balances@ == old(self).balances@.insert(
                            caller@,
                            (bal - amount) as u64,
                        )
                    }
                },
            },
            r is Err ==> final(self).loans@ == old(self).loans@ && final(self).balances@ == old(
                self,
            ).balances@,
            final(self).documents@ == old(self).documents@,
            final(self).acid_validations@ == old(self).acid_validations@,
            final(self).mappings@ == old(self).mappings@,
            final(self).verifications@ == old(self).verifications@,
            final(self).counters@ == old(self).counters@,
    {
        let mut loan = match self.load_loan(loan_id) {
            Ok(l) => l,
            Err(e) => return Err(e),
        };
        if !loan.borrower.same_as(caller) {
            return Err(EngineError::NotOwner);
        }
        if loan.status != LoanStatus::Active {
            return Err(EngineError::WrongStatus);
        }
        let balance = balance_of(&self.balances, caller);
        if balance < amount {
            return Err(EngineError::InsufficientFunds);
        }
        let total = if loan.repaid > u64::MAX - amount {
            u64::MAX
        } else {
            loan.repaid + amount
        };
        if total >= loan.amount {
            loan.status = LoanStatus::Repaid;
        }
        loan.repaid = total;
        let bytes = match loan.to_bytes() {
            Ok(b) => b,
            Err(_) => return Err(EngineError::TooLarge),
        };
        let key = vstd::slice::slice_to_vec(caller.as_slice());
        self.balances.insert(key, balance - amount);
        self.loans.insert(loan_id.clone(), bytes);
        Ok(())
    }

    /// The caller's token balance.
    pub fn get_balance(&self, caller: &Identity) -> (r: u64)
        ensures
            r == balance_in(self.balances@, caller@),
    {
        balance_of(&self.balances, caller)
    }

    /// Issues tokens to the caller.
    pub fn mint(&mut self, caller: &Identity, amount: u64) -> (r: Result<(), EngineError>)
        ensures
            ({
                let before = balance_in(old(self).balances@, caller@);
                if before + amount <= u64::MAX {
                    r is Ok && final(self).balances@ == old(self).balances@.insert(
                        caller@,
                        (before + amount) as u64,
                    )
                } else {
                    r == Err::<(), EngineError>(EngineError::AmountTooLarge) && final(self).balances@
                        == old(self).balances@
                }
            }),
            final(self).documents@ == old(self).documents@,
            final(self).loans@ == old(self).loans@,
            final(self).acid_validations@ == old(self).acid_validations@,
            final(self).mappings@ == old(self).mappings@,
            final(self).verifications@ == old(self).verifications@,
            final(self).counters@ == old(self).counters@,
    {
        match mint(&mut self.balances, caller, amount) {
            Ok(()) => Ok(()),
            Err(_) => Err(EngineError::AmountTooLarge),
        }
    }

    /// Credits the treasury with test tokens worth `usd_amount` USD.
    pub fn request_test_tokens(&mut self, treasury: &Identity, usd_amount: u64) -> (r: Result<
        (),
        EngineError,
    >)
        ensures
            ({
                let before = balance_in(old(self).balances@, treasury@);
                if usd_amount * TOKENS_PER_USD + before <= u64::MAX {
                    r is Ok && final(self).balances@ == old(self).balances@.insert(
                        treasury@,
                        (before + usd_amount * TOKENS_PER_USD) as u64,
                    )
                } else {
                    r == Err::<(), EngineError>(EngineError::AmountTooLarge) && final(self).balances@
                        == old(self).balances@
                }
            }),
            final(self).documents@ == old(self).documents@,
            final(self).loans@ == old(self).loans@,
            final(self).acid_validations@ == old(self).acid_validations@,
            final(self).mappings@ == old(self).mappings@,
            final(self).verifications@ == old(self).verifications@,
            final(self).counters@ == old(self).counters@,
    {
        if usd_amount > u64::MAX / TOKENS_PER_USD {
            return Err(EngineError::AmountTooLarge);
        }
        let tokens = usd_to_tokens(usd_amount);
        self.mint(treasury, tokens)
    }

    /// Moves tokens from the caller to another identity; anonymous callers
    /// cannot send.
    pub fn transfer(&mut self, caller: &Identity, to: &Identity, amount: u64) -> (r: Result<
        (),
        EngineError,
    >)
        ensures
            ({
                let m = old(self).balances@;
                if caller@ == anonymous_bytes() {
                    r == Err::<(), EngineError>(EngineError::AnonymousCaller)
                } else if balance_in(m, caller@) < amount {
                    r == Err::<(), EngineError>(EngineError::InsufficientFunds)
                } else if !credit_fits(m, caller@, to@, amount) {
                    r == Err::<(), EngineError>(EngineError::AmountTooLarge)
                } else {
                    r is Ok
                }
            }),
            r is Ok ==> final(self).balances@ == moved(old(self).balances@, caller@, to@, amount),
            r is Err ==> final(self).balances@ == old(self).balances@,
            final(self).documents@ == old(self).documents@,
            final(self).loans@ == old(self).loans@,
            final(self).acid_validations@ == old(self).acid_validations@,
            final(self).mappings@ == old(self).mappings@,
            final(self).verifications@ == old(self).verifications@,
            final(self).counters@ == old(self).counters@,
    {
        match transfer(&mut self.balances, caller, to, amount) {
            Ok(()) => Ok(()),
            Err(LedgerError::AnonymousCaller) => Err(EngineError::AnonymousCaller),
            Err(LedgerError::InsufficientFunds) => Err(EngineError::InsufficientFunds),
            Err(LedgerError::Overflow) => Err(EngineError::AmountTooLarge),
        }
    }

    /// The document stored under the id.
    pub fn get_document(&self, document_id: &String) -> (r: Result<Option<Document>, DecodeError>)
        ensures
            looked_up(self.documents@, |b: Seq<u8>| parse_document(b), document_id@, r),
    {
        match self.documents.get(document_id) {
            None => Ok(None),
            Some(bytes) => match Document::from_bytes(bytes.as_slice()) {
                Ok(v) => Ok(Some(v)),
                Err(e) => Err(e),
            },
        }
    }

    /// The loan stored under the id.
    pub fn get_loan(&self, loan_id: &String) -> (r: Result<Option<Loan>, DecodeError>)
        ensures
            looked_up(self.loans@, |b: Seq<u8>| parse_loan(b), loan_id@, r),
    {
        match self.loans.get(loan_id) {
            None => Ok(None),
            Some(bytes) => match Loan::from_bytes(bytes.as_slice()) {
                Ok(v) => Ok(Some(v)),
                Err(e) => Err(e),
            },
        }
    }

    /// The validation recorded for the ACID number.
    pub fn get_acid_validation(&self, acid_number: &String) -> (r: Result<Option<AcidValidation>, DecodeError>)
        ensures
            looked_up(self.acid_validations@, |b: Seq<u8>| parse_acid_validation(b), acid_number@, r),
    {
        match self.acid_validations.get(acid_number) {
            None => Ok(None),
            Some(bytes) => match AcidValidation::from_bytes(bytes.as_slice()) {
                Ok(v) => Ok(Some(v)),
                Err(e) => Err(e),
            },
        }
    }

    /// The mapping of the asset hash.
    pub fn get_cargox_mapping(&self, nft_hash: &String) -> (r: Result<Option<CargoXMapping>, DecodeError>)
        ensures
            looked_up(self.mappings@, |b: Seq<u8>| parse_mapping(b), nft_hash@, r),
    {
        match self.mappings.get(nft_hash) {
            None => Ok(None),
            Some(bytes) => match CargoXMapping::from_bytes(bytes.as_slice()) {
                Ok(v) => Ok(Some(v)),
                Err(e) => Err(e),
            },
        }
    }

    /// The customs verification of the asset hash.
    pub fn get_customs_verification(&self, nft_hash: &String) -> (r: Result<Option<CustomsVerification>, DecodeError>)
        ensures
            looked_up(self.verifications@, |b: Seq<u8>| parse_verification(b), nft_hash@, r),
    {
        match self.verifications.get(nft_hash) {
            None => Ok(None),
            Some(bytes) => match CustomsVerification::from_bytes(bytes.as_slice()) {
                Ok(v) => Ok(Some(v)),
                Err(e) => Err(e),
            },
        }
    }







    /// The ids of every loan, each once.
    pub fn get_all_loan_ids(&self) -> (r: Vec<String>)
        ensures
            forall|i: int| 0 <= i < r@.len() ==> self.loans@.contains_key(#[trigger] r@[i]@),
            forall|k: Seq<char>|
                self.loans@.contains_key(k) ==> exists|i: int| 0 <= i < r@.len() && #[trigger] r@[i]@ == k,
            forall|i: int, j: int| 0 <= i < j < r@.len() ==> r@[i]@ != r@[j]@,
    {
        self.loans.keys()
    }


    /// How many customs verifications are pending, verified, rejected and
    /// under review.
    pub fn get_verification_stats(&self) -> (r: Result<(u64, u64, u64, u64), EngineError>)
        ensures
            match r {
                Ok((p, v, j, u)) => exists|ks: Seq<Seq<char>>|
                    enumerates(self.verifications@, ks) && p == status_count(
                        self.verifications@,
                        ks,
                        CustomsStatus::Pending,
                    ) && v == status_count(self.verifications@, ks, CustomsStatus::Verified) && j
                        == status_count(self.verifications@, ks, CustomsStatus::Rejected) && u
                        == status_count(self.verifications@, ks, CustomsStatus::UnderReview),
                Err(EngineError::Corrupt(e)) => exists|k: Seq<char>|
                    self.verifications@.contains_key(k) && (parse_verification(self.verifications@[k]) matches Err(x) && x == e),
                Err(_) => false,
            },
    {
        let keys = self.verifications.keys();
        let ghost ks = keys@.map_values(|k: String| k@);
        let mut pending: u64 = 0;
        let mut verified: u64 = 0;
        let mut rejected: u64 = 0;
        let mut under_review: u64 = 0;
        let mut i: usize = 0;
        while i < keys.len()
            invariant
                i <= keys@.len(),
                ks == keys@.map_values(|k: String| k@),
                forall|k: int| 0 <= k < keys@.len() ==> self.verifications@.contains_key(#[trigger] keys@[k]@),
                pending == status_count(self.verifications@, ks.take(i as int), CustomsStatus::Pending),
                verified == status_count(self.verifications@, ks.take(i as int), CustomsStatus::Verified),
                rejected == status_count(self.verifications@, ks.take(i as int), CustomsStatus::Rejected),
                under_review == status_count(
                    self.verifications@,
                    ks.take(i as int),
                    CustomsStatus::UnderReview,
                ),
                pending + verified + rejected + under_review <= i,
            decreases keys@.len() - i,
        {
            let item = match self.load_verification(&keys[i]) {
                Ok(v) => v,
                Err(e) => return Err(e),
            };
            proof {
                assert(ks.take(i + 1).drop_last() =~= ks.take(i as int));
                assert(ks.take(i + 1).last() == keys@[i as int]@);
            }
            match item.verification_status {
                CustomsStatus::Pending => pending = pending + 1,
                CustomsStatus::Verified => verified = verified + 1,
                CustomsStatus::Rejected => rejected = rejected + 1,
                CustomsStatus::UnderReview => under_review = under_review + 1,
            }
            i = i + 1;
        }
        proof {
            assert(ks.take(keys@.len() as int) =~= ks);
            assert(pending == status_count(self.verifications@, ks, CustomsStatus::Pending));
            assert(verified == status_count(self.verifications@, ks, CustomsStatus::Verified));
            assert(rejected == status_count(self.verifications@, ks, CustomsStatus::Rejected));
            assert(under_review == status_count(self.verifications@, ks, CustomsStatus::UnderReview));
            assert forall|k: Seq<char>| self.verifications@.contains_key(k) <==> ks.contains(k) by {
                if self.verifications@.contains_key(k) {
                    let j = choose|j: int| 0 <= j < keys@.len() && #[trigger] keys@[j]@ == k;
                    assert(ks[j] == k);
                }
                if ks.contains(k) {
                    let j = choose|j: int| 0 <= j < ks.len() && ks[j] == k;
                    assert(ks[j] == keys@[j]@);
                }
            }
            assert(ks.no_duplicates()) by {
                assert forall|a: int, b: int| 0 <= a < ks.len() && 0 <= b < ks.len() && a != b implies ks[a]
                    != ks[b] by {
                    if a < b {
                        assert(keys@[a]@ != keys@[b]@);
                    } else {
                        assert(keys@[b]@ != keys@[a]@);
                    }
                }
            }
            assert(enumerates(self.verifications@, ks));
        }
        Ok((pending, verified, rejected, under_review))
    }

    /// Triggers lending for each document in turn; succeeds with the ids
    /// when every one succeeded, and otherwise lists those that failed.
    pub fn batch_trigger_lending(&mut self, document_ids: &Vec<String>) -> (r: Result<
        Vec<String>,
        Vec<(String, EngineError)>,
    >)
        ensures
            ({
                let ids = document_ids@.map_values(|s: String| s@);
                let failures = batch_failures(old(self).documents@, ids);
                &&& final(self).documents@ == batch_documents(old(self).documents@, ids)
                &&& match r {
                    Ok(v) => failures.len() == 0 && v@.map_values(|s: String| s@) == ids,
                    Err(f) => failures.len() > 0 && f@.map_values(
                        |p: (String, EngineError)| (p.0@, p.1),
                    ) == failures,
                }
            }),
            final(self).loans@ == old(self).loans@,
            final(self).acid_validations@ == old(self).acid_validations@,
            final(self).balances@ == old(self).balances@,
            final(self).mappings@ == old(self).mappings@,
            final(self).verifications@ == old(self).verifications@,
            final(self).counters@ == old(self).counters@,
    {
        let ghost ids = document_ids@.map_values(|s: String| s@);
        let mut successful: Vec<String> = Vec::new();
        let mut failed: Vec<(String, EngineError)> = Vec::new();
        let mut i: usize = 0;
        while i < document_ids.len()
            invariant
                i <= document_ids@.len(),
                ids == document_ids@.map_values(|s: String| s@),
                self.documents@ == batch_documents(old(self).documents@, ids.take(i as int)),
                failed@.map_values(|p: (String, EngineError)| (p.0@, p.1)) == batch_failures(
                    old(self).documents@,
                    ids.take(i as int),
                ),
                successful@.len() + failed@.len() == i,
                failed@.len() == 0 ==> successful@.map_values(|s: String| s@) == ids.take(i as int),
                self.loans@ == old(self).loans@,
                self.acid_validations@ == old(self).acid_validations@,
                self.balances@ == old(self).balances@,
                self.mappings@ == old(self).mappings@,
                self.verifications@ == old(self).verifications@,
                self.counters@ == old(self).counters@,
            decreases document_ids@.len() - i,
        {
            let id = &document_ids[i];
            proof {
                assert(ids.take(i + 1).drop_last() =~= ids.take(i as int));
                assert(ids.take(i + 1).last() == id@);
            }
            let ghost before_failed = failed@.map_values(|p: (String, EngineError)| (p.0@, p.1));
            let ghost before_ok = successful@.map_values(|s: String| s@);
            match self.trigger_lending(id) {
                Ok(()) => {
                    successful.push(id.clone());
                    proof {
                        assert(failed@.map_values(|p: (String, EngineError)| (p.0@, p.1)) =~= before_failed);
                        if failed@.len() == 0 {
                            assert(successful@.map_values(|s: String| s@) =~= before_ok.push(id@));
                            assert(ids.take(i + 1) =~= ids.take(i as int).push(id@));
                        }
                    }
                },
                Err(e) => {
                    failed.push((id.clone(), e));
                    proof {
                        assert(failed@.map_values(|p: (String, EngineError)| (p.0@, p.1)) =~= before_failed.push(
                            (id@, e),
                        ));
                    }
                },
            }
            i = i + 1;
        }
        proof {
            assert(ids.take(document_ids@.len() as int) =~= ids);
        }
        if failed.len() == 0 {
            Ok(successful)
        } else {
            Err(failed)
        }
    }

    /// The documents that the caller owns.
    pub fn get_my_documents(&self, caller: &Identity) -> (r: Result<Vec<Document>, EngineError>)
        ensures
            match r {
                Ok(v) => exists|ks: Seq<Seq<char>>|
                    enumerates(self.documents@, ks) && v@.map_values(|t: Document| t@) == documents_where(
                        self.documents@,
                        ks,
                        |x: DocumentView| x.owner == caller@,
                    ),
                Err(EngineError::Corrupt(e)) => exists|k: Seq<char>|
                    self.documents@.contains_key(k) && (parse_document(self.documents@[k]) matches Err(x) && x == e),
                Err(_) => false,
            },
    {
        let keys = self.documents.keys();
        let ghost ks = keys@.map_values(|k: String| k@);
        let ghost keep = |x: DocumentView| x.owner == caller@;
        let mut out: Vec<Document> = Vec::new();
        let mut i: usize = 0;
        while i < keys.len()
            invariant
                i <= keys@.len(),
                ks == keys@.map_values(|k: String| k@),
                keep == (|x: DocumentView| x.owner == caller@),
                forall|k: int| 0 <= k < keys@.len() ==> self.documents@.contains_key(#[trigger] keys@[k]@),
                out@.map_values(|t: Document| t@) == documents_where(self.documents@, ks.take(i as int), keep),
            decreases keys@.len() - i,
        {
            proof {
                assert(ks.take(i + 1).drop_last() =~= ks.take(i as int));
                assert(ks.take(i + 1).last() == keys@[i as int]@);
            }
            let ghost before = out@.map_values(|t: Document| t@);
            let item = match self.load_document(&keys[i]) {
                Ok(v) => v,
                Err(e) => {
                    proof {
                        let k = keys@[i as int]@;
                        assert(self.documents@.contains_key(k));
                    }
                    return Err(e);
                },
            };
            if item.owner.same_as(caller) {
                out.push(item);
                proof {
                    assert(out@.map_values(|t: Document| t@) =~= before.push(out@[out@.len() - 1]@));
                }
            }
            i = i + 1;
        }
        proof {
            assert(ks.take(keys@.len() as int) =~= ks);
            assert forall|k: Seq<char>| self.documents@.contains_key(k) <==> ks.contains(k) by {
                if self.documents@.contains_key(k) {
                    let j = choose|j: int| 0 <= j < keys@.len() && #[trigger] keys@[j]@ == k;
                    assert(ks[j] == k);
                }
                if ks.contains(k) {
                    let j = choose|j: int| 0 <= j < ks.len() && ks[j] == k;
                    assert(ks[j] == keys@[j]@);
                }
            }
            assert(ks.no_duplicates()) by {
                assert forall|a: int, b: int| 0 <= a < ks.len() && 0 <= b < ks.len() && a != b implies ks[a]
                    != ks[b] by {
                    if a < b {
                        assert(keys@[a]@ != keys@[b]@);
                    } else {
                        assert(keys@[b]@ != keys@[a]@);
                    }
                }
            }
            assert(enumerates(self.documents@, ks));
        }
        Ok(out)
    }

    /// The documents that refer to the asset hash.
    pub fn get_documents_by_nft_hash(&self, nft_hash: &String) -> (r: Result<Vec<Document>, EngineError>)
        ensures
            match r {
                Ok(v) => exists|ks: Seq<Seq<char>>|
                    enumerates(self.documents@, ks) && v@.map_values(|t: Document| t@) == documents_where(
                        self.documents@,
                        ks,
                        |x: DocumentView| x.ethereum_tx_hash == nft_hash@,
                    ),
                Err(EngineError::Corrupt(e)) => exists|k: Seq<char>|
                    self.documents@.contains_key(k) && (parse_document(self.documents@[k]) matches Err(x) && x == e),
                Err(_) => false,
            },
    {
        let keys = self.documents.keys();
        let ghost ks = keys@.map_values(|k: String| k@);
        let ghost keep = |x: DocumentView| x.ethereum_tx_hash == nft_hash@;
        let mut out: Vec<Document> = Vec::new();
        let mut i: usize = 0;
        while i < keys.len()
            invariant
                i <= keys@.len(),
                ks == keys@.map_values(|k: String| k@),
                keep == (|x: DocumentView| x.ethereum_tx_hash == nft_hash@),
                forall|k: int| 0 <= k < keys@.len() ==> self.documents@.contains_key(#[trigger] keys@[k]@),
                out@.map_values(|t: Document| t@) == documents_where(self.documents@, ks.take(i as int), keep),
            decreases keys@.len() - i,
        {
            proof {
                assert(ks.take(i + 1).drop_last() =~= ks.take(i as int));
                assert(ks.take(i + 1).last() == keys@[i as int]@);
            }
            let ghost before = out@.map_values(|t: Document| t@);
            let item = match self.load_document(&keys[i]) {
                Ok(v) => v,
                Err(e) => {
                    proof {
                        let k = keys@[i as int]@;
                        assert(self.documents@.contains_key(k));
                    }
                    return Err(e);
                },
            };
            if item.ethereum_tx_hash == *nft_hash {
                out.push(item);
                proof {
                    assert(out@.map_values(|t: Document| t@) =~= before.push(out@[out@.len() - 1]@));
                }
            }
            i = i + 1;
        }
        proof {
            assert(ks.take(keys@.len() as int) =~= ks);
            assert forall|k: Seq<char>| self.documents@.contains_key(k) <==> ks.contains(k) by {
                if self.documents@.contains_key(k) {
                    let j = choose|j: int| 0 <= j < keys@.len() && #[trigger] keys@[j]@ == k;
                    assert(ks[j] == k);
                }
                if ks.contains(k) {
                    let j = choose|j: int| 0 <= j < ks.len() && ks[j] == k;
                    assert(ks[j] == keys@[j]@);
                }
            }
            assert(ks.no_duplicates()) by {
                assert forall|a: int, b: int| 0 <= a < ks.len() && 0 <= b < ks.len() && a != b implies ks[a]
                    != ks[b] by {
                    if a < b {
                        assert(keys@[a]@ != keys@[b]@);
                    } else {
                        assert(keys@[b]@ != keys@[a]@);
                    }
                }
            }
            assert(enumerates(self.documents@, ks));
        }
        Ok(out)
    }

    /// The loans that the caller borrowed.
    pub fn get_my_loans(&self, caller: &Identity) -> (r: Result<Vec<Loan>, EngineError>)
        ensures
            match r {
                Ok(v) => exists|ks: Seq<Seq<char>>|
                    enumerates(self.loans@, ks) && v@.map_values(|t: Loan| t@) == loans_where(
                        self.loans@,
                        ks,
                        |x: LoanView| x.borrower == caller@,
                    ),
                Err(EngineError::Corrupt(e)) => exists|k: Seq<char>|
                    self.loans@.contains_key(k) && (parse_loan(self.loans@[k]) matches Err(x) && x == e),
                Err(_) => false,
            },
    {
        let keys = self.loans.keys();
        let ghost ks = keys@.map_values(|k: String| k@);
        let ghost keep = |x: LoanView| x.borrower == caller@;
        let mut out: Vec<Loan> = Vec::new();
        let mut i: usize = 0;
        while i < keys.len()
            invariant
                i <= keys@.len(),
                ks == keys@.map_values(|k: String| k@),
                keep == (|x: LoanView| x.borrower == caller@),
                forall|k: int| 0 <= k < keys@.len() ==> self.loans@.contains_key(#[trigger] keys@[k]@),
                out@.map_values(|t: Loan| t@) == loans_where(self.loans@, ks.take(i as int), keep),
            decreases keys@.len() - i,
        {
            proof {
                assert(ks.take(i + 1).drop_last() =~= ks.take(i as int));
                assert(ks.take(i + 1).last() == keys@[i as int]@);
            }
            let ghost before = out@.map_values(|t: Loan| t@);
            let item = match self.load_loan(&keys[i]) {
                Ok(v) => v,
                Err(e) => {
                    proof {
                        let k = keys@[i as int]@;
                        assert(self.loans@.contains_key(k));
                    }
                    return Err(e);
                },
            };
            if item.borrower.same_as(caller) {
                out.push(item);
                proof {
                    assert(out@.map_values(|t: Loan| t@) =~= before.push(out@[out@.len() - 1]@));
                }
            }
            i = i + 1;
        }
        proof {
            assert(ks.take(keys@.len() as int) =~= ks);
            assert forall|k: Seq<char>| self.loans@.contains_key(k) <==> ks.contains(k) by {
                if self.loans@.contains_key(k) {
                    let j = choose|j: int| 0 <= j < keys@.len() && #[trigger] keys@[j]@ == k;
                    assert(ks[j] == k);
                }
                if ks.contains(k) {
                    let j = choose|j: int| 0 <= j < ks.len() && ks[j] == k;
                    assert(ks[j] == keys@[j]@);
                }
            }
            assert(ks.no_duplicates()) by {
                assert forall|a: int, b: int| 0 <= a < ks.len() && 0 <= b < ks.len() && a != b implies ks[a]
                    != ks[b] by {
                    if a < b {
                        assert(keys@[a]@ != keys@[b]@);
                    } else {
                        assert(keys@[b]@ != keys@[a]@);
                    }
                }
            }
            assert(enumerates(self.loans@, ks));
        }
        Ok(out)
    }

    /// Every loan.
    pub fn get_all_loans(&self) -> (r: Result<Vec<Loan>, EngineError>)
        ensures
            match r {
                Ok(v) => exists|ks: Seq<Seq<char>>|
                    enumerates(self.loans@, ks) && v@.map_values(|t: Loan| t@) == loans_where(
                        self.loans@,
                        ks,
                        |x: LoanView| true,
                    ),
                Err(EngineError::Corrupt(e)) => exists|k: Seq<char>|
                    self.loans@.contains_key(k) && (parse_loan(self.loans@[k]) matches Err(x) && x == e),
                Err(_) => false,
            },
    {
        let keys = self.loans.keys();
        let ghost ks = keys@.map_values(|k: String| k@);
        let ghost keep = |x: LoanView| true;
        let mut out: Vec<Loan> = Vec::new();
        let mut i: usize = 0;
        while i < keys.len()
            invariant
                i <= keys@.len(),
                ks == keys@.map_values(|k: String| k@),
                keep == (|x: LoanView| true),
                forall|k: int| 0 <= k < keys@.len() ==> self.loans@.contains_key(#[trigger] keys@[k]@),
                out@.map_values(|t: Loan| t@) == loans_where(self.loans@, ks.take(i as int), keep),
            decreases keys@.len() - i,
        {
            proof {
                assert(ks.take(i + 1).drop_last() =~= ks.take(i as int));
                assert(ks.take(i + 1).last() == keys@[i as int]@);
            }
            let ghost before = out@.map_values(|t: Loan| t@);
            let item = match self.load_loan(&keys[i]) {
                Ok(v) => v,
                Err(e) => {
                    proof {
                        let k = keys@[i as int]@;
                        assert(self.loans@.contains_key(k));
                    }
                    return Err(e);
                },
            };
            if true {
                out.push(item);
                proof {
                    assert(out@.map_values(|t: Loan| t@) =~= before.push(out@[out@.len() - 1]@));
                }
            }
            i = i + 1;
        }
        proof {
            assert(ks.take(keys@.len() as int) =~= ks);
            assert forall|k: Seq<char>| self.loans@.contains_key(k) <==> ks.contains(k) by {
                if self.loans@.contains_key(k) {
                    let j = choose|j: int| 0 <= j < keys@.len() && #[trigger] keys@[j]@ == k;
                    assert(ks[j] == k);
                }
                if ks.contains(k) {
                    let j = choose|j: int| 0 <= j < ks.len() && ks[j] == k;
                    assert(ks[j] == keys@[j]@);
                }
            }
            assert(ks.no_duplicates()) by {
                assert forall|a: int, b: int| 0 <= a < ks.len() && 0 <= b < ks.len() && a != b implies ks[a]
                    != ks[b] by {
                    if a < b {
                        assert(keys@[a]@ != keys@[b]@);
                    } else {
                        assert(keys@[b]@ != keys@[a]@);
                    }
                }
            }
            assert(enumerates(self.loans@, ks));
        }
        Ok(out)
    }

    /// The caller's loans whose payout is under way or done.
    pub fn get_current_loans(&self, caller: &Identity) -> (r: Result<Vec<Loan>, EngineError>)
        ensures
            match r {
                Ok(v) => exists|ks: Seq<Seq<char>>|
                    enumerates(self.loans@, ks) && v@.map_values(|t: Loan| t@) == loans_where(
                        self.loans@,
                        ks,
                        |x: LoanView| x.borrower == caller@ && (x.status == LoanStatus::Active || x.status == LoanStatus::TransferPending || x.status == LoanStatus::TransferFailed),
                    ),
                Err(EngineError::Corrupt(e)) => exists|k: Seq<char>|
                    self.loans@.contains_key(k) && (parse_loan(self.loans@[k]) matches Err(x) && x == e),
                Err(_) => false,
            },
    {
        let keys = self.loans.keys();
        let ghost ks = keys@.map_values(|k: String| k@);
        let ghost keep = |x: LoanView| x.borrower == caller@ && (x.status == LoanStatus::Active || x.status == LoanStatus::TransferPending || x.status == LoanStatus::TransferFailed);
        let mut out: Vec<Loan> = Vec::new();
        let mut i: usize = 0;
        while i < keys.len()
            invariant
                i <= keys@.len(),
                ks == keys@.map_values(|k: String| k@),
                keep == (|x: LoanView| x.borrower == caller@ && (x.status == LoanStatus::Active || x.status == LoanStatus::TransferPending || x.status == LoanStatus::TransferFailed)),
                forall|k: int| 0 <= k < keys@.len() ==> self.loans@.contains_key(#[trigger] keys@[k]@),
                out@.map_values(|t: Loan| t@) == loans_where(self.loans@, ks.take(i as int), keep),
            decreases keys@.len() - i,
        {
            proof {
                assert(ks.take(i + 1).drop_last() =~= ks.take(i as int));
                assert(ks.take(i + 1).last() == keys@[i as int]@);
            }
            let ghost before = out@.map_values(|t: Loan| t@);
            let item = match self.load_loan(&keys[i]) {
                Ok(v) => v,
                Err(e) => {
                    proof {
                        let k = keys@[i as int]@;
                        assert(self.loans@.contains_key(k));
                    }
                    return Err(e);
                },
            };
            if item.borrower.same_as(caller) && (item.status == LoanStatus::Active || item.status == LoanStatus::TransferPending || item.status == LoanStatus::TransferFailed) {
                out.push(item);
                proof {
                    assert(out@.map_values(|t: Loan| t@) =~= before.push(out@[out@.len() - 1]@));
                }
            }
            i = i + 1;
        }
        proof {
            assert(ks.take(keys@.len() as int) =~= ks);
            assert forall|k: Seq<char>| self.loans@.contains_key(k) <==> ks.contains(k) by {
                if self.loans@.contains_key(k) {
                    let j = choose|j: int| 0 <= j < keys@.len() && #[trigger] keys@[j]@ == k;
                    assert(ks[j] == k);
                }
                if ks.contains(k) {
                    let j = choose|j: int| 0 <= j < ks.len() && ks[j] == k;
                    assert(ks[j] == keys@[j]@);
                }
            }
            assert(ks.no_duplicates()) by {
                assert forall|a: int, b: int| 0 <= a < ks.len() && 0 <= b < ks.len() && a != b implies ks[a]
                    != ks[b] by {
                    if a < b {
                        assert(keys@[a]@ != keys@[b]@);
                    } else {
                        assert(keys@[b]@ != keys@[a]@);
                    }
                }
            }
            assert(enumerates(self.loans@, ks));
        }
        Ok(out)
    }

    /// The mappings that the caller created.
    pub fn get_my_cargox_mappings(&self, caller: &Identity) -> (r: Result<Vec<CargoXMapping>, EngineError>)
        ensures
            match r {
                Ok(v) => exists|ks: Seq<Seq<char>>|
                    enumerates(self.mappings@, ks) && v@.map_values(|t: CargoXMapping| t@) == mappings_where(
                        self.mappings@,
                        ks,
                        |x: CargoXMappingView| x.owner == caller@,
                    ),
                Err(EngineError::Corrupt(e)) => exists|k: Seq<char>|
                    self.mappings@.contains_key(k) && (parse_mapping(self.mappings@[k]) matches Err(x) && x == e),
                Err(_) => false,
            },
    {
        let keys = self.mappings.keys();
        let ghost ks = keys@.map_values(|k: String| k@);
        let ghost keep = |x: CargoXMappingView| x.owner == caller@;
        let mut out: Vec<CargoXMapping> = Vec::new();
        let mut i: usize = 0;
        while i < keys.len()
            invariant
                i <= keys@.len(),
                ks == keys@.map_values(|k: String| k@),
                keep == (|x: CargoXMappingView| x.owner == caller@),
                forall|k: int| 0 <= k < keys@.len() ==> self.mappings@.contains_key(#[trigger] keys@[k]@),
                out@.map_values(|t: CargoXMapping| t@) == mappings_where(self.mappings@, ks.take(i as int), keep),
            decreases keys@.len() - i,
        {
            proof {
                assert(ks.take(i + 1).drop_last() =~= ks.take(i as int));
                assert(ks.take(i + 1).last() == keys@[i as int]@);
            }
            let ghost before = out@.map_values(|t: CargoXMapping| t@);
            let item = match self.load_mapping(&keys[i]) {
                Ok(v) => v,
                Err(e) => {
                    proof {
                        let k = keys@[i as int]@;
                        assert(self.mappings@.contains_key(k));
                    }
                    return Err(e);
                },
            };
            if item.owner.same_as(caller) {
                out.push(item);
                proof {
                    assert(out@.map_values(|t: CargoXMapping| t@) =~= before.push(out@[out@.len() - 1]@));
                }
            }
            i = i + 1;
        }
        proof {
            assert(ks.take(keys@.len() as int) =~= ks);
            assert forall|k: Seq<char>| self.mappings@.contains_key(k) <==> ks.contains(k) by {
                if self.mappings@.contains_key(k) {
                    let j = choose|j: int| 0 <= j < keys@.len() && #[trigger] keys@[j]@ == k;
                    assert(ks[j] == k);
                }
                if ks.contains(k) {
                    let j = choose|j: int| 0 <= j < ks.len() && ks[j] == k;
                    assert(ks[j] == keys@[j]@);
                }
            }
            assert(ks.no_duplicates()) by {
                assert forall|a: int, b: int| 0 <= a < ks.len() && 0 <= b < ks.len() && a != b implies ks[a]
                    != ks[b] by {
                    if a < b {
                        assert(keys@[a]@ != keys@[b]@);
                    } else {
                        assert(keys@[b]@ != keys@[a]@);
                    }
                }
            }
            assert(enumerates(self.mappings@, ks));
        }
        Ok(out)
    }

    /// Every mapping.
    pub fn get_all_cargox_mappings(&self) -> (r: Result<Vec<CargoXMapping>, EngineError>)
        ensures
            match r {
                Ok(v) => exists|ks: Seq<Seq<char>>|
                    enumerates(self.mappings@, ks) && v@.map_values(|t: CargoXMapping| t@) == mappings_where(
                        self.mappings@,
                        ks,
                        |x: CargoXMappingView| true,
                    ),
                Err(EngineError::Corrupt(e)) => exists|k: Seq<char>|
                    self.mappings@.contains_key(k) && (parse_mapping(self.mappings@[k]) matches Err(x) && x == e),
                Err(_) => false,
            },
    {
        let keys = self.mappings.keys();
        let ghost ks = keys@.map_values(|k: String| k@);
        let ghost keep = |x: CargoXMappingView| true;
        let mut out: Vec<CargoXMapping> = Vec::new();
        let mut i: usize = 0;
        while i < keys.len()
            invariant
                i <= keys@.len(),
                ks == keys@.map_values(|k: String| k@),
                keep == (|x: CargoXMappingView| true),
                forall|k: int| 0 <= k < keys@.len() ==> self.mappings@.contains_key(#[trigger] keys@[k]@),
                out@.map_values(|t: CargoXMapping| t@) == mappings_where(self.mappings@, ks.take(i as int), keep),
            decreases keys@.len() - i,
        {
            proof {
                assert(ks.take(i + 1).drop_last() =~= ks.take(i as int));
                assert(ks.take(i + 1).last() == keys@[i as int]@);
            }
            let ghost before = out@.map_values(|t: CargoXMapping| t@);
            let item = match self.load_mapping(&keys[i]) {
                Ok(v) => v,
                Err(e) => {
                    proof {
                        let k = keys@[i as int]@;
                        assert(self.mappings@.contains_key(k));
                    }
                    return Err(e);
                },
            };
            if true {
                out.push(item);
                proof {
                    assert(out@.map_values(|t: CargoXMapping| t@) =~= before.push(out@[out@.len() - 1]@));
                }
            }
            i = i + 1;
        }
        proof {
            assert(ks.take(keys@.len() as int) =~= ks);
            assert forall|k: Seq<char>| self.mappings@.contains_key(k) <==> ks.contains(k) by {
                if self.mappings@.contains_key(k) {
                    let j = choose|j: int| 0 <= j < keys@.len() && #[trigger] keys@[j]@ == k;
                    assert(ks[j] == k);
                }
                if ks.contains(k) {
                    let j = choose|j: int| 0 <= j < ks.len() && ks[j] == k;
                    assert(ks[j] == keys@[j]@);
                }
            }
            assert(ks.no_duplicates()) by {
                assert forall|a: int, b: int| 0 <= a < ks.len() && 0 <= b < ks.len() && a != b implies ks[a]
                    != ks[b] by {
                    if a < b {
                        assert(keys@[a]@ != keys@[b]@);
                    } else {
                        assert(keys@[b]@ != keys@[a]@);
                    }
                }
            }
            assert(enumerates(self.mappings@, ks));
        }
        Ok(out)
    }

    /// Every customs verification.
    pub fn get_all_customs_verifications(&self) -> (r: Result<Vec<CustomsVerification>, EngineError>)
        ensures
            match r {
                Ok(v) => exists|ks: Seq<Seq<char>>|
                    enumerates(self.verifications@, ks) && v@.map_values(|t: CustomsVerification| t@) == verifications_where(
                        self.verifications@,
                        ks,
                        |x: CustomsVerificationView| true,
                    ),
                Err(EngineError::Corrupt(e)) => exists|k: Seq<char>|
                    self.verifications@.contains_key(k) && (parse_verification(self.verifications@[k]) matches Err(x) && x == e),
                Err(_) => false,
            },
    {
        let keys = self.verifications.keys();
        let ghost ks = keys@.map_values(|k: String| k@);
        let ghost keep = |x: CustomsVerificationView| true;
        let mut out: Vec<CustomsVerification> = Vec::new();
        let mut i: usize = 0;
        while i < keys.len()
            invariant
                i <= keys@.len(),
                ks == keys@.map_values(|k: String| k@),
                keep == (|x: CustomsVerificationView| true),
                forall|k: int| 0 <= k < keys@.len() ==> self.verifications@.contains_key(#[trigger] keys@[k]@),
                out@.map_values(|t: CustomsVerification| t@) == verifications_where(self.verifications@, ks.take(i as int), keep),
            decreases keys@.len() - i,
        {
            proof {
                assert(ks.take(i + 1).drop_last() =~= ks.take(i as int));
                assert(ks.take(i + 1).last() == keys@[i as int]@);
            }
            let ghost before = out@.map_values(|t: CustomsVerification| t@);
            let item = match self.load_verification(&keys[i]) {
                Ok(v) => v,
                Err(e) => {
                    proof {
                        let k = keys@[i as int]@;
                        assert(self.verifications@.contains_key(k));
                    }
                    return Err(e);
                },
            };
            if true {
                out.push(item);
                proof {
                    assert(out@.map_values(|t: CustomsVerification| t@) =~= before.push(out@[out@.len() - 1]@));
                }
            }
            i = i + 1;
        }
        proof {
            assert(ks.take(keys@.len() as int) =~= ks);
            assert forall|k: Seq<char>| self.verifications@.contains_key(k) <==> ks.contains(k) by {
                if self.verifications@.contains_key(k) {
                    let j = choose|j: int| 0 <= j < keys@.len() && #[trigger] keys@[j]@ == k;
                    assert(ks[j] == k);
                }
                if ks.contains(k) {
                    let j = choose|j: int| 0 <= j < ks.len() && ks[j] == k;
                    assert(ks[j] == keys@[j]@);
                }
            }
            assert(ks.no_duplicates()) by {
                assert forall|a: int, b: int| 0 <= a < ks.len() && 0 <= b < ks.len() && a != b implies ks[a]
                    != ks[b] by {
                    if a < b {
                        assert(keys@[a]@ != keys@[b]@);
                    } else {
                        assert(keys@[b]@ != keys@[a]@);
                    }
                }
            }
            assert(enumerates(self.verifications@, ks));
        }
        Ok(out)
    }

    /// The customs verifications still pending.
    pub fn get_pending_customs_verifications(&self) -> (r: Result<Vec<CustomsVerification>, EngineError>)
        ensures
            match r {
                Ok(v) => exists|ks: Seq<Seq<char>>|
                    enumerates(self.verifications@, ks) && v@.map_values(|t: CustomsVerification| t@) == verifications_where(
                        self.verifications@,
                        ks,
                        |x: CustomsVerificationView| x.verification_status == CustomsStatus::Pending,
                    ),
                Err(EngineError::Corrupt(e)) => exists|k: Seq<char>|
                    self.verifications@.contains_key(k) && (parse_verification(self.verifications@[k]) matches Err(x) && x == e),
                Err(_) => false,
            },
    {
        let keys = self.verifications.keys();
        let ghost ks = keys@.map_values(|k: String| k@);
        let ghost keep = |x: CustomsVerificationView| x.verification_status == CustomsStatus::Pending;
        let mut out: Vec<CustomsVerification> = Vec::new();
        let mut i: usize = 0;
        while i < keys.len()
            invariant
                i <= keys@.len(),
                ks == keys@.map_values(|k: String| k@),
                keep == (|x: CustomsVerificationView| x.verification_status == CustomsStatus::Pending),
                forall|k: int| 0 <= k < keys@.len() ==> self.verifications@.contains_key(#[trigger] keys@[k]@),
                out@.map_values(|t: CustomsVerification| t@) == verifications_where(self.verifications@, ks.take(i as int), keep),
            decreases keys@.len() - i,
        {
            proof {
                assert(ks.take(i + 1).drop_last() =~= ks.take(i as int));
                assert(ks.take(i + 1).last() == keys@[i as int]@);
            }
            let ghost before = out@.map_values(|t: CustomsVerification| t@);
            let item = match self.load_verification(&keys[i]) {
                Ok(v) => v,
                Err(e) => {
                    proof {
                        let k = keys@[i as int]@;
                        assert(self.verifications@.contains_key(k));
                    }
                    return Err(e);
                },
            };
            if item.verification_status == CustomsStatus::Pending {
                out.push(item);
                proof {
                    assert(out@.map_values(|t: CustomsVerification| t@) =~= before.push(out@[out@.len() - 1]@));
                }
            }
            i = i + 1;
        }
        proof {
            assert(ks.take(keys@.len() as int) =~= ks);
            assert forall|k: Seq<char>| self.verifications@.contains_key(k) <==> ks.contains(k) by {
                if self.verifications@.contains_key(k) {
                    let j = choose|j: int| 0 <= j < keys@.len() && #[trigger] keys@[j]@ == k;
                    assert(ks[j] == k);
                }
                if ks.contains(k) {
                    let j = choose|j: int| 0 <= j < ks.len() && ks[j] == k;
                    assert(ks[j] == keys@[j]@);
                }
            }
            assert(ks.no_duplicates()) by {
                assert forall|a: int, b: int| 0 <= a < ks.len() && 0 <= b < ks.len() && a != b implies ks[a]
                    != ks[b] by {
                    if a < b {
                        assert(keys@[a]@ != keys@[b]@);
                    } else {
                        assert(keys@[b]@ != keys@[a]@);
                    }
                }
            }
            assert(enumerates(self.verifications@, ks));
        }
        Ok(out)
    }

    /// The first loan, as the map enumerates its keys, of the caller whose payout is under way or done.
    pub fn get_active_loan(&self, caller: &Identity) -> (r: Result<Option<Loan>, EngineError>)
        ensures
            match r {
                Ok(o) => exists|ks: Seq<Seq<char>>|
                    enumerates(self.loans@, ks) && ({
                        let found = loans_where(self.loans@, ks, |x: LoanView| x.borrower == caller@ && (x.status == LoanStatus::Active || x.status == LoanStatus::TransferPending || x.status == LoanStatus::TransferFailed));
                        match o {
                            Some(v) => found.len() > 0 && v@ == found[0],
                            None => found.len() == 0,
                        }
                    }),
                Err(EngineError::Corrupt(e)) => exists|k: Seq<char>|
                    self.loans@.contains_key(k) && (parse_loan(self.loans@[k]) matches Err(x) && x == e),
                Err(_) => false,
            },
    {
        let mut found = match self.get_current_loans(caller) {
            Ok(v) => v,
            Err(e) => return Err(e),
        };
        if found.len() == 0 {
            return Ok(None);
        }
        let ghost views = found@.map_values(|t: Loan| t@);
        let v = found.swap_remove(0);
        proof {
            assert(views[0] == v@);
        }
        Ok(Some(v))
    }

    /// The first document, as the map enumerates its keys, that refers to the asset hash.
    pub fn get_document_by_nft_hash(&self, nft_hash: &String) -> (r: Result<Option<Document>, EngineError>)
        ensures
            match r {
                Ok(o) => exists|ks: Seq<Seq<char>>|
                    enumerates(self.documents@, ks) && ({
                        let found = documents_where(self.documents@, ks, |x: DocumentView| x.ethereum_tx_hash == nft_hash@);
                        match o {
                            Some(v) => found.len() > 0 && v@ == found[0],
                            None => found.len() == 0,
                        }
                    }),
                Err(EngineError::Corrupt(e)) => exists|k: Seq<char>|
                    self.documents@.contains_key(k) && (parse_document(self.documents@[k]) matches Err(x) && x == e),
                Err(_) => false,
            },
    {
        let mut found = match self.get_documents_by_nft_hash(nft_hash) {
            Ok(v) => v,
            Err(e) => return Err(e),
        };
        if found.len() == 0 {
            return Ok(None);
        }
        let ghost views = found@.map_values(|t: Document| t@);
        let v = found.swap_remove(0);
        proof {
            assert(views[0] == v@);
        }
        Ok(Some(v))
    }
}

/// Approving a document succeeds only from Pending, so approving it a second
/// time in a row is refused as a wrong-status transition.
pub proof fn lemma_approve_document_twice(m: Map<Seq<char>, Seq<u8>>, id: Seq<char>)
    requires
        document_transition(m, id, DocumentStatus::Pending, DocumentStatus::NftMinted) is Ok,
    ensures
        document_transition(
            document_transition(m, id, DocumentStatus::Pending, DocumentStatus::NftMinted)->Ok_0,
            id,
            DocumentStatus::Pending,
            DocumentStatus::NftMinted,
        ) == Err::<Map<Seq<char>, Seq<u8>>, EngineError>(EngineError::WrongStatus),
{
    let d = document_in(m, id)->Ok_0;
    lemma_parsed_document_valid(m[id]);
    lemma_document_round_trip(with_document_status(d, DocumentStatus::NftMinted));
}

/// Every transition that succeeds leaves the document in its target status.
pub proof fn lemma_document_transition_target(
    m: Map<Seq<char>, Seq<u8>>,
    id: Seq<char>,
    from: DocumentStatus,
    to: DocumentStatus,
)
    requires
        document_transition(m, id, from, to) is Ok,
    ensures
        document_in(document_transition(m, id, from, to)->Ok_0, id) matches Ok(d) && d.status == to,
{
    let d = document_in(m, id)->Ok_0;
    lemma_parsed_document_valid(m[id]);
    lemma_document_round_trip(with_document_status(d, to));
}

/// Validating an allow-listed ACID number answers true and records a valid
/// validation; a text that is not nine digits is refused as a format error;
/// nine digits off the list answer false and record an invalid validation.
pub proof fn lemma_validate_acid(m: Map<Seq<char>, Seq<u8>>, acid: Seq<char>, now: u64)
    ensures
        !acid_format_ok(acid) ==> validate_acid_outcome(m, acid, now) == Err::<
            (bool, Map<Seq<char>, Seq<u8>>),
            EngineError,
        >(EngineError::InvalidAcidFormat),
        acid_format_ok(acid) ==> (validate_acid_outcome(m, acid, now) matches Ok((v, m2)) && v
            == acid_allow_list().contains(acid) && m2.contains_key(acid) && (parse_acid_validation(
            m2[acid],
        ) matches Ok(a) && a.is_valid == v && a.acid_number == acid)),
{
    if acid_format_ok(acid) {
        let rec = acid_record(acid, now);
        lemma_ascii_len(acid);
        is_ascii_chars_encode_utf8(acid);
        assert(text_ok(acid)) by {
            if encode_utf8(acid).contains(0u8) {
                let k = choose|k: int| 0 <= k < encode_utf8(acid).len() && encode_utf8(acid)[k] == 0u8;
                assert(acid[k] as u8 == 0u8);
            }
        }
        reveal_strlit("Simulated customs data");
        is_ascii_chars_encode_utf8(simulated_customs_note());
        assert(text_ok(simulated_customs_note())) by {
            let n = simulated_customs_note();
            if encode_utf8(n).contains(0u8) {
                let k = choose|k: int| 0 <= k < encode_utf8(n).len() && encode_utf8(n)[k] == 0u8;
                assert(n[k] as u8 == 0u8);
            }
        }
        crate::records::lemma_acid_validation_round_trip(rec);
    }
}

} // verus!
