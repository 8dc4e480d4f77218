//! Records of the external asset-transfer watcher: transfers it reports and
//! the document metadata fetched for them.
use vstd::prelude::*;

verus! {

/// A transfer as the off-chain watcher reports it.
#[derive(Debug)]
pub struct TransferPayload {
    pub network: String,
    pub contract: String,
    pub tx_hash: String,
    pub block_number: u64,
    pub token_id: String,
    pub from: String,
    pub to: String,
    pub log_index: u64,
}

/// A transfer of a document token, with its metadata once fetched.
#[derive(Debug)]
pub struct TransferEvent {
    pub tx_hash: String,
    pub from: String,
    pub to: String,
    pub token_id: String,
    pub block_number: u64,
    pub metadata: Option<DocumentMetadata>,
}

/// Descriptive metadata of a document token.
#[derive(Debug)]
pub struct DocumentMetadata {
    pub name: Option<String>,
    pub description: Option<String>,
    pub image: Option<String>,
    pub external_url: Option<String>,
    pub attributes: Vec<DocumentAttribute>,
    pub document_hash: Option<String>,
    pub document_type: Option<String>,
    pub issuer: Option<String>,
    pub creation_date: Option<String>,
}

/// One trait of a document token.
#[derive(Debug)]
pub struct DocumentAttribute {
    pub trait_type: String,
    pub value: String,
}

/// A document token with its current owner and latest transfer.
#[derive(Debug)]
pub struct CargoXDocument {
    pub token_id: String,
    pub owner: String,
    pub document_hash: String,
    pub document_type: String,
    pub metadata: DocumentMetadata,
    pub last_transfer: TransferEvent,
}

/// A response of the block explorer's log query.
#[derive(Debug)]
pub struct ApiResponse {
    pub status: String,
    pub message: String,
    pub result: Vec<LogEntry>,
}

/// One log entry of the block explorer's log query.
#[derive(Debug)]
pub struct LogEntry {
    pub transaction_hash: String,
    pub topics: Vec<String>,
    pub block_number: String,
}

/// The transfers reported so far, in the order they arrived.
pub struct TransferLog {
    pub transfers: Vec<TransferPayload>,
}

impl TransferLog {
    pub fn new() -> (r: TransferLog)
        ensures
            r.transfers@.len() == 0,
    {
        TransferLog { transfers: Vec::new() }
    }

    /// Appends a reported transfer.
    pub fn ingest_transfer(&mut self, payload: TransferPayload)
        ensures
            final(self).transfers@ == old(self).transfers@.push(payload),
    {
        self.transfers.push(payload);
    }

    /// The reported transfers, oldest first.
    pub fn get_transfers(&self) -> (r: &Vec<TransferPayload>)
        ensures
            r@ == self.transfers@,
    {
        &self.transfers
    }
}

} // verus!
