//! Trade-finance records, their byte codec, durable collections and the
//! document / customs / loan workflow built on them.

pub mod codec;
pub mod identity;
pub mod entities;
pub mod records;
pub mod store;
pub mod ids;
pub mod acid;
pub mod ledger;
pub mod engine;
pub mod watcher;
pub mod uri;
