//! Transaction relay: request deduplication, announce/request/deliver
//! correlation, the serving side, and a bounded registry of connections.
pub mod ledger;
pub mod registry;
pub mod relay;
pub mod serve;
pub mod txid;
