//! A gossip node's message handling: the binary framing of transaction
//! messages, the classification of received payloads, the per-peer
//! transaction ledger, duplicate suppression, the dispatch of local commands
//! and the rewriting of legacy peer addresses.
pub mod address;
pub mod codec;
pub mod ledger;
pub mod message;
pub mod node;
pub mod text;
