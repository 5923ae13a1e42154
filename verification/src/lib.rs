//! Persistence and coordination core of a federated, Byzantine-fault-tolerant
//! transaction ledger.
//!
//! Peers of a federation order client transactions into numbered epochs, sign
//! every agreed epoch with a threshold signature and keep an append-only,
//! hash-chained history of the signed outcomes. This crate holds the rules of
//! that process: quorum arithmetic, the record schema with the bytes of its
//! keys and values, the chain verifier, the committed ledger, the vote
//! trackers, the schema migration executor and the round state machine.
//!
//! Storage, agreement, validation and signing are done by the caller. The
//! crate decides what they have come to, and every decision is stated in a
//! contract that the verifier has proved of the code.

pub mod quorum;
pub mod peers;
pub mod encoding;
pub mod crypto;
pub mod transaction;
pub mod migration;
pub mod db;
pub mod epoch;
pub mod ledger;
pub mod drop_peer;
pub mod upgrade;
pub mod canonical;
pub mod round;
pub mod records;
pub mod sets;
pub mod sequencer;
