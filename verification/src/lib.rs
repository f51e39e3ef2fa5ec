//! Consensus data models of a Tari DAN validator node: blocks and their
//! identifiers, the HotStuff safety and commit rules over a state store,
//! the idle state of the consensus state machine, and a few small
//! configuration and instruction types.
pub mod block;
pub mod block_store;
pub mod block_transactions;
pub mod command;
pub mod common;
pub mod encoding;
pub mod epoch_ending;
pub mod error;
pub mod foreign_send_counters;
pub mod generators;
pub mod hash;
pub mod idle;
pub mod index_map;
pub mod instruction;
pub mod memory_store;
pub mod quorum;
pub mod state_store;
pub mod transaction;
pub mod vote;
