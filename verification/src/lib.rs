//! Batching, dissemination and proof-of-availability in front of a BFT
//! consensus engine.

pub mod account_address;
pub mod batch_aggregator;
pub mod batch_index;
pub mod batch_reader;
pub mod batch_store;
pub mod codec;
pub mod digest;
pub mod digest_map;
pub mod key_rotation;
pub mod messages;
pub mod network_listener;
pub mod proof_builder;
pub mod quorum_store;
pub mod types;
pub mod validator_verifier;
