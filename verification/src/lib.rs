//! Cross-tier resolution and decode pipeline: resolves a transaction on the
//! source chain, locates the archived copy of its block on the archive
//! network, decodes that copy, and reconciles the two payloads.

pub mod arweave;
pub mod arweave_gql;
pub mod codec;
pub mod getters;
pub mod hex;
pub mod rlp;
pub mod schemas;
pub mod tx;
pub mod wvm_client;
