//! A toy peer-replicated ledger gating a two-party battleship economy:
//! players commit to a hidden fleet, earn shot credits by proof-of-work
//! mining, spend them on shots recorded in an append-only chain, and prove
//! single-cell hit or miss outcomes against their commitment.

pub mod blockchain;
pub mod coordinator;
pub mod crypto;
pub mod game;
pub mod hashing;
pub mod network;
pub mod proof_codec;
pub mod strutil;
