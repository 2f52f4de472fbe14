//! Client-side library for decompiling compact, versioned transactions into
//! explicit instruction lists — resolving on-chain address-lookup-table
//! references along the way — and for recompiling instruction lists back
//! into compact versioned messages over a set of lookup tables.
//!
//! The network round trips (fetching lookup-table accounts and a recent
//! blockhash, talking to the swap service) are capabilities the caller
//! supplies: the library consumes their plain-value outcomes and is verified
//! over every outcome they can produce.

pub mod compile;
pub mod config;
pub mod decompile;
pub mod errors;
pub mod keys;
pub mod laws;
pub mod lookup_table;
pub mod message;
pub mod models;

pub use decompile::DecompiledVersionedTx;
pub use errors::Error;
pub use keys::Pubkey;
pub use models::SwapMode;
