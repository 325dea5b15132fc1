//! Type-lock verifier for a ring of Bitcoin SPV client cells.
//!
//! The library classifies a proposed transaction over the ring of SPV cells
//! (one info cell plus `clients_count` client cells), picks one operation
//! among Create, Destroy, Update and Reorg, and checks the structural rules
//! of that operation.  Header-chain checks themselves are delegated: instead
//! of calling the external header-chain verifier itself, the entry function
//! returns a [`types::Step`] naming the delegated call, and the caller feeds
//! the outcome back in.

pub mod classify;
pub mod codec;
pub mod create;
pub mod destroy;
pub mod dispatch;
pub mod entry;
pub mod error;
pub mod hashing;
pub mod laws;
pub mod reorg;
pub mod ring;
pub mod types;
pub mod update;
