//! Client-side protocol layer for submitting transactions to and querying a
//! remote runtime node over a streaming RPC transport.
//!
//! The crate covers the deterministic binary codec used on the wire, the
//! derivation of the chain-binding domain-separation context, the multi-signer
//! transaction assembly protocol, the translation of transport failures into a
//! typed error taxonomy, and the consensus-facing module and confidential
//! storage helpers.  Everything here is verified; the asynchronous transport
//! itself lives outside this crate and hands plain values in and out.

pub mod assemble;
pub mod chain_context;
pub mod codec;
pub mod confidential;
pub mod consensus;
pub mod errors;
pub mod requests;
pub mod status;
pub mod transaction;

pub use codec::{decode, encode, DecodeError, Value};
