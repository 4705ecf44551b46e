//! RootPermit protocol primitives, local broker RPC framing, command parsing
//! and recovery classification, with their contracts proved by Verus.

use vstd::prelude::*;

pub mod cbor;
pub mod cbor_laws;
pub mod map_laws;
pub mod order_laws;
pub mod field_laws;
pub mod lifecycle;
pub mod digest;
pub mod ids;
pub mod fields;
pub mod schema;
pub mod schema_laws;
pub mod broker_api;
pub mod cli;
pub mod testkit;
pub mod journal;
pub mod sealed_plan;
pub mod cose;
pub mod webauthn;
pub mod peercred;

verus! {

/// The only protocol version implemented by this crate.
pub const VERSION: u64 = 1;

} // verus!
