//! A verified core for declarative hardware register access.
//!
//! A driver author describes a device's register map as data: per register an
//! address, a byte size, an access mode and a list of bit fields, each field
//! with its own bit range and access mode.  From that description this crate
//! derives a family of `read` / `write` / `modify` operations whose legality
//! (no write to a read-only register, no read of a write-only one) is enforced
//! at verification time, and whose bit packing obeys proved round-trip and
//! framing laws.

pub mod access;
pub mod accessor;
pub mod codec;
pub mod error;
pub mod interface;
pub mod laws;
pub mod schema;
pub mod value;
