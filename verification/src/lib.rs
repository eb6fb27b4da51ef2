//! Codec for the payloads of a cross-chain light-client handshake.
//!
//! Each handshake step is represented by one flat, immutable record made of
//! primitive fields and opaque byte blobs.  Records are built eagerly from
//! rich protocol objects, serialized into a self-describing binary container,
//! and read back lazily, field by field, by the validity-predicate side.

pub mod bundle;
pub mod duration;
pub mod error;
pub mod messages;
pub mod height;
pub mod id;
pub mod object;
pub mod wire;

use vstd::prelude::*;

verus! {

} // verus!
