//! Voice packet pipeline: wire framing, per-peer jitter buffering and
//! reordering, and room based routing for a voice chat engine.
//!
//! - `wire`: the datagram layout, a little-endian sequence id and a payload.
//! - `packet`, `sort`: received packets and their ordering by sequence id.
//! - `state`: the abstract node state and the effect of each operation.
//! - `voice`: the executable node, specified against `state`.
//! - `laws`: properties that span several operations.
use vstd::prelude::*;

pub mod laws;
pub mod packet;
pub mod sort;
pub mod state;
pub mod voice;
pub mod wire;

verus! {

} // verus!
