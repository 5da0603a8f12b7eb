//! Capture orchestration and segment-reassembly engine for a live-broadcast
//! capture farm: a resolver that turns an identity into a playable media URL
//! under retry pressure, a claim protocol that guarantees at most one active
//! capture per identity, and a segment assembler that merges partial
//! recordings of one broadcast into a single artifact.

pub mod assembler;
pub mod claims;
pub mod ids;
pub mod orchestrate;
pub mod resolver;
pub mod text;
pub mod timefmt;
pub mod worker;
