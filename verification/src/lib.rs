//! Device-memory diagnostic core: capability probing, session and resource
//! lifecycle, and the pattern fill/readback/compare protocol that detects
//! corrupted memory cells. The driver-facing plumbing lives outside this
//! library; everything here works on plain values and is verified.

pub mod exercise;
pub mod mock;
pub mod pool;
pub mod probe;
pub mod report;
pub mod session;
pub mod tiers;
