//! Verified core of a small x86_64 kernel: physical frame allocation,
//! virtual page allocation, the physical-memory window, thread identities
//! and round-robin scheduling.
pub mod common;
pub mod memory;
pub mod thread;

