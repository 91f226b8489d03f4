//! Server-side assistance for an MLS delivery service: validation and
//! bookkeeping on commit and proposal messages using only public group state,
//! with a past-group-state cache for pending joiners, an exact wire codec for
//! assisted messages, and an in-memory reference storage provider.

pub mod bytes;
pub mod codec;
pub mod engine;
pub mod errors;
pub mod group;
pub mod key_packages;
pub mod memory_provider;
pub mod messages;
pub mod past_group_states;
pub mod pool;
pub mod process;
pub mod proposals;
pub mod psks;

pub use group::MlsAssistRustCrypto;
