//! A verified model of a crowdfunding campaign contract and of the factory
//! that deploys and indexes such campaigns.
//!
//! Each contract is a state machine over its persistent storage. Its entry
//! points take the ledger time and the caller-supplied arguments, decide, and
//! hand back the token transfers and events that the host has to carry out.
//! A refused call leaves the state exactly as it was.

pub mod errors;
pub mod campaign;
pub mod factory;
pub mod laws;
pub mod salt;
pub mod history;
pub mod semantics;
