//! A social-graph ledger kept in fixed-capacity storage slots.
//!
//! Every user owns one slot that holds a self-describing profile record: the
//! user's texts, the set of friends, the posts with their comments and a flag
//! for the one-time credential that is earned with the fifth friend. Each
//! operation reads the record out of the slot, changes it and writes it back
//! into the same slot.
//!
//! - [`address`], [`wire`]: identities, and the elements of the record format.
//! - [`post`], [`friends`], [`book`], [`profile`]: the values of a profile and
//!   their bytes, with the proof that what was written is read back.
//! - [`instruction`]: the operations and their payloads.
//! - [`ledger`]: the operations on slots.
//! - [`bridge`]: the calls that issue the credential.
//! - [`laws`], [`truncation`]: what holds of every slot and of every cut
//!   record.

pub mod address;
pub mod book;
pub mod bridge;
pub mod error;
pub mod friends;
pub mod instruction;
pub mod laws;
pub mod ledger;
pub mod post;
pub mod profile;
pub mod truncation;
pub mod wire;

pub use crate::address::Address;
pub use crate::error::LedgerError;
pub use crate::instruction::ProfessionalNetworkingInstruction;
pub use crate::ledger::process_instruction;
pub use crate::post::{Comment, Post};
pub use crate::profile::UserProfile;
