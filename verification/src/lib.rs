//! Keeps the secrets of a vault encrypted for exactly the recipients of the
//! partition that they belong to.
//!
//! The library decides; reading files, talking to the OpenPGP engine and
//! printing are left to the program around it, which hands over what it
//! read and is told what to do next.
//!
//! - `vault`, `partitions`, `store`: the vault with its partitions, how a
//!   selector finds one of them, and how the tree is kept in its
//!   configuration file.
//! - `recipients`, `recipients::change`: the recipients file, and the work
//!   of adding or removing recipients and encrypting every secret anew.
//! - `resource`: the names of resources and what may be done to them.
//! - `keys`: keys and fingerprints.
//! - `error`, `notice`: what went wrong, what was done, and how both are
//!   shown.
//! - `command`, `parse`: the commands of the command line.
//! - `text`, `paths`: what all of them need of texts and paths.

pub mod command;
pub mod error;
pub mod keys;
pub mod notice;
pub mod parse;
pub mod partitions;
pub mod paths;
pub mod recipients;
pub mod resource;
pub mod store;
pub mod text;
pub mod vault;

pub use crate::error::Error;
pub use crate::vault::Vault;
