//! Keeps a log of a machine's hostname and public IP address: a flat file of
//! `timestamp,hostname,ip` rows, to which a row is appended only when the
//! observed pair differs from the last well-formed row of the file.
//!
//! The library holds the logic: how the file's lines are read back, which
//! row counts as the last known observation, when a new row is due and how
//! it is encoded. Reading and writing the file, the network and the hostname
//! command stay with the caller, which hands plain values in.

pub mod text;
pub mod record;
pub mod resolve;
pub mod laws;
