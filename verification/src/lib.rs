//! Core of a binary-executable viewer: a hex-dump row engine with run
//! compression and pagination, and a header offset resolver that turns
//! decoded header fields into display rows with file-relative offsets.

pub mod decode;
pub mod dump;
pub mod header;
pub mod hex;
pub mod pe;
