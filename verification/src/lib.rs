//! Target resolution for a port scanner.
//!
//! The crate turns user-supplied target tokens (literal addresses, CIDR
//! blocks, host names, files of tokens) into an ordered, duplicate-free list
//! of addresses with the excluded networks removed. Everything here is
//! free of I/O: what the outside world answers (name lookups, file contents)
//! is handed in as plain values.

pub mod address;
pub mod input;
pub mod ip;
pub mod pending;
pub mod resolver;
pub mod scripts;
pub mod table;
pub mod text;
pub mod world;
