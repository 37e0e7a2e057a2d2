//! A persistence model for the outcome of the most recent network-address
//! check: what address was last observed and when, and whether the last
//! change notification was confirmed delivered.
//!
//! The crate holds the record shape, its line-oriented text encoding, and
//! the pure half of a file-based storage backend: the backend's two
//! operations compute exactly what is written to the check file and what a
//! read of it means, while the surrounding program performs the file
//! system calls and hands the bytes back and forth.

pub mod codec;
pub mod storage;
pub mod timestamp;
