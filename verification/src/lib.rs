//! Decoding and dumping of binary file headers.
//!
//! A header is described as an ordered list of fixed-width fields. The
//! [`readers`] module holds the engine that cuts such fields out of a byte
//! buffer, the functions that turn a decoded field into text, and the
//! readers for the supported file types.
pub mod readers;
