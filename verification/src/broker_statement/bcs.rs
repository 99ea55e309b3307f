//! Statements of BCS.

pub mod parsers;
