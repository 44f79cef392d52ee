//! Batch renaming by pattern: a small pattern language is compiled into a
//! sequence of symbols, matched against names to capture fragments, and the
//! fragments are projected through a second pattern into new names.

pub mod text;
pub mod grammar;
pub mod align;
pub mod txt;
pub mod set;
pub mod capture;
pub mod anchor;
pub mod token;
pub mod engine;
pub mod matcher;
pub mod projector;
pub mod collision;
pub mod quant;
pub mod laws;
pub mod roundtrip;
