//! Format-preserving building blocks for a TOML document model: raw text
//! that is either a span of the source or owned, the spelling and the
//! surrounding decoration of each value, the key grammar, and date-times.
pub mod text;
pub mod raw_string;
pub mod repr;
pub mod value;
pub mod grammar;
pub mod key;
pub mod datetime;
