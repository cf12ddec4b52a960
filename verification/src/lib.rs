//! Flat `key=value` query-string encoding for structured values.
//!
//! A [`value::Value`] describes the shape of a structured datum — scalars,
//! optional presence, sequences, records, named variants — as a closed set of
//! shape tags.  [`encode::encode`] consumes such a description and produces
//! the canonical query-string: entries separated by `&`, key and value
//! separated by `=`, sequence elements comma-joined, no percent-encoding and
//! no stray separators.  [`errors::Error`] is the single error type every
//! failure is surfaced as.

pub mod encode;
pub mod errors;
pub mod laws;
pub mod model;
pub mod value;
