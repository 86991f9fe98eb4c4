//! Streaming denormalization of a YML/XML product feed.
//!
//! The library turns a sequence of XML events (a category tree followed by a
//! flat list of offers) into delimited rows: one row per offer, with a header
//! that is the union of the columns discovered across all offers.

pub mod events;
pub mod laws;
pub mod machine;
pub mod output;
pub mod table;
pub mod text;
