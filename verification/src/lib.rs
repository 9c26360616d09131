//! Turns a course feed into notification records.

pub mod cycle;
pub mod dedup;
pub mod extract;
pub mod feed;
pub mod normalize;
pub mod parse;
pub mod record;
pub mod text;
pub mod xml;
