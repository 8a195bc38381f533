//! Filtering of newline-delimited JSON records by substring matches on
//! top-level fields.

pub mod text;
pub mod document;
pub mod matcher;
pub mod pipeline;
