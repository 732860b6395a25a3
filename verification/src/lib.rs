//! Core engine of a model-profile switcher: profile documents written in
//! several historical JSON shapes are normalized into one canonical shape,
//! activated into a live settings document without touching unrelated
//! fields, and recognized again later by structural comparison.

pub mod activate;
pub mod json;
pub mod listing;
pub mod normalize;
pub mod parse;
pub mod paths;
pub mod settings;
pub mod strings;
