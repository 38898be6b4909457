//! Search-and-render engine for a small curated knowledge base.
//!
//! A query is scored against every category and item of an immutable
//! dataset, the strong matches are ranked and classified, and the result
//! is turned into an ordered sequence of renderable pages that can be
//! browsed forward and backward through a keyed response cache.

pub mod cache;
pub mod consts;
pub mod navigate;
pub mod render;
pub mod search;
pub mod text;
