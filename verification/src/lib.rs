//! A terminal document pager core: the view state machine and its input
//! dispatch, case-insensitive wraparound search, the pure render
//! projection, greedy paragraph justification, and an append-only,
//! content-addressed progress log with its line-delimited record format.

pub mod codec;
pub mod config;
pub mod editor;
pub mod justify;
pub mod progress;
pub mod render;
pub mod search;
pub mod text;
pub mod tutorial;
