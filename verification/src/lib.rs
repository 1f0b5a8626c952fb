//! A typing-practice session engine: word selection, alignment of typed text
//! against target text, per-word timing, and the action dispatch that ties
//! them together.

pub mod aligner;
pub mod corpus;
pub mod dispatch;
pub mod display;
pub mod input;
pub mod runs;
pub mod selector;
pub mod session;
pub mod store;
pub mod text;
pub mod timer;
pub mod tokens;
pub mod word;
pub mod zip;
