//! Discovery of candidate network endpoints ("nodes") in loosely structured
//! text: URL extraction, a multi-format parsing dispatcher, and the pure
//! decision logic of a four-stage probing pipeline.

pub mod config;
pub mod dedup;
pub mod digits;
pub mod dispatch;
pub mod extract;
pub mod limit;
pub mod models;
pub mod parsers;
pub mod probe;
pub mod scan;
pub mod text;
pub mod trusted;
