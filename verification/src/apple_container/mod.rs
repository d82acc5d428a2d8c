//! The `container` command line tool: what it is called with, and what it says.
pub mod engine;
pub mod error;
pub mod fake;
pub mod model;
pub mod parse;
pub mod session;
