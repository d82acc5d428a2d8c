//! How compostbin runs containers: the engine and builder traits, their models,
//! the build cache keys, and what a container framework is asked for.
pub mod attach;
pub mod builder;
pub mod cache;
pub mod collect;
pub mod engine;
pub mod error;
pub mod fake;
pub mod framework;
pub mod model;
pub mod network;
