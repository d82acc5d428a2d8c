pub mod apple_container;
pub mod assistant;
pub mod cli;
pub mod doctor;
pub mod engine;
pub mod error;
pub mod host;
pub mod manifest;
pub mod paths;
pub mod report;
pub mod session;
pub mod text;
pub mod workspace;
