pub mod api;
pub mod client;
pub mod config;
pub mod dispatcher;
pub mod engine;
pub mod ids;
pub mod persistence;
pub mod protocol;
pub mod single;
pub mod span;
pub mod text;
pub mod worker;
