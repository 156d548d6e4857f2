//! Workers: who is connected, how much they can take, and the containers that
//! keep managed ones running.

pub mod connection;
pub mod docker;
pub mod registry;
