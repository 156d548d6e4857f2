//! The durable store: jobs that have been accepted, attempts at running them,
//! and the rules that move a job from one state to the next.

pub mod adaptive;
pub mod batches;
pub mod bulk;
pub mod effects;
pub mod ingest;
pub mod laws;
pub mod options;
pub mod queues;
pub mod results;
pub mod rows;
pub mod steps;
pub mod store;
pub mod writer;
