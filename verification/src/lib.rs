//! Configuration and training-schedule logic of a small neural-network engine:
//! choosing optimizers and losses by name, deciding when training may start,
//! shuffling sample indices once per epoch and cutting them into mini-batches.

pub mod error;
pub mod loss;
pub mod optimizer;
pub mod text;
pub mod training;
pub mod model;
