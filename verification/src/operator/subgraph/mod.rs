//! Recursive subgraphs: a nested scope whose variables are fed back from
//! inside until nothing changes any more.

pub mod leave;
pub mod registrar;
pub mod simple_input;
pub mod stepper;
