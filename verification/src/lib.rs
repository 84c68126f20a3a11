//! A microservice-topology simulator: the topology document and its
//! model, the validator, the distribution samplers, the two-dimensional
//! call-plan executor, and the deployment materialiser, all verified.

pub mod cli;
pub mod compose;
pub mod endpoint;
pub mod executor;
pub mod json;
pub mod loadgen;
pub mod model;
pub mod pool;
pub mod ports;
pub mod rng;
pub mod sampler;
pub mod strmap;
pub mod text;
pub mod validator;
