//! The module graph, its compilation, and the threads' shared protocol.

pub mod base;
pub mod codegen;
pub mod data_routing;
pub mod data_transfer;
pub mod julia_thread;
pub mod parts;
pub mod schedule;
