//! Runtime core of a live-editable modular synthesizer: the module graph and
//! its acyclicity check, the code generator's contract, the execution worker's
//! request protocol, the state shared between threads, and the patch lifecycle.
//! Around the core stand the registry that libraries are loaded into, the
//! descriptors that module prototypes are made from, and the integer geometry
//! of the module widgets.
//!
//! Everything here is sequential and free of I/O. A host program owns the
//! threads, the channels and the lock, and calls in with plain values. Numbers
//! that the host computes in floating point are held here by their bits.

pub mod data_type;
pub mod engine;
pub mod gui;
pub mod registry;
pub mod scalar;
pub mod text;
