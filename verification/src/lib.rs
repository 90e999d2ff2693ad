//! A simulation of shared-reader / exclusive-writer admission control:
//! a fixed pool of guarded resources and a fixed set of simulated
//! thread entities that repeatedly request, hold and release them.

pub mod resource_box;
pub mod threads;
