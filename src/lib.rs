//! A deterministic simulation substrate. Simulated nodes, each named by a
//! unique address, share one scheduler that runs their tasks in an order fixed
//! by a seed, one virtual clock, a virtual network that can lose messages and
//! be partitioned, per-node virtual filesystems, and per-node random streams.
//! An object-storage service, with the inputs of its requests, is built on
//! the same plain data.
use vstd::prelude::*;

pub mod addr;
pub mod fs;
pub mod input;
pub mod model;
pub mod net;
pub mod node;
pub mod output;
pub mod rand;
pub mod range;
pub mod s3;
pub mod sched;
pub mod text;
pub mod types;
