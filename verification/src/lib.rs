//! Shared binary layouts and the verified decision logic of the procfast
//! metrics reader.

pub mod args;
pub mod builder;
pub mod bytes;
pub mod cgroups;
pub mod client;
pub mod display;
pub mod error;
pub mod fsprobe;
pub mod irq;
pub mod lsof;
pub mod metrics;
pub mod order;
pub mod pin;
pub mod procs;
pub mod reader;
pub mod setup;
pub mod text;
pub mod types;
pub mod views;
