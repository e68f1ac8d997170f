//! Error values of the collector library and of the map client.

use vstd::prelude::*;

verus! {

/// `std::io::Error`, carried through unchanged.
#[verifier::external_type_specification]
#[verifier::external_body]
pub struct ExIoError(std::io::Error);

/// Why setting up or reading a collector failed.
#[derive(Debug)]
pub enum ProcfastError {
    BpfLoad(String),
    BpfRun(String),
    Mmap(std::io::Error),
    Permission(String),
    KernelVersion { required: String, current: String },
    NotEnabled(&'static str),
    Io(std::io::Error),
    Pin(String),
    Other(String),
}

/// Why a client could not read the pinned maps.
#[derive(Debug)]
pub enum ClientError {
    /// The pin directory does not exist.
    NotRunning(String),
    /// A pinned map could not be opened: its path and the reason.
    OpenMap(String, String),
    Mmap(std::io::Error),
    Iterate(String),
    Io(std::io::Error),
}

} // verus!
