//! The UDP tracker protocol: its messages and their bytes on the wire.

pub mod request;
pub mod response;
pub mod types;
pub mod wire;
