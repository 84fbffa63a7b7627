//! The outside crates that the library calls, one thin function per call. What
//! each of these functions promises is believed, not proved.

pub mod buffers;
pub mod digest;
pub mod http;
pub mod json;
pub mod random;
pub mod url;
