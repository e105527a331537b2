//! The 7-Zip engine: carried inside the program, checked file by file before it is
//! used.

pub mod bundle;
pub mod embed;
pub mod release;
pub mod resolve;
pub mod sha256;
