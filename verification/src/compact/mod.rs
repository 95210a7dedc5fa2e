//! The compact protocol: no login, chunks with a two-byte length, and answers of sixteen bytes.

pub mod laws;
pub mod receiver;
pub mod request;
pub mod response;
pub mod resume;
pub mod sender;
pub mod server;
pub mod size;
