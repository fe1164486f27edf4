//! Requests to the service: what they say, how they are signed and sealed, and
//! what is done with failures.

pub mod api;
pub mod client;
pub mod crypto;
pub mod request;
pub mod session;
