//! Networking: URL and HTTP message handling, reading responses, and the
//! shared error type.

pub mod bus;
pub mod dns;
pub mod http;
pub mod response;
pub mod tcp;
pub mod tls;
