//! A minimal HTTP/1.1 server core: request parsing, routing and response encoding.
pub mod bytes;
pub mod response;
pub mod request;
pub mod router;
pub mod laws;
