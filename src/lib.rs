//! A small HTTP/1.1 protocol layer: request parsing, path-pattern routing with
//! parameter extraction, and response encoding with gzip content negotiation.

pub mod error;
pub mod header;
pub mod method;
pub mod payload;
pub mod request;
pub mod response;
pub mod router;
pub mod status;
pub mod text;
