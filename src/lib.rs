//! Typed HTTP/1.x header values, their wire codec, and the write-once
//! response head serializer.
pub mod text;
pub mod error;
pub mod raw;
pub mod cache_control;
pub mod connection;
pub mod header;
pub mod list;
pub mod strict_transport_security;
pub mod referer;
pub mod response;

pub use cache_control::{CacheControl, CacheDirective};
pub use connection::{Connection, ConnectionOption};
pub use error::{ParseError, WriteError};
pub use header::Header;
pub use raw::Raw;
pub use referer::Referer;
pub use response::{HttpVersion, Response, WriteState};
pub use strict_transport_security::StrictTransportSecurity;
