//! A typed `If-Unmodified-Since` header: a point in time bound to one header
//! name, read from and written to a header collection in HTTP-date form.

pub mod conditional;
pub mod error;
pub mod headers;
pub mod http_date;
pub mod timestamp;
