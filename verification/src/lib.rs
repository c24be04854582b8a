//! Deprecation metadata of an HTTP response: whether the server marked the
//! resource as deprecated, since when, and where to read more about it.
//!
//! A server marks a resource as deprecated with the header field
//! `Deprecation`, whose value is the flag `true` or a date of RFC 2822, and
//! may point to more information with a `Link` header field of the relation
//! `deprecation`:
//!
//! ```text
//! Deprecation: Thu, 01 Jan 1970 00:00:00 +0000
//! Link: <https://example.com/deprecation>; rel="deprecation"; type="text/html"
//! ```
//!
//! [`ResponseExt::deprecation`] reads both from a response and returns a
//! [`Deprecation`]. A value that cannot be read costs the record a field,
//! never the record: there is one exactly where there is a `Deprecation`
//! field.
//!
//! The modules, from the bottom up:
//!
//! - [`text`]: characters, trimming and splitting;
//! - [`link`]: the grammar of a `Link` field value, and
//!   [`parse_deprecation_link`];
//! - [`timestamp`]: the value of the `Deprecation` field;
//! - [`headers`]: the header fields of a `reqwest` response;
//! - [`deprecation`]: the record and the extension of the response type;
//! - [`laws`]: what holds of all of these together.
//!
//! The contracts are proved, but for what [`headers`] and [`timestamp`] take
//! from `reqwest` and `time`, which both modules name.

pub mod deprecation;
pub mod headers;
pub mod laws;
pub mod link;
pub mod text;
pub mod timestamp;

pub use crate::deprecation::{Deprecation, ResponseExt};
pub use crate::link::parse_deprecation_link;
