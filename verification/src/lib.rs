//! A byte-accurate parser and serializer for the `name=value` pair of the
//! HTTP `Cookie` / `Set-Cookie` header, after RFC 6265.
//!
//! Names and values are opaque octet sequences: the library classifies and
//! delimits bytes, strips structural quotes and list whitespace, and emits
//! pairs verbatim. It never percent-decodes, percent-encodes, case-folds or
//! otherwise transcodes payload bytes, so a parsed pair serializes back to
//! the exact octets that arrived on the wire.

pub mod bytes;
pub mod cookie;
pub mod grammar;
pub mod laws;
pub mod parser;
pub mod serializer;
