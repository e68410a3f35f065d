//! Certificate-attribute extraction and header projection.
//!
//! Given the raw Subject Distinguished Name string of a peer certificate and
//! the raw comma-joined Subject-Alternative-Name lists, the crate extracts the
//! well-known attributes and projects them onto a fixed set of request header
//! names.  The parsing and the projection are verified; a host integration
//! supplies the property lookup and the header sink.

pub mod config;
pub mod headers;
pub mod san;
pub mod subject;
pub mod text;
