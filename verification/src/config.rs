//! Host-supplied configuration.
//!
//! The single field is carried through unchanged: no decision in this crate
//! reads it.  A host integration that deserializes its own configuration
//! format keeps a mirror type with the host's derives and converts.

use vstd::prelude::*;

verus! {

/// Inert configuration passthrough with its one string field.
#[derive(Clone, Debug)]
pub struct Config {
    pub string_property: String,
}

} // verus!
