//! Small protocol value types: ciphersuite and protocol-version tags, group
//! identifiers and epochs, and the extension record used inside
//! group-context-shaped structures.

use vstd::prelude::*;

verus! {

/// Numeric tag of an MLS ciphersuite.
#[derive(Debug, Clone, Copy, PartialEq, Eq, Structural)]
pub struct Ciphersuite {
    pub value: u16,
}

/// Numeric tag of an MLS protocol version.
#[derive(Debug, Clone, Copy, PartialEq, Eq, Structural)]
pub struct ProtocolVersion {
    pub value: u16,
}

/// A group-context extension: a numeric type tag and its opaque payload.
#[derive(Debug, Clone, PartialEq, Eq)]
pub struct Extension {
    pub extension_type: u16,
    pub extension_data: Vec<u8>,
}

/// Opaque protocol-level group identifier.
#[derive(Debug, Clone, PartialEq, Eq)]
pub struct GroupId {
    pub value: Vec<u8>,
}

impl GroupId {
    pub fn new(value: Vec<u8>) -> (r: Self)
        ensures
            r.value@ == value@,
    {
        Self { value }
    }

    pub fn as_slice(&self) -> (r: &[u8])
        ensures
            r@ == self.value@,
    {
        self.value.as_slice()
    }
}

/// Monotonically increasing counter identifying one version of a group's
/// shared state.
#[derive(Debug, Clone, Copy, PartialEq, Eq, Hash, Structural)]
pub struct GroupEpoch {
    pub value: u64,
}

impl GroupEpoch {
    pub fn new(value: u64) -> (r: Self)
        ensures
            r.value == value,
    {
        Self { value }
    }

    pub fn as_u64(&self) -> (r: u64)
        ensures
            r == self.value,
    {
        self.value
    }
}

} // verus!
