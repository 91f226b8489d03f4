//! Placeholder value types carrying the shape of the protocol's leaf-node
//! structure. They serve as proposal and tree payloads; cryptographic
//! validation of real key packages is the external protocol engine's job.

use vstd::prelude::*;

use crate::pool::Extension;

verus! {

/// The kind of credential bound to a leaf, as far as this layer reads it.
///
/// Only the delivery-service credential kind (`Infra`) exposes a verification
/// key that can be used before a new joiner's leaf is part of the tree.
#[derive(Debug, Clone, PartialEq, Eq)]
pub enum Credential {
    Infra { verifying_key: Vec<u8> },
    Basic { identity: Vec<u8> },
    X509 { certificate: Vec<u8> },
    Other { kind: u16, data: Vec<u8> },
}

/// A leaf node: the public keys, credential and signature of one member.
#[derive(Debug, Clone, PartialEq, Eq)]
pub struct LeafNode {
    pub encryption_key: Vec<u8>,
    pub signature_key: Vec<u8>,
    pub credential: Credential,
    pub extensions: Vec<Extension>,
    pub signature: Vec<u8>,
}

impl LeafNode {
    pub fn signature_key(&self) -> (r: &Vec<u8>)
        ensures
            r == &self.signature_key,
    {
        &self.signature_key
    }
}

/// A published bundle of a prospective member's public keys and capabilities,
/// referenced by Add proposals.
#[derive(Debug, Clone, PartialEq, Eq)]
pub struct KeyPackage {
    pub protocol_version: u16,
    pub ciphersuite: u16,
    pub init_key: Vec<u8>,
    pub leaf_node: LeafNode,
}

impl KeyPackage {
    pub fn leaf_node(&self) -> (r: &LeafNode)
        ensures
            r == &self.leaf_node,
    {
        &self.leaf_node
    }
}

} // verus!
