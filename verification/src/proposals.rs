//! Proposal variants and their classification: which numeric types are
//! supported, and which proposals force a commit to carry an updated tree
//! path.

use vstd::prelude::*;

use crate::key_packages::KeyPackage;
use crate::pool::{Ciphersuite, Extension, GroupId, ProtocolVersion};
use crate::psks::PreSharedKeyId;

verus! {

/// The numeric proposal types of the protocol, 1 through 8.
#[derive(Debug, Clone, Copy, PartialEq, Eq, Structural)]
pub enum ProposalType {
    Add,
    Update,
    Remove,
    Presharedkey,
    Reinit,
    ExternalInit,
    AppAck,
    GroupContextExtensions,
}

impl ProposalType {
    /// The numeric tag of this proposal type on the wire.
    pub fn value(&self) -> (r: u16)
        ensures
            r == self.spec_value(),
    {
        match self {
            ProposalType::Add => 1,
            ProposalType::Update => 2,
            ProposalType::Remove => 3,
            ProposalType::Presharedkey => 4,
            ProposalType::Reinit => 5,
            ProposalType::ExternalInit => 6,
            ProposalType::AppAck => 7,
            ProposalType::GroupContextExtensions => 8,
        }
    }

    pub open spec fn spec_value(&self) -> u16 {
        match self {
            ProposalType::Add => 1u16,
            ProposalType::Update => 2u16,
            ProposalType::Remove => 3u16,
            ProposalType::Presharedkey => 4u16,
            ProposalType::Reinit => 5u16,
            ProposalType::ExternalInit => 6u16,
            ProposalType::AppAck => 7u16,
            ProposalType::GroupContextExtensions => 8u16,
        }
    }

    /// Check whether a proposal type is supported or not. Every type is
    /// supported except AppAck.
    pub fn is_supported(&self) -> (r: bool)
        ensures
            r == (*self != ProposalType::AppAck),
    {
        match self {
            ProposalType::Add
            | ProposalType::Update
            | ProposalType::Remove
            | ProposalType::Presharedkey
            | ProposalType::Reinit
            | ProposalType::ExternalInit => true,
            ProposalType::AppAck => false,
            ProposalType::GroupContextExtensions => true,
        }
    }

    /// Decode a numeric proposal type. Succeeds exactly on the values 1
    /// through 8.
    pub fn try_from(value: u16) -> (r: Result<Self, &'static str>)
        ensures
            1 <= value <= 8 ==> (r matches Ok(t) && t.spec_value() == value),
            !(1 <= value <= 8) ==> r is Err,
    {
        match value {
            1 => Ok(ProposalType::Add),
            2 => Ok(ProposalType::Update),
            3 => Ok(ProposalType::Remove),
            4 => Ok(ProposalType::Presharedkey),
            5 => Ok(ProposalType::Reinit),
            6 => Ok(ProposalType::ExternalInit),
            7 => Ok(ProposalType::AppAck),
            8 => Ok(ProposalType::GroupContextExtensions),
            _ => Err("Unknown proposal type."),
        }
    }
}

/// Add Proposal.
///
/// An Add proposal requests that a client with a specified KeyPackage be
/// added to the group.
#[derive(Debug, Clone, PartialEq, Eq)]
pub struct AddProposal {
    pub key_package: KeyPackage,
}

impl AddProposal {
    pub fn new(key_package: KeyPackage) -> (r: Self)
        ensures
            r.key_package == key_package,
    {
        Self { key_package }
    }

    /// Returns a reference to the key package in the proposal.
    pub fn key_package(&self) -> (r: &KeyPackage)
        ensures
            r == &self.key_package,
    {
        &self.key_package
    }
}

/// Update Proposal.
///
/// An Update proposal replaces the sender's own leaf with a new KeyPackage.
#[derive(Debug, Clone, PartialEq, Eq)]
pub struct UpdateProposal {
    pub key_package: KeyPackage,
}

impl UpdateProposal {
    pub fn new(key_package: KeyPackage) -> (r: Self)
        ensures
            r.key_package == key_package,
    {
        Self { key_package }
    }

    /// Returns a reference to the key package in the proposal.
    pub fn key_package(&self) -> (r: &KeyPackage)
        ensures
            r == &self.key_package,
    {
        &self.key_package
    }
}

/// Remove Proposal.
///
/// A Remove proposal requests that the member at the given leaf index be
/// removed from the group.
#[derive(Debug, Clone, PartialEq, Eq, Structural)]
pub struct RemoveProposal {
    pub removed: u32,
}

impl RemoveProposal {
    pub fn new(removed: u32) -> (r: Self)
        ensures
            r.removed == removed,
    {
        Self { removed }
    }

    /// Returns the leaf index of the removed leaf in this proposal.
    pub fn removed(&self) -> (r: u32)
        ensures
            r == self.removed,
    {
        self.removed
    }
}

/// Preshared Key Proposal.
#[derive(Debug, Clone, PartialEq, Eq)]
pub struct PreSharedKeyProposal {
    pub psk: PreSharedKeyId,
}

impl PreSharedKeyProposal {
    /// Create a new PSK proposal.
    pub fn new(psk: PreSharedKeyId) -> (r: Self)
        ensures
            r.psk == psk,
    {
        Self { psk }
    }

    /// Returns the `PreSharedKeyId` and consumes this proposal.
    pub fn into_psk_id(self) -> (r: PreSharedKeyId)
        ensures
            r == self.psk,
    {
        self.psk
    }
}

/// ReInit proposal, used to re-initialize a group.
#[derive(Debug, Clone, PartialEq, Eq)]
pub struct ReInitProposal {
    pub group_id: GroupId,
    pub version: ProtocolVersion,
    pub ciphersuite: Ciphersuite,
    pub extensions: Vec<Extension>,
}

/// ExternalInit Proposal, used for external commits only.
#[derive(Debug, Clone, PartialEq, Eq)]
pub struct ExternalInitProposal {
    pub kem_output: Vec<u8>,
}

impl From<Vec<u8>> for ExternalInitProposal {
    fn from(kem_output: Vec<u8>) -> (r: Self) {
        Self { kem_output }
    }
}

impl vstd::std_specs::convert::FromSpecImpl<Vec<u8>> for ExternalInitProposal {
    open spec fn obeys_from_spec() -> bool {
        true
    }

    open spec fn from_spec(kem_output: Vec<u8>) -> Self {
        ExternalInitProposal { kem_output }
    }
}

/// Group Context Extensions Proposal, used to replace the list of extensions
/// in the GroupContext for the group.
#[derive(Debug, Clone, PartialEq, Eq)]
pub struct GroupContextExtensionProposal {
    pub extensions: Vec<Extension>,
}

impl GroupContextExtensionProposal {
    /// Create a new `GroupContextExtensionProposal`.
    pub fn new(extensions: Vec<Extension>) -> (r: Self)
        ensures
            r.extensions == extensions,
    {
        Self { extensions }
    }
}

/// Proposal.
///
/// This `enum` contains the different proposals in its variants.
#[derive(Debug, Clone, PartialEq, Eq)]
pub enum Proposal {
    Add(AddProposal),
    Update(UpdateProposal),
    Remove(RemoveProposal),
    PreSharedKey(PreSharedKeyProposal),
    ReInit(ReInitProposal),
    ExternalInit(ExternalInitProposal),
    GroupContextExtensions(GroupContextExtensionProposal),
}

impl Proposal {
    pub open spec fn spec_proposal_type(&self) -> ProposalType {
        match self {
            Proposal::Add(_) => ProposalType::Add,
            Proposal::Update(_) => ProposalType::Update,
            Proposal::Remove(_) => ProposalType::Remove,
            Proposal::PreSharedKey(_) => ProposalType::Presharedkey,
            Proposal::ReInit(_) => ProposalType::Reinit,
            Proposal::ExternalInit(_) => ProposalType::ExternalInit,
            Proposal::GroupContextExtensions(_) => ProposalType::GroupContextExtensions,
        }
    }

    /// The type tag of this proposal.
    pub fn proposal_type(&self) -> (r: ProposalType)
        ensures
            r == self.spec_proposal_type(),
    {
        match self {
            Proposal::Add(_) => ProposalType::Add,
            Proposal::Update(_) => ProposalType::Update,
            Proposal::Remove(_) => ProposalType::Remove,
            Proposal::PreSharedKey(_) => ProposalType::Presharedkey,
            Proposal::ReInit(_) => ProposalType::Reinit,
            Proposal::ExternalInit(_) => ProposalType::ExternalInit,
            Proposal::GroupContextExtensions(_) => ProposalType::GroupContextExtensions,
        }
    }

    /// Whether this proposal has the given type tag.
    pub fn is_type(&self, proposal_type: ProposalType) -> (r: bool)
        ensures
            r == (self.spec_proposal_type() == proposal_type),
    {
        self.proposal_type() == proposal_type
    }

    /// Indicates whether a Commit containing this proposal requires a path:
    /// false for Add, PreSharedKey and ReInit, true for Update, Remove,
    /// ExternalInit and GroupContextExtensions.
    pub fn is_path_required(&self) -> (r: bool)
        ensures
            r == match self.spec_proposal_type() {
                ProposalType::Add | ProposalType::Presharedkey | ProposalType::Reinit => false,
                _ => true,
            },
    {
        match self {
            Proposal::Add(_) | Proposal::PreSharedKey(_) | Proposal::ReInit(_) => false,
            Proposal::Update(_)
            | Proposal::Remove(_)
            | Proposal::ExternalInit(_)
            | Proposal::GroupContextExtensions(_) => true,
        }
    }
}

/// A reference to a proposal: the hash value by which a commit can name a
/// proposal instead of carrying it inline.
#[derive(Debug, Clone, PartialEq, Eq)]
pub struct ProposalRef {
    pub value: Vec<u8>,
}

/// A proposal carried inside a commit, either inline by value (wire
/// discriminant 1) or by reference (wire discriminant 2).
#[derive(Debug, Clone, PartialEq, Eq)]
pub enum ProposalOrRef {
    Proposal(Proposal),
    Reference(ProposalRef),
}

impl ProposalOrRef {
    /// The wire discriminant: 1 for an inline proposal, 2 for a reference.
    pub fn discriminant(&self) -> (r: u8)
        ensures
            r == match self {
                ProposalOrRef::Proposal(_) => 1u8,
                ProposalOrRef::Reference(_) => 2u8,
            },
    {
        match self {
            ProposalOrRef::Proposal(_) => 1,
            ProposalOrRef::Reference(_) => 2,
        }
    }
}

} // verus!
