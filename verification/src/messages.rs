//! The assisted-message family: the incoming and outgoing envelope types,
//! the assisted group-info payload that accompanies a commit, and the plain
//! summaries of message properties that the validation logic decides on.

use vstd::prelude::*;

use crate::pool::{GroupEpoch, GroupId};

verus! {

/// Why a byte sequence could not be decoded into an assisted message.
#[derive(Debug, Clone, PartialEq, Eq, Structural)]
pub enum DeserializationError {
    /// The envelope is malformed, or its body is a top-level artifact
    /// (Welcome, GroupInfo, KeyPackage) that is never valid as the primary
    /// message of an assisted message.
    InvalidMessage,
    /// The primary message is a commit but no assisted group info follows it.
    MissingGroupInfo,
}

/// The exact original byte span of the decoded protocol-message portion of an
/// incoming assisted message, kept verbatim so the bytes can be stored or
/// relayed unmodified.
#[derive(Debug, Clone, PartialEq, Eq)]
pub struct SerializedMlsMessage(pub Vec<u8>);

/// The content type of a public protocol message, as far as the assist layer
/// reads it.
#[derive(Debug, Clone, Copy, PartialEq, Eq, Structural)]
pub enum ContentTypeKind {
    Application,
    Proposal,
    Commit,
}

/// The sender of a protocol message, as far as the assist layer reads it.
#[derive(Debug, Clone, Copy, PartialEq, Eq, Structural)]
pub enum SenderKind {
    /// A current member, by leaf index.
    Member(u32),
    /// An external sender named by the group's external-senders extension.
    External,
    /// A party outside the group proposing itself for addition.
    NewMemberProposal,
    /// A party outside the group joining directly via an external commit.
    NewMemberCommit,
}

/// One current member of the group: leaf index and public keys.
#[derive(Debug, Clone, PartialEq, Eq)]
pub struct MemberInfo {
    pub index: u32,
    pub signature_key: Vec<u8>,
    pub encryption_key: Vec<u8>,
}

/// The assisted group info accompanying an incoming commit: either a full
/// signed group info carried as a nested protocol message, or the shorthand
/// that carries only a signature and the group-context extensions, letting
/// the recipient derive the rest from the commit itself.
#[derive(Debug)]
pub enum AssistedGroupInfoIn {
    Full(openmls::prelude::MlsMessageIn),
    SignatureAndExtensions(
        (
            openmls::prelude::Signature,
            openmls::extensions::Extensions<openmls::prelude::group_info::GroupInfo>,
        ),
    ),
}

/// The assisted group info attached to an outgoing commit.
#[derive(Debug)]
pub enum AssistedGroupInfo {
    Full(openmls::prelude::MlsMessageOut),
    SignatureAndExtensions(
        (
            openmls::prelude::Signature,
            openmls::extensions::Extensions<openmls::prelude::group_info::GroupInfo>,
        ),
    ),
}

/// An outgoing assisted message: a protocol message, followed by an assisted
/// group info exactly when the message is a commit.
#[derive(Debug)]
pub struct AssistedMessageOut {
    pub mls_message: openmls::prelude::MlsMessageOut,
    pub group_info_option: Option<AssistedGroupInfo>,
}

/// An incoming assisted message: the decoded protocol message, the verbatim
/// byte span it was decoded from, the optional assisted group info, and the
/// plain summaries (group id, epoch, sender, content type) that the
/// validation logic branches on.
#[derive(Debug)]
pub struct AssistedMessageIn {
    pub mls_message: openmls::prelude::ProtocolMessage,
    pub serialized_mls_message: SerializedMlsMessage,
    pub group_info_option: Option<AssistedGroupInfoIn>,
    pub suffix_len: usize,
    pub group_id: GroupId,
    pub epoch: GroupEpoch,
    pub sender_kind: Option<SenderKind>,
    pub content_type: Option<ContentTypeKind>,
}

impl AssistedMessageIn {
    /// Hand out the verbatim byte span of the primary message.
    pub fn into_serialized_mls_message(self) -> (r: SerializedMlsMessage)
        ensures
            r == self.serialized_mls_message,
    {
        self.serialized_mls_message
    }

    /// The group this message belongs to.
    pub fn group_id(&self) -> (r: &GroupId)
        ensures
            r == &self.group_id,
    {
        &self.group_id
    }

    /// The epoch this message was sent in.
    pub fn epoch(&self) -> (r: GroupEpoch)
        ensures
            r == self.epoch,
    {
        self.epoch
    }

    /// The sender, for a public message; a private message hides its sender.
    pub fn sender(&self) -> (r: Option<SenderKind>)
        ensures
            r == self.sender_kind,
    {
        self.sender_kind
    }

    /// The total encoded length this message was decoded from: the primary
    /// message span plus the assisted group-info suffix.
    pub fn tls_serialized_len(&self) -> (r: usize)
        requires
            self.serialized_mls_message.0@.len() + self.suffix_len <= usize::MAX,
        ensures
            r == self.serialized_mls_message.0@.len() + self.suffix_len,
    {
        self.serialized_mls_message.0.len() + self.suffix_len
    }
}

/// A Welcome message wrapped for transport in the generic message envelope.
#[derive(Debug, Clone)]
pub struct AssistedWelcome {
    pub welcome: openmls::prelude::Welcome,
}

} // verus!
