//! The boundary to the external MLS protocol engine: declarations of the
//! engine's types and thin trusted wrappers around the calls the assist
//! logic relies on. Every decision taken on what these calls return lives in
//! verified code elsewhere in this crate.

use vstd::prelude::*;

use openmls::prelude::{
    OpenMlsSignaturePublicKey, ProcessedMessageContent, SignaturePublicKey, Verifiable,
};
use openmls_traits::OpenMlsProvider;
use tls_codec::{DeserializeBytes, Serialize};

use crate::key_packages::Credential;
use crate::messages::{ContentTypeKind, MemberInfo, SenderKind};

verus! {

#[verifier::external_type_specification]
#[verifier::external_body]
pub struct ExPublicGroup(openmls::prelude::PublicGroup);

#[verifier::external_type_specification]
#[verifier::external_body]
pub struct ExGroupInfo(openmls::prelude::group_info::GroupInfo);

#[verifier::external_type_specification]
#[verifier::external_body]
pub struct ExVerifiableGroupInfo(openmls::prelude::group_info::VerifiableGroupInfo);

#[verifier::external_type_specification]
#[verifier::external_body]
pub struct ExProcessedMessage(openmls::prelude::ProcessedMessage);

#[verifier::external_type_specification]
#[verifier::external_body]
pub struct ExStagedCommit(openmls::prelude::StagedCommit);

#[verifier::external_type_specification]
#[verifier::external_body]
pub struct ExQueuedProposal(openmls::prelude::QueuedProposal);

#[verifier::external_type_specification]
#[verifier::external_body]
pub struct ExGroupContext(openmls::prelude::GroupContext);

#[verifier::external_type_specification]
#[verifier::external_body]
pub struct ExConfirmationTag(openmls::prelude::ConfirmationTag);

#[verifier::external_type_specification]
#[verifier::external_body]
pub struct ExRatchetTree(openmls::treesync::RatchetTree);

#[verifier::external_type_specification]
#[verifier::external_body]
pub struct ExRatchetTreeIn(openmls::prelude::RatchetTreeIn);

#[verifier::external_type_specification]
#[verifier::external_body]
pub struct ExProtocolMessage(openmls::prelude::ProtocolMessage);

#[verifier::external_type_specification]
#[verifier::external_body]
pub struct ExMlsMessageIn(openmls::prelude::MlsMessageIn);

#[verifier::external_type_specification]
#[verifier::external_body]
pub struct ExMlsMessageOut(openmls::prelude::MlsMessageOut);

#[verifier::external_type_specification]
#[verifier::external_body]
pub struct ExPublicMessageIn(openmls::prelude::PublicMessageIn);

#[verifier::external_type_specification]
#[verifier::external_body]
pub struct ExPrivateMessageIn(openmls::prelude::PrivateMessageIn);

#[verifier::external_type_specification]
#[verifier::external_body]
pub struct ExKeyPackageIn(openmls::prelude::KeyPackageIn);

#[verifier::external_type_specification]
#[verifier::external_body]
pub struct ExWelcome(openmls::prelude::Welcome);

#[verifier::external_type_specification]
#[verifier::external_body]
pub struct ExSignature(openmls::prelude::Signature);

#[verifier::external_type_specification]
#[verifier::external_body]
#[verifier::reject_recursive_types(T)]
pub struct ExExtensions<T>(openmls::extensions::Extensions<T>);

#[verifier::external_type_specification]
#[verifier::external_body]
pub struct ExOpenMlsRustCrypto(openmls_rust_crypto::OpenMlsRustCrypto);

#[verifier::external_type_specification]
#[verifier::external_body]
pub struct ExRustCrypto(openmls_rust_crypto::RustCrypto);

/// The outcome of handing a message to the engine's processor, with the one
/// variant the assist layer treats specially told apart.
#[derive(Debug)]
pub enum EngineProcessError {
    /// The engine refused the message's wire format for this group.
    IncompatibleWireFormat,
    /// Any other processing failure, rendered as text.
    Other(String),
}

/// The decoded body of a generic message envelope, told apart by kind.
#[derive(Debug)]
pub enum MessageBodyKind {
    Public(Box<openmls::prelude::PublicMessageIn>),
    Private(openmls::prelude::PrivateMessageIn),
    Welcome(openmls::prelude::Welcome),
    GroupInfo(openmls::prelude::group_info::VerifiableGroupInfo),
    KeyPackage(openmls::prelude::KeyPackageIn),
}

/// The content of a processed message, told apart by kind.
#[derive(Debug)]
pub enum ProcessedContentKind {
    Application,
    Proposal(Box<openmls::prelude::QueuedProposal>),
    ExternalJoinProposal(Box<openmls::prelude::QueuedProposal>),
    Commit(Box<openmls::prelude::StagedCommit>),
    /// A message the engine recognized as this client's own, fanned back by
    /// the delivery service.
    OwnMessage,
}

/// A fresh default engine provider (crypto, randomness and the engine's own
/// key store). Relies on `OpenMlsRustCrypto::default`.
#[verifier::external_body]
pub fn fresh_engine_provider() -> openmls_rust_crypto::OpenMlsRustCrypto {
    openmls_rust_crypto::OpenMlsRustCrypto::default()
}

/// Relies on `OpenMlsProvider::crypto` of `OpenMlsRustCrypto`.
#[verifier::external_body]
pub fn provider_crypto(
    provider: &openmls_rust_crypto::OpenMlsRustCrypto,
) -> &openmls_rust_crypto::RustCrypto {
    provider.crypto()
}

/// Relies on `OpenMlsProvider::rand` of `OpenMlsRustCrypto`.
#[verifier::external_body]
pub fn provider_rand(
    provider: &openmls_rust_crypto::OpenMlsRustCrypto,
) -> &openmls_rust_crypto::RustCrypto {
    provider.rand()
}

/// Relies on `PublicGroup::from_external`: builds the public tree from an
/// exported ratchet tree, verifying tree hash and structure against the
/// verifiable group info, and persists it through the provider's storage.
#[verifier::external_body]
pub fn pg_from_external(
    provider: &openmls_rust_crypto::OpenMlsRustCrypto,
    ratchet_tree: openmls::prelude::RatchetTreeIn,
    verifiable_group_info: openmls::prelude::group_info::VerifiableGroupInfo,
) -> Result<(openmls::prelude::PublicGroup, openmls::prelude::group_info::GroupInfo), String> {
    openmls::prelude::PublicGroup::from_external(
        provider.crypto(),
        provider.storage(),
        ratchet_tree,
        verifiable_group_info,
        openmls::group::ProposalStore::default(),
    ).map_err(|e| format!("{e:?}"))
}

/// Relies on `PublicGroup::process_message`: syntactic and semantic
/// validation of an incoming protocol message against the current tree.
#[verifier::external_body]
pub fn pg_process_message(
    pg: &openmls::prelude::PublicGroup,
    provider: &openmls_rust_crypto::OpenMlsRustCrypto,
    message: openmls::prelude::ProtocolMessage,
) -> Result<openmls::prelude::ProcessedMessage, EngineProcessError> {
    pg.process_message(provider.crypto(), message).map_err(|e| match e {
        openmls::group::PublicProcessMessageError::IncompatibleWireFormat => {
            EngineProcessError::IncompatibleWireFormat
        },
        other => EngineProcessError::Other(format!("{other:?}")),
    })
}

/// Relies on `PublicGroup::merge_commit`: merges a staged commit into the
/// tree and persists the result through the provider's storage.
#[verifier::external_body]
pub fn pg_merge_commit(
    pg: &mut openmls::prelude::PublicGroup,
    provider: &openmls_rust_crypto::OpenMlsRustCrypto,
    staged_commit: Box<openmls::prelude::StagedCommit>,
) -> Result<(), String> {
    pg.merge_commit(provider.storage(), *staged_commit).map_err(|e| format!("{e:?}"))
}

/// Relies on `PublicGroup::add_proposal`: records a queued proposal in the
/// group's proposal store and persists it.
#[verifier::external_body]
pub fn pg_add_proposal(
    pg: &mut openmls::prelude::PublicGroup,
    provider: &openmls_rust_crypto::OpenMlsRustCrypto,
    proposal: Box<openmls::prelude::QueuedProposal>,
) -> Result<(), String> {
    pg.add_proposal(provider.storage(), *proposal).map_err(|e| format!("{e:?}"))
}

/// Relies on `PublicGroup::export_ratchet_tree`.
#[verifier::external_body]
pub fn pg_export_ratchet_tree(
    pg: &openmls::prelude::PublicGroup,
) -> openmls::treesync::RatchetTree {
    pg.export_ratchet_tree()
}

/// Relies on `RatchetTree`'s TLS serialization, a function of the tree alone.
#[verifier::external_body]
pub fn ratchet_tree_to_bytes(tree: &openmls::treesync::RatchetTree) -> Result<Vec<u8>, String> {
    tree.tls_serialize_detached().map_err(|e| format!("{e:?}"))
}

/// Relies on `GroupContext::epoch` and `GroupEpoch::as_u64` through
/// `PublicGroup::group_context`.
#[verifier::external_body]
pub fn pg_epoch(pg: &openmls::prelude::PublicGroup) -> u64 {
    pg.group_context().epoch().as_u64()
}

/// Relies on `PublicGroup::group_id` and `GroupId::to_vec`.
#[verifier::external_body]
pub fn pg_group_id(pg: &openmls::prelude::PublicGroup) -> Vec<u8> {
    pg.group_id().to_vec()
}

/// Relies on `PublicGroup::members`: the current full leaves, each reduced to
/// its leaf index and public keys.
#[verifier::external_body]
pub fn pg_members(pg: &openmls::prelude::PublicGroup) -> Vec<MemberInfo> {
    pg.members().map(
        |m| MemberInfo {
            index: m.index.u32(),
            signature_key: m.signature_key,
            encryption_key: m.encryption_key,
        },
    ).collect()
}

/// Relies on `PublicGroup::ext_commit_sender_index`: the leftmost tree slot
/// free after the commit's own remove proposals, where an external committer
/// will sit.
#[verifier::external_body]
pub fn pg_ext_commit_sender_index(
    pg: &openmls::prelude::PublicGroup,
    staged_commit: &openmls::prelude::StagedCommit,
) -> Result<u32, String> {
    pg.ext_commit_sender_index(staged_commit).map(|i| i.u32()).map_err(|e| format!("{e:?}"))
}

/// Relies on `ProcessedMessage::sender`, with each sender kind told apart.
#[verifier::external_body]
pub fn processed_message_sender_kind(pm: &openmls::prelude::ProcessedMessage) -> SenderKind {
    match pm.sender() {
        openmls::prelude::Sender::Member(i) => SenderKind::Member(i.u32()),
        openmls::prelude::Sender::External(_) => SenderKind::External,
        openmls::prelude::Sender::NewMemberProposal => SenderKind::NewMemberProposal,
        openmls::prelude::Sender::NewMemberCommit => SenderKind::NewMemberCommit,
    }
}

/// Relies on `ProcessedMessage::credential`, with each credential kind told
/// apart; the serialized credential content is carried along. The engine
/// linked here has no delivery-service credential kind in its vocabulary, so
/// this conversion never produces [`Credential::Infra`]; the external-join
/// resolution logic still covers that kind for engines that carry it.
#[verifier::external_body]
pub fn processed_message_credential_kind(pm: &openmls::prelude::ProcessedMessage) -> Credential {
    let credential = pm.credential();
    let data = credential.serialized_content().to_vec();
    match credential.credential_type() {
        openmls::prelude::CredentialType::Basic => Credential::Basic { identity: data },
        openmls::prelude::CredentialType::X509 => Credential::X509 { certificate: data },
        openmls::prelude::CredentialType::Grease(kind) => Credential::Other { kind, data },
        openmls::prelude::CredentialType::Other(kind) => Credential::Other { kind, data },
    }
}

/// Relies on `ProcessedMessage::into_content`, with each content kind told
/// apart.
#[verifier::external_body]
pub fn processed_message_into_content(
    pm: openmls::prelude::ProcessedMessage,
) -> ProcessedContentKind {
    match pm.into_content() {
        ProcessedMessageContent::ApplicationMessage(_) => ProcessedContentKind::Application,
        ProcessedMessageContent::ProposalMessage(p) => ProcessedContentKind::Proposal(p),
        ProcessedMessageContent::ExternalJoinProposalMessage(p) => {
            ProcessedContentKind::ExternalJoinProposal(p)
        },
        ProcessedMessageContent::StagedCommitMessage(c) => ProcessedContentKind::Commit(c),
        ProcessedMessageContent::OwnPendingCommit => ProcessedContentKind::OwnMessage,
        ProcessedMessageContent::OwnPrivateMessage => ProcessedContentKind::OwnMessage,
    }
}

/// Relies on `ProcessedMessage::content`: the staged commit carried by a
/// processed commit message, if that is what the content is.
#[verifier::external_body]
pub fn processed_message_staged_commit<'a>(
    pm: &'a openmls::prelude::ProcessedMessage,
) -> Option<&'a openmls::prelude::StagedCommit> {
    match pm.content() {
        openmls::prelude::ProcessedMessageContent::StagedCommitMessage(c) => Some(c),
        _ => None,
    }
}

/// Relies on `PublicMessageIn::content_type`, with each content kind told
/// apart.
#[verifier::external_body]
pub fn public_message_content_type(pm: &openmls::prelude::PublicMessageIn) -> ContentTypeKind {
    match pm.content_type() {
        openmls::prelude::ContentType::Application => ContentTypeKind::Application,
        openmls::prelude::ContentType::Proposal => ContentTypeKind::Proposal,
        openmls::prelude::ContentType::Commit => ContentTypeKind::Commit,
    }
}

/// Relies on `PublicMessageIn::sender`, with each sender kind told apart.
#[verifier::external_body]
pub fn public_message_sender_kind(pm: &openmls::prelude::PublicMessageIn) -> SenderKind {
    match pm.sender() {
        openmls::prelude::Sender::Member(i) => SenderKind::Member(i.u32()),
        openmls::prelude::Sender::External(_) => SenderKind::External,
        openmls::prelude::Sender::NewMemberProposal => SenderKind::NewMemberProposal,
        openmls::prelude::Sender::NewMemberCommit => SenderKind::NewMemberCommit,
    }
}

/// Relies on `PublicMessageIn::confirmation_tag`: the tag carried by a public
/// message, absent for private messages and untagged content.
#[verifier::external_body]
pub fn protocol_message_confirmation_tag(
    pm: &openmls::prelude::ProtocolMessage,
) -> Option<openmls::prelude::ConfirmationTag> {
    match pm {
        openmls::prelude::ProtocolMessage::PublicMessage(p) => p.confirmation_tag().cloned(),
        openmls::prelude::ProtocolMessage::PrivateMessage(_) => None,
    }
}

/// Relies on `ProtocolMessage::group_id` and `GroupId::to_vec`.
#[verifier::external_body]
pub fn protocol_message_group_id(pm: &openmls::prelude::ProtocolMessage) -> Vec<u8> {
    pm.group_id().to_vec()
}

/// Relies on `ProtocolMessage::epoch` and `GroupEpoch::as_u64`.
#[verifier::external_body]
pub fn protocol_message_epoch(pm: &openmls::prelude::ProtocolMessage) -> u64 {
    pm.epoch().as_u64()
}

/// Relies on `From<PublicMessageIn> for ProtocolMessage`.
#[verifier::external_body]
pub fn protocol_from_public(
    pm: Box<openmls::prelude::PublicMessageIn>,
) -> openmls::prelude::ProtocolMessage {
    openmls::prelude::ProtocolMessage::PublicMessage(pm)
}

/// Relies on `From<PrivateMessageIn> for ProtocolMessage`.
#[verifier::external_body]
pub fn protocol_from_private(
    pm: openmls::prelude::PrivateMessageIn,
) -> openmls::prelude::ProtocolMessage {
    openmls::prelude::ProtocolMessage::PrivateMessage(pm)
}

/// Relies on `StagedCommit::add_proposals`: the signature public key of each
/// leaf proposed for addition, in proposal order.
#[verifier::external_body]
pub fn staged_commit_add_joiner_keys(sc: &openmls::prelude::StagedCommit) -> Vec<Vec<u8>> {
    sc.add_proposals().map(
        |p| p.add_proposal().key_package().leaf_node().signature_key().as_slice().to_vec(),
    ).collect()
}

/// Relies on `StagedCommit::remove_proposals`: the removed leaf index of each
/// remove proposal, in proposal order.
#[verifier::external_body]
pub fn staged_commit_removed_indices(sc: &openmls::prelude::StagedCommit) -> Vec<u32> {
    sc.remove_proposals().map(|p| p.remove_proposal().removed().u32()).collect()
}

/// Relies on `StagedCommit::update_proposals`: the sender of each update
/// proposal, in proposal order, each sender kind told apart.
#[verifier::external_body]
pub fn staged_commit_update_senders(sc: &openmls::prelude::StagedCommit) -> Vec<SenderKind> {
    sc.update_proposals().map(
        |p| match p.sender() {
            openmls::prelude::Sender::Member(i) => SenderKind::Member(i.u32()),
            openmls::prelude::Sender::External(_) => SenderKind::External,
            openmls::prelude::Sender::NewMemberProposal => SenderKind::NewMemberProposal,
            openmls::prelude::Sender::NewMemberCommit => SenderKind::NewMemberCommit,
        },
    ).collect()
}

/// Relies on `StagedCommit::group_context` and `GroupContext::clone`.
#[verifier::external_body]
pub fn staged_commit_group_context(
    sc: &openmls::prelude::StagedCommit,
) -> openmls::prelude::GroupContext {
    sc.group_context().clone()
}

/// Relies on `GroupInfo::group_context` and `GroupContext::clone`.
#[verifier::external_body]
pub fn group_info_group_context(
    gi: &openmls::prelude::group_info::GroupInfo,
) -> openmls::prelude::GroupContext {
    gi.group_context().clone()
}

/// Relies on the derived `PartialEq` of `GroupContext`, which compares the
/// two contexts field by field.
#[verifier::external_body]
pub fn group_context_eq(
    a: &openmls::prelude::GroupContext,
    b: &openmls::prelude::GroupContext,
) -> (r: bool)
    ensures
        r == (a == b),
{
    a == b
}

/// Relies on `GroupContext::group_id` and `GroupId::to_vec` through
/// `GroupInfo::group_context`.
#[verifier::external_body]
pub fn group_info_group_id(gi: &openmls::prelude::group_info::GroupInfo) -> Vec<u8> {
    gi.group_context().group_id().to_vec()
}

/// Relies on `GroupContext::epoch` through `GroupInfo::group_context`.
#[verifier::external_body]
pub fn group_info_epoch(gi: &openmls::prelude::group_info::GroupInfo) -> u64 {
    gi.group_context().epoch().as_u64()
}

/// Relies on `GroupContext::ciphersuite` through `GroupInfo::group_context`;
/// the ciphersuite is handed out as its numeric tag.
#[verifier::external_body]
pub fn group_info_ciphersuite_tag(gi: &openmls::prelude::group_info::GroupInfo) -> u16 {
    u16::from(gi.group_context().ciphersuite())
}

/// Relies on `GroupInfo`'s TLS serialization, a function of the value alone.
#[verifier::external_body]
pub fn group_info_to_bytes(
    gi: &openmls::prelude::group_info::GroupInfo,
) -> Result<Vec<u8>, String> {
    gi.tls_serialize_detached().map_err(|e| format!("{e:?}"))
}

/// Relies on `MlsMessageIn::extract`, with each body kind told apart.
#[verifier::external_body]
pub fn mls_message_extract(m: openmls::prelude::MlsMessageIn) -> MessageBodyKind {
    match m.extract() {
        openmls::prelude::MlsMessageBodyIn::PublicMessage(pm) => MessageBodyKind::Public(Box::new(pm)),
        openmls::prelude::MlsMessageBodyIn::PrivateMessage(pm) => MessageBodyKind::Private(pm),
        openmls::prelude::MlsMessageBodyIn::Welcome(w) => MessageBodyKind::Welcome(w),
        openmls::prelude::MlsMessageBodyIn::GroupInfo(gi) => MessageBodyKind::GroupInfo(gi),
        openmls::prelude::MlsMessageBodyIn::KeyPackage(kp) => MessageBodyKind::KeyPackage(kp),
    }
}

/// Relies on `MlsMessageIn`'s TLS deserialization from a byte prefix; the
/// returned count is how many leading bytes the envelope consumed, never more
/// than the input holds.
#[verifier::external_body]
pub fn parse_mls_message(bytes: &[u8]) -> (r: Result<
    (openmls::prelude::MlsMessageIn, usize),
    String,
>)
    ensures
        r matches Ok((_, consumed)) ==> consumed <= bytes@.len(),
{
    match <openmls::prelude::MlsMessageIn as DeserializeBytes>::tls_deserialize_bytes(bytes) {
        Ok((m, remainder)) => Ok((m, bytes.len() - remainder.len())),
        Err(e) => Err(format!("{e:?}")),
    }
}

/// Relies on `Signature`'s TLS deserialization from a byte prefix.
#[verifier::external_body]
pub fn parse_signature(bytes: &[u8]) -> (r: Result<(openmls::prelude::Signature, usize), String>)
    ensures
        r matches Ok((_, consumed)) ==> consumed <= bytes@.len(),
{
    match <openmls::prelude::Signature as DeserializeBytes>::tls_deserialize_bytes(bytes) {
        Ok((s, remainder)) => Ok((s, bytes.len() - remainder.len())),
        Err(e) => Err(format!("{e:?}")),
    }
}

/// Relies on the TLS deserialization of a group-info extension list from a
/// byte prefix.
#[verifier::external_body]
pub fn parse_group_info_extensions(bytes: &[u8]) -> (r: Result<
    (openmls::extensions::Extensions<openmls::prelude::group_info::GroupInfo>, usize),
    String,
>)
    ensures
        r matches Ok((_, consumed)) ==> consumed <= bytes@.len(),
{
    match <openmls::extensions::Extensions<
        openmls::prelude::group_info::GroupInfo,
    > as DeserializeBytes>::tls_deserialize_bytes(bytes) {
        Ok((e, remainder)) => Ok((e, bytes.len() - remainder.len())),
        Err(e) => Err(format!("{e:?}")),
    }
}

/// Relies on `Signature`'s TLS serialization, a function of the value alone.
#[verifier::external_body]
pub fn signature_to_bytes(s: &openmls::prelude::Signature) -> Result<Vec<u8>, String> {
    s.tls_serialize_detached().map_err(|e| format!("{e:?}"))
}

/// Relies on the TLS serialization of a group-info extension list.
#[verifier::external_body]
pub fn extensions_to_bytes(
    e: &openmls::extensions::Extensions<openmls::prelude::group_info::GroupInfo>,
) -> Result<Vec<u8>, String> {
    e.tls_serialize_detached().map_err(|e| format!("{e:?}"))
}

/// Relies on `MlsMessageOut`'s TLS serialization.
#[verifier::external_body]
pub fn mls_message_out_to_bytes(m: &openmls::prelude::MlsMessageOut) -> Result<Vec<u8>, String> {
    m.tls_serialize_detached().map_err(|e| format!("{e:?}"))
}

/// Relies on `VerifiableGroupInfo::new`: synthesizes a verifiable group info
/// from a context, extensions, confirmation tag, signer index and signature.
#[verifier::external_body]
pub fn vgi_new(
    group_context: openmls::prelude::GroupContext,
    extensions: openmls::extensions::Extensions<openmls::prelude::group_info::GroupInfo>,
    confirmation_tag: openmls::prelude::ConfirmationTag,
    signer: u32,
    signature: openmls::prelude::Signature,
) -> openmls::prelude::group_info::VerifiableGroupInfo {
    openmls::prelude::group_info::VerifiableGroupInfo::new(
        group_context,
        extensions,
        confirmation_tag,
        openmls::prelude::LeafNodeIndex::new(signer),
        signature,
    )
}

/// Relies on `Verifiable::verify` of `VerifiableGroupInfo`: checks the
/// signature against the given public key under the given ciphersuite's
/// signature scheme, returning the verified group info on success.
#[verifier::external_body]
pub fn vgi_verify(
    vgi: openmls::prelude::group_info::VerifiableGroupInfo,
    provider: &openmls_rust_crypto::OpenMlsRustCrypto,
    ciphersuite_tag: u16,
    key_bytes: &Vec<u8>,
) -> Result<openmls::prelude::group_info::GroupInfo, String> {
    let ciphersuite = openmls_traits::types::Ciphersuite::try_from(ciphersuite_tag).map_err(
        |e| format!("{e:?}"),
    )?;
    let pk = OpenMlsSignaturePublicKey::from_signature_key(
        SignaturePublicKey::from(key_bytes.clone()),
        ciphersuite.signature_algorithm(),
    );
    vgi.verify(provider.crypto(), &pk).map_err(|e| format!("{e:?}"))
}

/// Relies on `MlsMessageOut::from_welcome` and the TLS serialization of the
/// resulting envelope: wraps a Welcome in the generic message envelope.
#[verifier::external_body]
pub fn welcome_to_envelope_bytes(w: &openmls::prelude::Welcome) -> Result<Vec<u8>, String> {
    openmls::prelude::MlsMessageOut::from_welcome(
        w.clone(),
        openmls::versions::ProtocolVersion::default(),
    ).tls_serialize_detached().map_err(|e| format!("{e:?}"))
}

/// Relies on `Welcome::secrets` and `EncryptedGroupSecrets::new_member`: the
/// key-package reference of each member the Welcome addresses.
#[verifier::external_body]
pub fn welcome_joiner_refs(w: &openmls::prelude::Welcome) -> Vec<Vec<u8>> {
    w.secrets().iter().map(|secret| secret.new_member().as_slice().to_vec()).collect()
}

/// Relies on the derived `Clone` of `Welcome`.
pub assume_specification[ <openmls::messages::Welcome as std::clone::Clone>::clone ](
    w: &openmls::messages::Welcome,
) -> openmls::messages::Welcome;

} // verus!
