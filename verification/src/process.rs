//! The stateless validation engine: turns an incoming assisted message into a
//! validated processing result against a group's current public tree, without
//! mutating the group.

use vstd::prelude::*;

use crate::engine;
use crate::errors::{LibraryError, ProcessAssistedMessageError};
use crate::group::{Group, MlsAssistRustCrypto, ProcessedAssistedMessage, ProcessedAssistedMessagePlus};
use crate::key_packages::Credential;
use crate::messages::{
    AssistedGroupInfoIn, AssistedMessageIn, ContentTypeKind, MemberInfo, SenderKind,
};

verus! {

/// The resolved identity an incoming commit's group info is verified against:
/// a current member's leaf index, or the verification key an external joiner
/// carries along.
#[derive(Debug, Clone, PartialEq, Eq)]
pub enum AssistedSender {
    Member(u32),
    External(Vec<u8>),
}

/// Resolve the assisted sender of a processed commit.
///
/// A member is taken at its leaf index. An external joiner (new-member
/// commit) is not in the tree yet, so its verification key must come from its
/// credential: only the delivery-service credential kind exposes one; basic
/// and X.509 credentials are not supported for external joins. External and
/// new-member-proposal senders cannot have survived commit validation.
pub fn resolve_assisted_sender(sender: SenderKind, credential: &Credential) -> (r: Result<
    AssistedSender,
    ProcessAssistedMessageError,
>)
    ensures
        forall|i: u32|
            sender == SenderKind::Member(i) ==> (r matches Ok(s) && s matches AssistedSender::Member(
                j,
            ) && j == i),
        sender == SenderKind::NewMemberCommit ==> match credential {
            Credential::Infra { verifying_key } => r matches Ok(s) && (s
                matches AssistedSender::External(k) && k@ == verifying_key@),
            _ => r == Err::<AssistedSender, _>(ProcessAssistedMessageError::UnknownSender),
        },
        (sender == SenderKind::External || sender == SenderKind::NewMemberProposal) ==> r == Err::<
            AssistedSender,
            _,
        >(ProcessAssistedMessageError::LibraryError(LibraryError::LibraryError)),
        r matches Err(e) ==> (e == ProcessAssistedMessageError::UnknownSender || e
            == ProcessAssistedMessageError::LibraryError(LibraryError::LibraryError)),
{
    match sender {
        SenderKind::Member(leaf_index) => Ok(AssistedSender::Member(leaf_index)),
        SenderKind::NewMemberCommit => {
            match credential {
                Credential::Infra { verifying_key } => Ok(
                    AssistedSender::External(crate::bytes::clone_bytes(verifying_key)),
                ),
                Credential::Basic { .. } => Err(ProcessAssistedMessageError::UnknownSender),
                Credential::X509 { .. } => Err(ProcessAssistedMessageError::UnknownSender),
                Credential::Other { .. } => Err(ProcessAssistedMessageError::UnknownSender),
            }
        },
        SenderKind::External => Err(
            ProcessAssistedMessageError::LibraryError(LibraryError::LibraryError),
        ),
        SenderKind::NewMemberProposal => Err(
            ProcessAssistedMessageError::LibraryError(LibraryError::LibraryError),
        ),
    }
}

/// The context-consistency gate: the verified group info must describe
/// exactly the group context the staged commit produces. Equal contexts pass;
/// different contexts are rejected as inconsistent.
pub fn check_group_context_consistency(
    group_info_context: &openmls::prelude::GroupContext,
    staged_commit_context: &openmls::prelude::GroupContext,
) -> (r: Result<(), ProcessAssistedMessageError>)
    ensures
        (r is Ok) <==> group_info_context == staged_commit_context,
        r is Err ==> r == Err::<(), _>(ProcessAssistedMessageError::InconsistentGroupContext),
{
    if engine::group_context_eq(group_info_context, staged_commit_context) {
        Ok(())
    } else {
        Err(ProcessAssistedMessageError::InconsistentGroupContext)
    }
}

/// Whether some member sits at leaf index `index`.
pub open spec fn has_member_at(members: Seq<MemberInfo>, index: u32) -> bool {
    exists|m: int| 0 <= m < members.len() && members[m].index == index
}

/// The signature public key of the member at leaf index `index`, if any.
pub fn lookup_member_signature_key(members: &Vec<MemberInfo>, index: u32) -> (r: Option<Vec<u8>>)
    ensures
        match r {
            Some(k) => exists|m: int|
                0 <= m < members@.len() && members@[m].index == index && members@[m].signature_key@
                    == k@,
            None => !has_member_at(members@, index),
        },
{
    let mut m: usize = 0;
    while m < members.len()
        invariant
            0 <= m <= members@.len(),
            forall|j: int| 0 <= j < m ==> members@[j].index != index,
        decreases members@.len() - m,
    {
        if members[m].index == index {
            let key = crate::bytes::clone_bytes(&members[m].signature_key);
            proof {
                assert(members@[m as int].index == index && members@[m as int].signature_key@
                    == key@);
            }
            return Some(key);
        }
        m = m + 1;
    }
    None
}

impl AssistedGroupInfoIn {
    /// Reconstruct a verifiable group info: unwrap the nested message of the
    /// full variant — which must actually carry a group info — or synthesize
    /// one from the staged commit's resulting context, its confirmation tag,
    /// the resolved sender index and the carried signature and extensions.
    /// The shorthand variant always succeeds.
    pub fn try_into_verifiable_group_info(
        self,
        sender_index: u32,
        group_context: openmls::prelude::GroupContext,
        confirmation_tag: openmls::prelude::ConfirmationTag,
    ) -> (r: Result<
        openmls::prelude::group_info::VerifiableGroupInfo,
        crate::messages::DeserializationError,
    >)
        ensures
            self is SignatureAndExtensions ==> r is Ok,
            r is Err ==> r == Err::<
                openmls::prelude::group_info::VerifiableGroupInfo,
                _,
            >(crate::messages::DeserializationError::InvalidMessage),
    {
        match self {
            AssistedGroupInfoIn::Full(mls_message_in) => {
                match engine::mls_message_extract(mls_message_in) {
                    engine::MessageBodyKind::GroupInfo(group_info) => Ok(group_info),
                    _ => Err(crate::messages::DeserializationError::InvalidMessage),
                }
            },
            AssistedGroupInfoIn::SignatureAndExtensions((signature, extensions)) => {
                Ok(
                    engine::vgi_new(
                        group_context,
                        extensions,
                        confirmation_tag,
                        sender_index,
                        signature,
                    ),
                )
            },
        }
    }
}

impl Group {
    /// Validate the group-info assertion accompanying a processed commit:
    /// resolve the sender's verification key (a member's registered signature
    /// key, or the key an external joiner carried), reconstruct a verifiable
    /// group info from the assisted payload, and verify its signature.
    ///
    /// A member sender whose leaf index is not among `members` is an unknown
    /// sender. A full group-info payload that does not unwrap to a group info
    /// is an invalid group-info message. A failed signature check is an
    /// invalid group-info signature.
    pub fn validate_group_info(
        &self,
        provider: &MlsAssistRustCrypto,
        members: &Vec<MemberInfo>,
        sender: AssistedSender,
        staged_commit: &openmls::prelude::StagedCommit,
        confirmation_tag: openmls::prelude::ConfirmationTag,
        assisted_group_info: AssistedGroupInfoIn,
    ) -> (r: Result<openmls::prelude::group_info::GroupInfo, ProcessAssistedMessageError>)
        ensures
            (r == Err::<
                openmls::prelude::group_info::GroupInfo,
                _,
            >(ProcessAssistedMessageError::UnknownSender)) <==> (sender
                matches AssistedSender::Member(i) && !has_member_at(members@, i)),
            r is Err ==> (r matches Err(e) && (e == ProcessAssistedMessageError::UnknownSender || (
            e matches ProcessAssistedMessageError::LibraryError(_)) || e
                == ProcessAssistedMessageError::InvalidGroupInfoMessage || e
                == ProcessAssistedMessageError::InvalidGroupInfoSignature)),
    {
        let (sender_index, sender_pk): (u32, Vec<u8>) = match sender {
            AssistedSender::Member(index) => {
                match lookup_member_signature_key(members, index) {
                    Some(key) => (index, key),
                    None => {
                        return Err(ProcessAssistedMessageError::UnknownSender);
                    },
                }
            },
            AssistedSender::External(signature_public_key) => {
                let index = match engine::pg_ext_commit_sender_index(
                    &self.public_group,
                    staged_commit,
                ) {
                    Ok(index) => index,
                    Err(e) => {
                        return Err(
                            ProcessAssistedMessageError::LibraryError(
                                LibraryError::OpenMlsLibraryError(e),
                            ),
                        );
                    },
                };
                (index, signature_public_key)
            },
        };
        let group_context = engine::staged_commit_group_context(staged_commit);
        let verifiable_group_info = match assisted_group_info.try_into_verifiable_group_info(
            sender_index,
            group_context,
            confirmation_tag,
        ) {
            Ok(vgi) => vgi,
            Err(_) => {
                return Err(ProcessAssistedMessageError::InvalidGroupInfoMessage);
            },
        };
        match engine::vgi_verify(
            verifiable_group_info,
            provider.engine_provider(),
            self.ciphersuite_tag,
            &sender_pk,
        ) {
            Ok(group_info) => Ok(group_info),
            Err(_) => Err(ProcessAssistedMessageError::InvalidGroupInfoSignature),
        }
    }

    /// Validate an incoming assisted message against this group's current
    /// public tree, returning a processing result for later acceptance.
    ///
    /// A private message is handed to the engine's processor and wrapped
    /// unprocessed. A public application message is rejected outright. A
    /// proposal is processed and wrapped. A commit must carry an assisted
    /// group info; it is processed, its sender resolved, its group info
    /// reconstructed and signature-verified, and the verified context checked
    /// against the staged commit's.
    pub fn process_assisted_message(
        &self,
        provider: &MlsAssistRustCrypto,
        assisted_message: AssistedMessageIn,
    ) -> (r: Result<ProcessedAssistedMessagePlus, ProcessAssistedMessageError>)
        ensures
            (r == Err::<
                ProcessedAssistedMessagePlus,
                _,
            >(ProcessAssistedMessageError::InvalidAssistedMessage)) <==> (
            assisted_message.content_type == Some(ContentTypeKind::Application) || (
            assisted_message.content_type == Some(ContentTypeKind::Commit)
                && assisted_message.group_info_option is None)),
            r matches Ok(plus) ==> {
                &&& plus.serialized_mls_message == assisted_message.serialized_mls_message
                &&& (plus.processed_assisted_message is Commit <==> assisted_message.content_type
                    == Some(ContentTypeKind::Commit))
                &&& (plus.processed_assisted_message is NonCommit
                    <==> assisted_message.content_type != Some(ContentTypeKind::Commit))
                &&& !(plus.processed_assisted_message is PrivateMessage)
            },
    {
        let AssistedMessageIn {
            mls_message,
            serialized_mls_message,
            group_info_option,
            suffix_len: _,
            group_id: _,
            epoch: _,
            sender_kind: _,
            content_type,
        } = assisted_message;
        let assisted_group_info = match content_type {
            None => {
                // A private message: the engine can check framing and epoch
                // bookkeeping, but the content stays opaque.
                let processed_message = match engine::pg_process_message(
                    &self.public_group,
                    provider.engine_provider(),
                    mls_message,
                ) {
                    Ok(pm) => pm,
                    Err(engine::EngineProcessError::IncompatibleWireFormat) => {
                        return Err(ProcessAssistedMessageError::IncompatibleWireFormat);
                    },
                    Err(engine::EngineProcessError::Other(e)) => {
                        return Err(ProcessAssistedMessageError::ProcessMessageError(e));
                    },
                };
                return Ok(
                    ProcessedAssistedMessagePlus {
                        processed_assisted_message: ProcessedAssistedMessage::NonCommit(
                            processed_message,
                        ),
                        serialized_mls_message,
                    },
                );
            },
            Some(ContentTypeKind::Application) => {
                // Public messages can never carry application content.
                return Err(ProcessAssistedMessageError::InvalidAssistedMessage);
            },
            Some(ContentTypeKind::Proposal) => {
                let processed_message = match engine::pg_process_message(
                    &self.public_group,
                    provider.engine_provider(),
                    mls_message,
                ) {
                    Ok(pm) => pm,
                    Err(engine::EngineProcessError::IncompatibleWireFormat) => {
                        return Err(ProcessAssistedMessageError::IncompatibleWireFormat);
                    },
                    Err(engine::EngineProcessError::Other(e)) => {
                        return Err(ProcessAssistedMessageError::ProcessMessageError(e));
                    },
                };
                return Ok(
                    ProcessedAssistedMessagePlus {
                        processed_assisted_message: ProcessedAssistedMessage::NonCommit(
                            processed_message,
                        ),
                        serialized_mls_message,
                    },
                );
            },
            Some(ContentTypeKind::Commit) => {
                match group_info_option {
                    Some(agi) => agi,
                    None => {
                        // A commit must bring its group-info assertion.
                        return Err(ProcessAssistedMessageError::InvalidAssistedMessage);
                    },
                }
            },
        };
        // Capture the confirmation tag before the message is consumed.
        let confirmation_tag = match engine::protocol_message_confirmation_tag(&mls_message) {
            Some(tag) => tag,
            None => {
                return Err(
                    ProcessAssistedMessageError::LibraryError(LibraryError::LibraryError),
                );
            },
        };
        let processed_message = match engine::pg_process_message(
            &self.public_group,
            provider.engine_provider(),
            mls_message,
        ) {
            Ok(pm) => pm,
            Err(engine::EngineProcessError::IncompatibleWireFormat) => {
                return Err(ProcessAssistedMessageError::IncompatibleWireFormat);
            },
            Err(engine::EngineProcessError::Other(e)) => {
                return Err(ProcessAssistedMessageError::ProcessMessageError(e));
            },
        };
        let sender = engine::processed_message_sender_kind(&processed_message);
        let credential = engine::processed_message_credential_kind(&processed_message);
        let staged_commit = match engine::processed_message_staged_commit(&processed_message) {
            Some(sc) => sc,
            None => {
                // Mismatching message type after validation.
                return Err(
                    ProcessAssistedMessageError::LibraryError(LibraryError::LibraryError),
                );
            },
        };
        let assisted_sender = match resolve_assisted_sender(sender, &credential) {
            Ok(s) => s,
            Err(e) => {
                return Err(e);
            },
        };
        let members = engine::pg_members(&self.public_group);
        let group_info = match self.validate_group_info(
            provider,
            &members,
            assisted_sender,
            staged_commit,
            confirmation_tag,
            assisted_group_info,
        ) {
            Ok(gi) => gi,
            Err(e) => {
                return Err(e);
            },
        };
        // The verified group info must describe exactly the context the
        // staged commit produces; this is what catches a full-path group info
        // signed over a different context.
        let gi_context = engine::group_info_group_context(&group_info);
        let sc_context = engine::staged_commit_group_context(staged_commit);
        match check_group_context_consistency(&gi_context, &sc_context) {
            Ok(()) => {},
            Err(e) => {
                return Err(e);
            },
        }
        Ok(
            ProcessedAssistedMessagePlus {
                processed_assisted_message: ProcessedAssistedMessage::Commit(
                    processed_message,
                    group_info,
                ),
                serialized_mls_message,
            },
        )
    }
}

} // verus!
