//! The assist layer's error taxonomy, layered over the external protocol
//! engine's own message-processing and library-invariant failures.

use vstd::prelude::*;

verus! {

/// A violated assumption about the external engine's own guarantees: a
/// bug-class signal, not adversarial input.
#[derive(Debug, Clone, PartialEq, Eq)]
pub enum LibraryError {
    /// An invariant of this library failed after validation.
    LibraryError,
    /// The external engine reported a library error of its own; the rendered
    /// description is carried along.
    OpenMlsLibraryError(String),
}

/// Why an incoming assisted message was not accepted as authoritative. Every
/// error is terminal for the message being processed.
#[derive(Debug, Clone, PartialEq, Eq)]
pub enum ProcessAssistedMessageError {
    /// Wire envelope shape mismatch: a commit without its required group-info
    /// suffix, or a public message carrying application content.
    InvalidAssistedMessage,
    /// See [`LibraryError`].
    LibraryError(LibraryError),
    /// Signature verification of the reconstructed group info against the
    /// resolved sender's public key failed.
    InvalidGroupInfoSignature,
    /// The "Full" assisted group info did not unwrap to a group info body.
    InvalidGroupInfoMessage,
    /// Pass-through of the external engine's own message-processing failure,
    /// rendered as text.
    ProcessMessageError(String),
    /// The resolved sender is not a current member, or an external joiner's
    /// credential kind is unsupported.
    UnknownSender,
    /// The verified group info's group context differs from the context
    /// produced by staging the commit.
    InconsistentGroupContext,
    /// The message's wire format conflicts with the group's configured
    /// wire-format policy.
    IncompatibleWireFormat,
}

/// Why a group could not be created from external state.
#[derive(Debug, Clone, PartialEq, Eq)]
pub enum CreationFromExternalError {
    /// The external engine rejected the tree or the group info; the rendered
    /// description is carried along.
    EngineError(String),
    /// A storage write failed.
    WriteToStorageError,
}

/// Why a validated message could not be merged into the group state.
#[derive(Debug, Clone, PartialEq, Eq)]
pub enum MergeCommitError {
    /// The external engine rejected the merge; the rendered description is
    /// carried along.
    EngineError(String),
    /// A storage write failed.
    StorageError,
    /// Application content or an external-join proposal reached the merge
    /// step; those content kinds are not mergeable through this path.
    UnsupportedContent,
}

} // verus!
