//! The assisted-message wire codec: a generic protocol-message envelope,
//! followed — exactly when the body is a public commit — by an assisted
//! group-info suffix. The suffix framing is one option byte (0 absent, 1
//! present) and one variant byte (0 full, 1 signature-and-extensions); the
//! payloads themselves are in the underlying protocol's encoding.

use vstd::prelude::*;

use crate::engine;
use crate::messages::{
    AssistedGroupInfo, AssistedGroupInfoIn, AssistedMessageIn, AssistedMessageOut,
    AssistedWelcome, ContentTypeKind, DeserializationError, SerializedMlsMessage,
};
use crate::pool::{GroupEpoch, GroupId};

verus! {

impl AssistedMessageIn {
    /// Decode an assisted message from a byte prefix, returning it together
    /// with how many bytes were consumed.
    ///
    /// The primary message must be a public or private protocol message: a
    /// Welcome, GroupInfo or KeyPackage body fails with `InvalidMessage`. A
    /// public commit with no assisted group-info suffix fails with
    /// `MissingGroupInfo`. The primary message's exact byte span is kept
    /// verbatim; trailing bytes after the suffix are left unconsumed.
    pub fn tls_deserialize(bytes: &[u8]) -> (r: Result<
        (AssistedMessageIn, usize),
        DeserializationError,
    >)
        ensures
            r matches Ok((m, consumed)) ==> {
                &&& consumed <= bytes@.len()
                &&& m.serialized_mls_message.0@.len() <= consumed
                &&& m.serialized_mls_message.0@ == bytes@.subrange(
                    0,
                    m.serialized_mls_message.0@.len() as int,
                )
                &&& m.serialized_mls_message.0@.len() + m.suffix_len == consumed
                &&& (m.content_type == Some(ContentTypeKind::Commit)
                    ==> m.group_info_option is Some)
                &&& (m.group_info_option is Some <==> m.suffix_len >= 2)
                &&& (m.group_info_option is Some ==> bytes@[m.serialized_mls_message.0@.len() as int]
                    == 1)
            },
    {
        let (envelope, span_len) = match engine::parse_mls_message(bytes) {
            Ok(pair) => pair,
            Err(_) => {
                return Err(DeserializationError::InvalidMessage);
            },
        };
        let span = vstd::slice::slice_to_vec(vstd::slice::slice_subrange(bytes, 0, span_len));
        let (mls_message, content_type, sender_kind) = match engine::mls_message_extract(
            envelope,
        ) {
            engine::MessageBodyKind::Public(pm) => {
                let content_type = engine::public_message_content_type(&pm);
                let sender_kind = engine::public_message_sender_kind(&pm);
                (engine::protocol_from_public(pm), Some(content_type), Some(sender_kind))
            },
            engine::MessageBodyKind::Private(pm) => {
                (engine::protocol_from_private(pm), None, None)
            },
            engine::MessageBodyKind::Welcome(_) => {
                return Err(DeserializationError::InvalidMessage);
            },
            engine::MessageBodyKind::GroupInfo(_) => {
                return Err(DeserializationError::InvalidMessage);
            },
            engine::MessageBodyKind::KeyPackage(_) => {
                return Err(DeserializationError::InvalidMessage);
            },
        };
        let group_id = GroupId::new(engine::protocol_message_group_id(&mls_message));
        let epoch = GroupEpoch::new(engine::protocol_message_epoch(&mls_message));
        let (group_info_option, suffix_len) = match decode_group_info_suffix(bytes, span_len) {
            Ok(pair) => pair,
            Err(e) => {
                return Err(e);
            },
        };
        if content_type == Some(ContentTypeKind::Commit) && group_info_option.is_none() {
            return Err(DeserializationError::MissingGroupInfo);
        }
        let total_len = bytes.len();
        proof {
            assert(span_len + suffix_len <= total_len);
        }
        let consumed = span_len + suffix_len;
        let message = AssistedMessageIn {
            mls_message,
            serialized_mls_message: SerializedMlsMessage(span),
            group_info_option,
            suffix_len,
            group_id,
            epoch,
            sender_kind,
            content_type,
        };
        Ok((message, consumed))
    }
}

/// Decode the optional assisted group-info suffix starting at `pos`: nothing
/// (end of input or option byte 0), or a variant byte followed by the
/// variant's payload. Returns the suffix and how many bytes it consumed.
fn decode_group_info_suffix(bytes: &[u8], pos: usize) -> (r: Result<
    (Option<AssistedGroupInfoIn>, usize),
    DeserializationError,
>)
    requires
        pos <= bytes@.len(),
    ensures
        r matches Ok((suffix, consumed)) ==> {
            &&& pos + consumed <= bytes@.len()
            &&& (suffix is None <==> consumed <= 1)
            &&& (consumed == 0 <==> pos == bytes@.len())
            &&& (consumed == 1 ==> bytes@[pos as int] == 0)
            &&& (suffix is Some ==> consumed >= 2 && bytes@[pos as int] == 1 && ((
            suffix matches Some(AssistedGroupInfoIn::Full(_))) <==> bytes@[pos + 1] == 0))
        },
        pos == bytes@.len() ==> (r matches Ok((suffix, consumed)) && suffix is None && consumed
            == 0),
        (pos < bytes@.len() && bytes@[pos as int] == 0) ==> (r matches Ok((suffix, consumed))
            && suffix is None && consumed == 1),
        (pos < bytes@.len() && bytes@[pos as int] != 0 && bytes@[pos as int] != 1) ==> r == Err::<
            (Option<AssistedGroupInfoIn>, usize),
            _,
        >(DeserializationError::InvalidMessage),
        (pos + 1 == bytes@.len() && bytes@[pos as int] == 1) ==> r == Err::<
            (Option<AssistedGroupInfoIn>, usize),
            _,
        >(DeserializationError::InvalidMessage),
        (pos + 1 < bytes@.len() && bytes@[pos as int] == 1 && bytes@[pos + 1] != 0 && bytes@[pos
            + 1] != 1) ==> r == Err::<
            (Option<AssistedGroupInfoIn>, usize),
            _,
        >(DeserializationError::InvalidMessage),
{
    if pos == bytes.len() {
        return Ok((None, 0));
    }
    let option_byte = bytes[pos];
    if option_byte == 0 {
        return Ok((None, 1));
    }
    if option_byte != 1 {
        return Err(DeserializationError::InvalidMessage);
    }
    if pos + 1 == bytes.len() {
        return Err(DeserializationError::InvalidMessage);
    }
    let variant_byte = bytes[pos + 1];
    let rest = vstd::slice::slice_subrange(bytes, pos + 2, bytes.len());
    if variant_byte == 0 {
        let (nested, consumed) = match engine::parse_mls_message(rest) {
            Ok(pair) => pair,
            Err(_) => {
                return Err(DeserializationError::InvalidMessage);
            },
        };
        Ok((Some(AssistedGroupInfoIn::Full(nested)), 2 + consumed))
    } else if variant_byte == 1 {
        let (signature, sig_consumed) = match engine::parse_signature(rest) {
            Ok(pair) => pair,
            Err(_) => {
                return Err(DeserializationError::InvalidMessage);
            },
        };
        let rest2 = vstd::slice::slice_subrange(rest, sig_consumed, rest.len());
        let (extensions, ext_consumed) = match engine::parse_group_info_extensions(rest2) {
            Ok(pair) => pair,
            Err(_) => {
                return Err(DeserializationError::InvalidMessage);
            },
        };
        Ok(
            (
                Some(AssistedGroupInfoIn::SignatureAndExtensions((signature, extensions))),
                2 + sig_consumed + ext_consumed,
            ),
        )
    } else {
        Err(DeserializationError::InvalidMessage)
    }
}

impl AssistedMessageOut {
    /// Encode this assisted message: the protocol-message envelope, then the
    /// suffix framing (option byte, variant byte, payload).
    pub fn tls_serialize(&self) -> (r: Result<Vec<u8>, String>)
        ensures
            r matches Ok(v) ==> {
                &&& (self.group_info_option is None ==> v@.len() >= 1 && v@[v@.len() - 1] == 0)
                &&& (self.group_info_option is Some ==> v@.len() >= 2)
            },
    {
        let mut out = match engine::mls_message_out_to_bytes(&self.mls_message) {
            Ok(b) => b,
            Err(e) => {
                return Err(e);
            },
        };
        match &self.group_info_option {
            None => {
                out.push(0);
            },
            Some(AssistedGroupInfo::Full(nested)) => {
                out.push(1);
                out.push(0);
                let mut payload = match engine::mls_message_out_to_bytes(nested) {
                    Ok(b) => b,
                    Err(e) => {
                        return Err(e);
                    },
                };
                out.append(&mut payload);
            },
            Some(AssistedGroupInfo::SignatureAndExtensions((signature, extensions))) => {
                out.push(1);
                out.push(1);
                let mut sig_bytes = match engine::signature_to_bytes(signature) {
                    Ok(b) => b,
                    Err(e) => {
                        return Err(e);
                    },
                };
                out.append(&mut sig_bytes);
                let mut ext_bytes = match engine::extensions_to_bytes(extensions) {
                    Ok(b) => b,
                    Err(e) => {
                        return Err(e);
                    },
                };
                out.append(&mut ext_bytes);
            },
        }
        Ok(out)
    }
}

impl AssistedWelcome {
    /// Encode this Welcome inside the generic message envelope.
    pub fn tls_serialize(&self) -> Result<Vec<u8>, String> {
        engine::welcome_to_envelope_bytes(&self.welcome)
    }

    /// The encoded length of this Welcome inside the generic envelope.
    pub fn tls_serialized_len(&self) -> Result<usize, String> {
        match engine::welcome_to_envelope_bytes(&self.welcome) {
            Ok(b) => Ok(b.len()),
            Err(e) => Err(e),
        }
    }

    /// Decode a Welcome from a generic message envelope prefix, returning it
    /// together with how many bytes were consumed. Any other body kind fails
    /// with `InvalidMessage`.
    pub fn tls_deserialize(bytes: &[u8]) -> (r: Result<
        (AssistedWelcome, usize),
        DeserializationError,
    >)
        ensures
            r matches Ok((_, consumed)) ==> consumed <= bytes@.len(),
    {
        let (envelope, consumed) = match engine::parse_mls_message(bytes) {
            Ok(pair) => pair,
            Err(_) => {
                return Err(DeserializationError::InvalidMessage);
            },
        };
        match engine::mls_message_extract(envelope) {
            engine::MessageBodyKind::Welcome(welcome) => Ok(
                (AssistedWelcome { welcome }, consumed),
            ),
            _ => Err(DeserializationError::InvalidMessage),
        }
    }

    /// The key-package reference of every member this Welcome addresses.
    pub fn joiners(&self) -> Vec<Vec<u8>> {
        engine::welcome_joiner_refs(&self.welcome)
    }
}

} // verus!
