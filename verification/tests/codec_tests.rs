//! Tests for the assisted-message wire codec, on handcrafted envelope bytes.

use mls_assist::messages::{
    AssistedMessageIn, AssistedWelcome, ContentTypeKind, DeserializationError, SenderKind,
};

/// A minimal Welcome envelope: version 1, wire format 3 (welcome), ciphersuite
/// 1, no secrets, empty encrypted group info.
fn welcome_envelope_bytes() -> Vec<u8> {
    vec![
        0x00, 0x01, // protocol version
        0x00, 0x03, // wire format: welcome
        0x00, 0x01, // ciphersuite
        0x00, // secrets: empty vector
        0x00, // encrypted group info: empty
    ]
}

/// A minimal public commit message: version 1, wire format 1 (public
/// message), framed content with a member sender and an empty commit, empty
/// signature, empty confirmation tag and empty membership tag.
fn public_commit_bytes() -> Vec<u8> {
    vec![
        0x00, 0x01, // protocol version
        0x00, 0x01, // wire format: public message
        0x02, 0x67, 0x31, // group id: "g1"
        0x00, 0x00, 0x00, 0x00, 0x00, 0x00, 0x00, 0x05, // epoch 5
        0x01, // sender: member
        0x00, 0x00, 0x00, 0x00, // leaf index 0
        0x00, // authenticated data: empty
        0x03, // content type: commit
        0x00, // proposals: empty vector
        0x00, // path: absent
        0x00, // signature: empty
        0x00, // confirmation tag: empty mac
        0x00, // membership tag: empty mac
    ]
}

#[test]
fn welcome_round_trips_through_the_envelope() {
    let bytes = welcome_envelope_bytes();
    let (welcome, consumed) =
        AssistedWelcome::tls_deserialize(bytes.as_slice()).expect("the envelope must decode");
    assert_eq!(consumed, bytes.len());
    let reencoded = welcome.tls_serialize().expect("a decoded welcome must re-encode");
    assert_eq!(reencoded, bytes);
    assert_eq!(welcome.tls_serialized_len(), Ok(bytes.len()));
    assert_eq!(welcome.joiners(), Vec::<Vec<u8>>::new());
}

#[test]
fn welcome_body_is_rejected_as_primary_assisted_message() {
    let bytes = welcome_envelope_bytes();
    assert!(matches!(
        AssistedMessageIn::tls_deserialize(bytes.as_slice()),
        Err(DeserializationError::InvalidMessage)
    ));
}

#[test]
fn garbage_and_truncated_input_are_invalid() {
    assert!(matches!(
        AssistedMessageIn::tls_deserialize(&[0xde, 0xad]),
        Err(DeserializationError::InvalidMessage)
    ));
    assert!(matches!(
        AssistedMessageIn::tls_deserialize(&[]),
        Err(DeserializationError::InvalidMessage)
    ));
    let mut truncated = welcome_envelope_bytes();
    truncated.truncate(5);
    assert_eq!(
        AssistedWelcome::tls_deserialize(truncated.as_slice()).err(),
        Some(DeserializationError::InvalidMessage)
    );
}

#[test]
fn commit_without_group_info_suffix_is_missing_group_info() {
    let bytes = public_commit_bytes();
    assert!(matches!(
        AssistedMessageIn::tls_deserialize(bytes.as_slice()),
        Err(DeserializationError::MissingGroupInfo)
    ));
    // An explicit "absent" option byte is equally missing.
    let mut with_absent = public_commit_bytes();
    with_absent.push(0x00);
    assert!(matches!(
        AssistedMessageIn::tls_deserialize(with_absent.as_slice()),
        Err(DeserializationError::MissingGroupInfo)
    ));
}

#[test]
fn commit_with_shorthand_group_info_decodes() {
    let mut bytes = public_commit_bytes();
    let span_len = bytes.len();
    bytes.push(0x01); // suffix present
    bytes.push(0x01); // variant: signature and extensions
    bytes.push(0x00); // signature: empty
    bytes.push(0x00); // extensions: empty list
    let (message, consumed) =
        AssistedMessageIn::tls_deserialize(bytes.as_slice()).expect("the commit must decode");
    assert_eq!(consumed, bytes.len());
    assert_eq!(message.sender(), Some(SenderKind::Member(0)));
    assert_eq!(message.group_id().as_slice(), b"g1");
    assert_eq!(message.epoch().as_u64(), 5);
    assert_eq!(message.tls_serialized_len(), bytes.len());
    let span = message.into_serialized_mls_message();
    assert_eq!(span.0, bytes[..span_len].to_vec());
}

#[test]
fn proposal_content_type_is_recorded() {
    // The same framed content with content type proposal (2) and a proposal
    // body: an inline remove proposal for leaf 0, no membership-dependent
    // trailing fields beyond signature and membership tag.
    let bytes = vec![
        0x00, 0x01, // protocol version
        0x00, 0x01, // wire format: public message
        0x02, 0x67, 0x31, // group id: "g1"
        0x00, 0x00, 0x00, 0x00, 0x00, 0x00, 0x00, 0x05, // epoch 5
        0x01, // sender: member
        0x00, 0x00, 0x00, 0x00, // leaf index 0
        0x00, // authenticated data: empty
        0x02, // content type: proposal
        0x00, 0x03, // proposal type: remove
        0x00, 0x00, 0x00, 0x00, // removed leaf index
        0x00, // signature: empty
        0x00, // membership tag: empty mac
    ];
    match AssistedMessageIn::tls_deserialize(bytes.as_slice()) {
        Ok((message, consumed)) => {
            assert_eq!(consumed, bytes.len());
            assert_eq!(message.sender(), Some(SenderKind::Member(0)));
            assert!(message.group_info_option.is_none());
            assert_eq!(message.content_type, Some(ContentTypeKind::Proposal));
        },
        Err(e) => panic!("a plain proposal message must decode: {e:?}"),
    }
}

#[test]
fn commit_with_full_group_info_envelope_decodes() {
    let mut bytes = public_commit_bytes();
    bytes.push(0x01); // suffix present
    bytes.push(0x00); // variant: full, a nested envelope follows
    bytes.extend_from_slice(&welcome_envelope_bytes());
    let (message, consumed) =
        AssistedMessageIn::tls_deserialize(bytes.as_slice()).expect("the commit must decode");
    assert_eq!(consumed, bytes.len());
    assert!(message.group_info_option.is_some());
    assert_eq!(message.content_type, Some(ContentTypeKind::Commit));
}

#[test]
fn malformed_suffix_framing_is_invalid() {
    // An option byte that is neither absent (0) nor present (1).
    let mut bad_option = public_commit_bytes();
    bad_option.push(0x02);
    assert!(matches!(
        AssistedMessageIn::tls_deserialize(bad_option.as_slice()),
        Err(DeserializationError::InvalidMessage)
    ));
    // A variant byte that is neither full (0) nor signature-and-extensions (1).
    let mut bad_variant = public_commit_bytes();
    bad_variant.push(0x01);
    bad_variant.push(0x07);
    assert!(matches!(
        AssistedMessageIn::tls_deserialize(bad_variant.as_slice()),
        Err(DeserializationError::InvalidMessage)
    ));
    // A present-marker with nothing after it.
    let mut cut_off = public_commit_bytes();
    cut_off.push(0x01);
    assert!(matches!(
        AssistedMessageIn::tls_deserialize(cut_off.as_slice()),
        Err(DeserializationError::InvalidMessage)
    ));
}
