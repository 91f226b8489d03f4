//! Tests for the validation engine's decision functions: sender resolution,
//! member lookup and stale-joiner computation.

use mls_assist::errors::{LibraryError, ProcessAssistedMessageError};
use mls_assist::group::stale_joiner_keys;
use mls_assist::key_packages::Credential;
use mls_assist::messages::{MemberInfo, SenderKind};
use mls_assist::process::{lookup_member_signature_key, resolve_assisted_sender, AssistedSender};

fn member(index: u32, key_tag: u8) -> MemberInfo {
    MemberInfo { index, signature_key: vec![key_tag; 3], encryption_key: vec![key_tag, 0] }
}

#[test]
fn member_sender_resolves_to_its_index() {
    let credential = Credential::Basic { identity: vec![1] };
    let r = resolve_assisted_sender(SenderKind::Member(5), &credential);
    assert!(matches!(r, Ok(AssistedSender::Member(5))));
}

#[test]
fn external_join_resolves_only_with_a_delivery_service_credential() {
    let infra = Credential::Infra { verifying_key: vec![1, 2, 3] };
    let r = resolve_assisted_sender(SenderKind::NewMemberCommit, &infra);
    match r {
        Ok(AssistedSender::External(key)) => assert_eq!(key, vec![1, 2, 3]),
        _ => panic!("an external join with a delivery-service credential must resolve"),
    }
    let basic = Credential::Basic { identity: vec![1] };
    assert_eq!(
        resolve_assisted_sender(SenderKind::NewMemberCommit, &basic),
        Err(ProcessAssistedMessageError::UnknownSender)
    );
    let x509 = Credential::X509 { certificate: vec![1] };
    assert_eq!(
        resolve_assisted_sender(SenderKind::NewMemberCommit, &x509),
        Err(ProcessAssistedMessageError::UnknownSender)
    );
    let other = Credential::Other { kind: 0xff00, data: vec![] };
    assert_eq!(
        resolve_assisted_sender(SenderKind::NewMemberCommit, &other),
        Err(ProcessAssistedMessageError::UnknownSender)
    );
}

#[test]
fn invalid_commit_senders_are_library_errors() {
    let credential = Credential::Basic { identity: vec![1] };
    assert_eq!(
        resolve_assisted_sender(SenderKind::External, &credential),
        Err(ProcessAssistedMessageError::LibraryError(LibraryError::LibraryError))
    );
    assert_eq!(
        resolve_assisted_sender(SenderKind::NewMemberProposal, &credential),
        Err(ProcessAssistedMessageError::LibraryError(LibraryError::LibraryError))
    );
}

#[test]
fn member_lookup_finds_the_registered_key() {
    let members = vec![member(0, 0xa), member(1, 0xb), member(3, 0xc)];
    assert_eq!(lookup_member_signature_key(&members, 1), Some(vec![0xb; 3]));
    assert_eq!(lookup_member_signature_key(&members, 2), None);
}

#[test]
fn stale_keys_cover_removed_leaves_and_updaters() {
    let members = vec![member(0, 0xa), member(1, 0xb), member(2, 0xc)];
    let removed = vec![1];
    let updaters = vec![SenderKind::Member(2), SenderKind::NewMemberCommit];
    let stale = stale_joiner_keys(&members, &removed, &updaters);
    assert!(stale.contains(&vec![0xb; 3]));
    assert!(stale.contains(&vec![0xc; 3]));
    assert!(!stale.contains(&vec![0xa; 3]));
}

#[test]
fn stale_keys_ignore_unknown_indices() {
    let members = vec![member(0, 0xa)];
    let removed = vec![7];
    let updaters: Vec<SenderKind> = vec![];
    let stale = stale_joiner_keys(&members, &removed, &updaters);
    assert!(stale.is_empty());
}

#[test]
fn error_values_are_comparable_and_cloneable() {
    let e = ProcessAssistedMessageError::InconsistentGroupContext;
    assert_eq!(e.clone(), e);
    let e2 = ProcessAssistedMessageError::ProcessMessageError(String::from("boom"));
    assert_eq!(e2.clone(), e2);
    assert_ne!(e, e2);
}

#[test]
fn find_member_returns_the_member_at_the_index() {
    let members = vec![member(0, 0xa), member(2, 0xb)];
    let found = mls_assist::group::find_member(&members, 2).expect("leaf 2 is occupied");
    assert_eq!(found.index, 2);
    assert_eq!(found.signature_key, vec![0xb; 3]);
    assert!(mls_assist::group::find_member(&members, 1).is_none());
}
