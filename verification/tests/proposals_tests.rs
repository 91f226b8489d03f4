//! Tests for the proposal and pre-shared-key data model.

use mls_assist::key_packages::{Credential, KeyPackage, LeafNode};
use mls_assist::pool::{Ciphersuite, Extension, GroupEpoch, GroupId, ProtocolVersion};
use mls_assist::proposals::{
    AddProposal, ExternalInitProposal, GroupContextExtensionProposal, Proposal, ProposalType,
    RemoveProposal, UpdateProposal,
};
use mls_assist::psks::{ExternalPsk, PreSharedKeyId, Psk, ResumptionPsk, ResumptionPskUsage};

fn sample_key_package() -> KeyPackage {
    KeyPackage {
        protocol_version: 1,
        ciphersuite: 1,
        init_key: vec![1, 2, 3],
        leaf_node: LeafNode {
            encryption_key: vec![4, 5],
            signature_key: vec![6, 7],
            credential: Credential::Basic { identity: vec![8] },
            extensions: vec![Extension { extension_type: 2, extension_data: vec![9] }],
            signature: vec![10],
        },
    }
}

#[test]
fn proposal_type_is_supported() {
    assert!(ProposalType::Add.is_supported());
    assert!(ProposalType::Update.is_supported());
    assert!(ProposalType::Remove.is_supported());
    assert!(ProposalType::Presharedkey.is_supported());
    assert!(ProposalType::Reinit.is_supported());
    assert!(ProposalType::ExternalInit.is_supported());
    assert!(!ProposalType::AppAck.is_supported());
    assert!(ProposalType::GroupContextExtensions.is_supported());
}

#[test]
fn proposal_type_try_from_round_trip() {
    for value in 1u16..=8u16 {
        let t = ProposalType::try_from(value).expect("values 1 through 8 decode");
        assert_eq!(t.value(), value);
    }
    assert!(ProposalType::try_from(0).is_err());
    assert!(ProposalType::try_from(9).is_err());
    assert!(ProposalType::try_from(0xff00).is_err());
}

#[test]
fn proposal_type_values() {
    assert_eq!(ProposalType::Add.value(), 1);
    assert_eq!(ProposalType::Update.value(), 2);
    assert_eq!(ProposalType::Remove.value(), 3);
    assert_eq!(ProposalType::Presharedkey.value(), 4);
    assert_eq!(ProposalType::Reinit.value(), 5);
    assert_eq!(ProposalType::ExternalInit.value(), 6);
    assert_eq!(ProposalType::AppAck.value(), 7);
    assert_eq!(ProposalType::GroupContextExtensions.value(), 8);
}

#[test]
fn proposal_path_requirements() {
    let kp = sample_key_package();
    let add = Proposal::Add(AddProposal::new(kp.clone()));
    let update = Proposal::Update(UpdateProposal::new(kp.clone()));
    let remove = Proposal::Remove(RemoveProposal::new(3));
    let external_init = Proposal::ExternalInit(ExternalInitProposal::from(vec![1, 2]));
    let gce = Proposal::GroupContextExtensions(GroupContextExtensionProposal::new(vec![]));
    assert!(!add.is_path_required());
    assert!(update.is_path_required());
    assert!(remove.is_path_required());
    assert!(external_init.is_path_required());
    assert!(gce.is_path_required());
}

#[test]
fn proposal_types_and_getters() {
    let kp = sample_key_package();
    let add = AddProposal::new(kp.clone());
    assert_eq!(add.key_package(), &kp);
    assert_eq!(Proposal::Add(add).proposal_type(), ProposalType::Add);

    let update = UpdateProposal::new(kp.clone());
    assert_eq!(update.key_package(), &kp);
    assert_eq!(Proposal::Update(update).proposal_type(), ProposalType::Update);

    let remove = RemoveProposal::new(7);
    assert_eq!(remove.removed(), 7);
    let remove_prop = Proposal::Remove(remove);
    assert_eq!(remove_prop.proposal_type(), ProposalType::Remove);
    assert!(remove_prop.is_type(ProposalType::Remove));
    assert!(!remove_prop.is_type(ProposalType::Add));
}

#[test]
fn key_package_accessors() {
    let kp = sample_key_package();
    assert_eq!(kp.leaf_node().signature_key(), &vec![6u8, 7u8]);
}

#[test]
fn external_psk_round_trip() {
    let psk = ExternalPsk::new(vec![1, 2, 3]);
    assert_eq!(psk.psk_id(), &[1, 2, 3]);
}

#[test]
fn resumption_psk_accessors() {
    let psk = ResumptionPsk::new(
        ResumptionPskUsage::Reinit,
        GroupId::new(vec![9, 9]),
        GroupEpoch::new(4),
    );
    assert_eq!(psk.usage(), ResumptionPskUsage::Reinit);
    assert_eq!(psk.psk_group_id().as_slice(), &[9, 9]);
    assert_eq!(psk.psk_epoch().as_u64(), 4);
}

#[test]
fn resumption_psk_usage_values() {
    assert_eq!(ResumptionPskUsage::Application.value(), 1);
    assert_eq!(ResumptionPskUsage::Reinit.value(), 2);
    assert_eq!(ResumptionPskUsage::Branch.value(), 3);
}

#[test]
fn pre_shared_key_id_accessors() {
    let psk = Psk::External(ExternalPsk::new(vec![5]));
    let id = PreSharedKeyId::new(psk.clone(), vec![6, 6]);
    assert_eq!(id.psk(), &psk);
    assert_eq!(id.psk_nonce(), &[6, 6]);
}

#[test]
fn pool_value_types() {
    let cs = Ciphersuite { value: 1 };
    let pv = ProtocolVersion { value: 1 };
    assert_eq!(cs.value, 1);
    assert_eq!(pv.value, 1);
    let ext = Extension { extension_type: 3, extension_data: vec![1] };
    assert_eq!(ext.extension_type, 3);
}
