//! Pre-shared-key identifiers: external PSKs, resumption PSKs and the
//! combined `PreSharedKeyId` record that names a PSK injected into the key
//! schedule.

use vstd::prelude::*;

use crate::pool::{GroupEpoch, GroupId};

verus! {

/// External PSK, named by an opaque identifier.
#[derive(Debug, Clone, PartialEq, Eq)]
pub struct ExternalPsk {
    pub psk_id: Vec<u8>,
}

impl ExternalPsk {
    /// Create a new `ExternalPsk` from a PSK ID.
    pub fn new(psk_id: Vec<u8>) -> (r: Self)
        ensures
            r.psk_id@ == psk_id@,
    {
        Self { psk_id }
    }

    /// Return the PSK ID.
    pub fn psk_id(&self) -> (r: &[u8])
        ensures
            r@ == self.psk_id@,
    {
        self.psk_id.as_slice()
    }
}

/// What a resumption PSK is used for.
#[derive(Debug, Clone, Copy, PartialEq, Eq, Hash, Structural)]
pub enum ResumptionPskUsage {
    Application,
    Reinit,
    Branch,
}

impl ResumptionPskUsage {
    /// The numeric tag of this usage on the wire: application is 1, reinit is
    /// 2 and branch is 3.
    pub fn value(&self) -> (r: u8)
        ensures
            r == match self {
                ResumptionPskUsage::Application => 1u8,
                ResumptionPskUsage::Reinit => 2u8,
                ResumptionPskUsage::Branch => 3u8,
            },
    {
        match self {
            ResumptionPskUsage::Application => 1,
            ResumptionPskUsage::Reinit => 2,
            ResumptionPskUsage::Branch => 3,
        }
    }
}

/// Resumption PSK, derived from an earlier epoch of a group.
#[derive(Debug, Clone, PartialEq, Eq)]
pub struct ResumptionPsk {
    pub usage: ResumptionPskUsage,
    pub psk_group_id: GroupId,
    pub psk_epoch: GroupEpoch,
}

impl ResumptionPsk {
    pub fn new(usage: ResumptionPskUsage, psk_group_id: GroupId, psk_epoch: GroupEpoch) -> (r:
        Self)
        ensures
            r.usage == usage,
            r.psk_group_id == psk_group_id,
            r.psk_epoch == psk_epoch,
    {
        Self { usage, psk_group_id, psk_epoch }
    }

    /// Return the usage.
    pub fn usage(&self) -> (r: ResumptionPskUsage)
        ensures
            r == self.usage,
    {
        self.usage
    }

    /// Return the `GroupId`.
    pub fn psk_group_id(&self) -> (r: &GroupId)
        ensures
            r == &self.psk_group_id,
    {
        &self.psk_group_id
    }

    /// Return the `GroupEpoch`.
    pub fn psk_epoch(&self) -> (r: GroupEpoch)
        ensures
            r == self.psk_epoch,
    {
        self.psk_epoch
    }
}

/// PSK enum that can contain the different PSK types.
#[derive(Debug, Clone, PartialEq, Eq)]
pub enum Psk {
    External(ExternalPsk),
    Resumption(ResumptionPsk),
}

/// Uniquely identifies a PSK that gets injected in the key schedule.
#[derive(Debug, Clone, PartialEq, Eq)]
pub struct PreSharedKeyId {
    pub psk: Psk,
    pub psk_nonce: Vec<u8>,
}

impl PreSharedKeyId {
    /// Create a new `PreSharedKeyId`.
    pub fn new(psk: Psk, psk_nonce: Vec<u8>) -> (r: Self)
        ensures
            r.psk == psk,
            r.psk_nonce@ == psk_nonce@,
    {
        Self { psk, psk_nonce }
    }

    /// Return the PSK.
    pub fn psk(&self) -> (r: &Psk)
        ensures
            r == &self.psk,
    {
        &self.psk
    }

    /// Return the PSK nonce.
    pub fn psk_nonce(&self) -> (r: &[u8])
        ensures
            r@ == self.psk_nonce@,
    {
        self.psk_nonce.as_slice()
    }
}

} // verus!
