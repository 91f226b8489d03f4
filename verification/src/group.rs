//! The per-group state container: the externally owned public tree, the
//! current signed group info and the past-group-state cache, mutated together
//! on every accepted message and persisted through the storage provider.

use vstd::prelude::*;

use crate::engine;
use crate::errors::{CreationFromExternalError, MergeCommitError};
use crate::memory_provider::MlsAssistMemoryStorage;
use crate::messages::{MemberInfo, SenderKind};
use crate::past_group_states::PastGroupStates;
use crate::pool::GroupEpoch;

verus! {

/// The reference provider: the engine's default cryptography and randomness
/// backend combined with this crate's in-memory storage.
///
/// The engine side of the provider bundles its own internal storage, and the
/// engine calls a [`Group`] makes persist the tree, transcript, context,
/// confirmation tag and proposal queue through that internal backend. The
/// [`MlsAssistMemoryStorage`] held here receives the assist layer's own
/// artifacts — the current group info and the past group states — and offers
/// the public-group-state record surface to embedding hosts.
pub struct MlsAssistRustCrypto {
    crypto: openmls_rust_crypto::OpenMlsRustCrypto,
    storage: MlsAssistMemoryStorage,
}

impl MlsAssistRustCrypto {
    /// A fresh provider around the given storage.
    pub fn new(storage: MlsAssistMemoryStorage) -> Self {
        Self { crypto: engine::fresh_engine_provider(), storage }
    }

    /// The assist-specific storage backend.
    pub fn storage(&self) -> &MlsAssistMemoryStorage {
        &self.storage
    }

    /// The cryptography backend.
    pub fn crypto(&self) -> &openmls_rust_crypto::RustCrypto {
        engine::provider_crypto(&self.crypto)
    }

    /// The randomness backend.
    pub fn rand(&self) -> &openmls_rust_crypto::RustCrypto {
        engine::provider_rand(&self.crypto)
    }

    /// The engine-facing provider (crypto, randomness and the engine's own
    /// storage for tree, transcript, context, tag and proposal queue).
    pub(crate) fn engine_provider(&self) -> &openmls_rust_crypto::OpenMlsRustCrypto {
        &self.crypto
    }
}

impl From<MlsAssistMemoryStorage> for MlsAssistRustCrypto {
    fn from(storage: MlsAssistMemoryStorage) -> Self {
        Self { crypto: engine::fresh_engine_provider(), storage }
    }
}

impl vstd::std_specs::convert::FromSpecImpl<MlsAssistMemoryStorage> for MlsAssistRustCrypto {
    open spec fn obeys_from_spec() -> bool {
        false
    }

    open spec fn from_spec(storage: MlsAssistMemoryStorage) -> Self {
        arbitrary()
    }
}

/// A validated processing result: an unprocessable private message, a
/// processed non-commit, or a processed commit together with its verified
/// group info.
pub enum ProcessedAssistedMessage {
    PrivateMessage(openmls::prelude::PrivateMessageIn),
    NonCommit(openmls::prelude::ProcessedMessage),
    Commit(openmls::prelude::ProcessedMessage, openmls::prelude::group_info::GroupInfo),
}

impl ProcessedAssistedMessage {
    /// The sender of the processed message; a private message hides its
    /// sender.
    pub fn sender(&self) -> (r: Option<SenderKind>)
        ensures
            (r is Some) <==> !(self is PrivateMessage),
    {
        match self {
            ProcessedAssistedMessage::NonCommit(pm) => Some(
                engine::processed_message_sender_kind(pm),
            ),
            ProcessedAssistedMessage::Commit(pm, _) => Some(
                engine::processed_message_sender_kind(pm),
            ),
            ProcessedAssistedMessage::PrivateMessage(_) => None,
        }
    }
}

/// A validated processing result paired with the verbatim byte span of the
/// message it came from.
pub struct ProcessedAssistedMessagePlus {
    pub processed_assisted_message: ProcessedAssistedMessage,
    pub serialized_mls_message: crate::messages::SerializedMlsMessage,
}

/// The unit of per-group state: the engine-owned public tree, the current
/// signed group info, the past-group-state cache, and plain mirrors of the
/// group id, epoch and ciphersuite read from the engine after each change.
pub struct Group {
    pub(crate) public_group: openmls::prelude::PublicGroup,
    pub(crate) group_info: openmls::prelude::group_info::GroupInfo,
    pub(crate) past_group_states: PastGroupStates,
    pub(crate) group_id: Vec<u8>,
    pub(crate) epoch: u64,
    pub(crate) ciphersuite_tag: u16,
}

impl Group {
    /// The group's internal invariant: its cache is well-formed.
    pub closed spec fn wf(self) -> bool {
        self.past_group_states.wf()
    }

    /// Whether the cache tracks `joiner` as pending for `epoch`.
    pub closed spec fn tracks_joiner_at(self, joiner: Seq<u8>, epoch: u64) -> bool {
        self.past_group_states.joins_to(joiner, epoch)
    }

    /// The mirrored current epoch.
    pub closed spec fn spec_epoch(self) -> u64 {
        self.epoch
    }

    /// The current signed group info, as a spec-level value.
    pub closed spec fn spec_group_info(self) -> openmls::prelude::group_info::GroupInfo {
        self.group_info
    }

    /// Whether the cache stores tree bytes `tree` for `epoch`.
    pub closed spec fn cached_tree_at(self, epoch: u64, tree: Seq<u8>) -> bool {
        self.past_group_states.state_tree_is(epoch, tree)
    }

    /// Create a new group state from an externally supplied verifiable group
    /// info and ratchet-tree snapshot, then persist the group info and the
    /// fresh, empty past-group-state cache.
    pub fn new(
        provider: &MlsAssistRustCrypto,
        verifiable_group_info: openmls::prelude::group_info::VerifiableGroupInfo,
        ratchet_tree: openmls::prelude::RatchetTreeIn,
    ) -> (r: Result<Group, CreationFromExternalError>)
        ensures
            r matches Ok(g) ==> g.wf() && forall|k: Seq<u8>, e: u64| !g.tracks_joiner_at(k, e),
    {
        let (public_group, group_info) = match engine::pg_from_external(
            provider.engine_provider(),
            ratchet_tree,
            verifiable_group_info,
        ) {
            Ok(pair) => pair,
            Err(e) => {
                return Err(CreationFromExternalError::EngineError(e));
            },
        };
        let group_id = engine::group_info_group_id(&group_info);
        let epoch = engine::group_info_epoch(&group_info);
        let ciphersuite_tag = engine::group_info_ciphersuite_tag(&group_info);
        let past_group_states = PastGroupStates::new();
        let group_info_bytes = match engine::group_info_to_bytes(&group_info) {
            Ok(b) => b,
            Err(e) => {
                return Err(CreationFromExternalError::EngineError(e));
            },
        };
        provider.storage().write_group_info(group_id.as_slice(), group_info_bytes);
        provider.storage().write_past_group_states(
            group_id.as_slice(),
            past_group_states.to_bytes(),
        );
        let group = Group {
            public_group,
            group_info,
            past_group_states,
            group_id,
            epoch,
            ciphersuite_tag,
        };
        Ok(group)
    }

    /// Merge a validated processing result into the group state and persist
    /// the updated group info and cache.
    ///
    /// An unprocessable private message is accepted without any mutation. For
    /// a commit, the group info is replaced first; the staged commit is
    /// merged into the tree; a cache entry is recorded at the post-merge
    /// epoch for every joiner the commit added; cache entries for joiners
    /// removed by the commit or updating themselves in it are dropped; and
    /// entries older than `expiration_seconds` (against the caller-supplied
    /// time `now`) are evicted. A standalone proposal is only recorded into
    /// the proposal store. Application content and external-join proposals
    /// are not mergeable through this path.
    pub fn accept_processed_message(
        &mut self,
        provider: &MlsAssistRustCrypto,
        processed_assisted_message: ProcessedAssistedMessage,
        expiration_seconds: u64,
        now: u64,
    ) -> (r: Result<(), MergeCommitError>)
        requires
            old(self).wf(),
        ensures
            final(self).wf(),
            processed_assisted_message is PrivateMessage ==> r is Ok && *final(self) == *old(
                self,
            ),
            processed_assisted_message matches ProcessedAssistedMessage::Commit(_, group_info)
                ==> final(self).spec_group_info() == group_info,
            processed_assisted_message is NonCommit
                ==> final(self).spec_group_info() == old(self).spec_group_info(),
    {
        let processed_message = match processed_assisted_message {
            ProcessedAssistedMessage::NonCommit(processed_message) => processed_message,
            ProcessedAssistedMessage::Commit(processed_message, group_info) => {
                self.group_info = group_info;
                self.ciphersuite_tag = engine::group_info_ciphersuite_tag(&self.group_info);
                processed_message
            },
            ProcessedAssistedMessage::PrivateMessage(_) => {
                return Ok(());
            },
        };
        let added_potential_joiners: Vec<Vec<u8>> = match engine::processed_message_into_content(
            processed_message,
        ) {
            engine::ProcessedContentKind::Commit(staged_commit) => {
                // Members proposed for addition still need this epoch's tree.
                let joiners = engine::staged_commit_add_joiner_keys(&staged_commit);
                // Joiners whose leaf the commit removes, and the senders of
                // the commit's update proposals, no longer need a snapshot.
                let members = engine::pg_members(&self.public_group);
                let removed = engine::staged_commit_removed_indices(&staged_commit);
                let updaters = engine::staged_commit_update_senders(&staged_commit);
                let stale = stale_joiner_keys(&members, &removed, &updaters);
                match engine::pg_merge_commit(
                    &mut self.public_group,
                    provider.engine_provider(),
                    staged_commit,
                ) {
                    Ok(()) => {},
                    Err(e) => {
                        return Err(MergeCommitError::EngineError(e));
                    },
                }
                self.epoch = engine::pg_epoch(&self.public_group);
                self.past_group_states.remove_potential_joiners(&stale);
                joiners
            },
            engine::ProcessedContentKind::Proposal(proposal) => {
                match engine::pg_add_proposal(
                    &mut self.public_group,
                    provider.engine_provider(),
                    proposal,
                ) {
                    Ok(()) => {},
                    Err(e) => {
                        return Err(MergeCommitError::EngineError(e));
                    },
                }
                Vec::new()
            },
            engine::ProcessedContentKind::Application
            | engine::ProcessedContentKind::ExternalJoinProposal(_)
            | engine::ProcessedContentKind::OwnMessage => {
                return Err(MergeCommitError::UnsupportedContent);
            },
        };
        // Record the post-merge snapshot for the added joiners (a no-op when
        // none were added), then evict anything past the expiration window.
        let tree = engine::pg_export_ratchet_tree(&self.public_group);
        let tree_bytes = match engine::ratchet_tree_to_bytes(&tree) {
            Ok(b) => b,
            Err(e) => {
                return Err(MergeCommitError::EngineError(e));
            },
        };
        let post_epoch = GroupEpoch::new(self.epoch);
        self.past_group_states.add_state(&post_epoch, tree_bytes, &added_potential_joiners, now);
        self.past_group_states.remove_expired_states(now, expiration_seconds);
        let group_info_bytes = match engine::group_info_to_bytes(&self.group_info) {
            Ok(b) => b,
            Err(e) => {
                return Err(MergeCommitError::EngineError(e));
            },
        };
        provider.storage().write_group_info(self.group_id.as_slice(), group_info_bytes);
        provider.storage().write_past_group_states(
            self.group_id.as_slice(),
            self.past_group_states.to_bytes(),
        );
        Ok(())
    }

    /// The current signed group info.
    pub fn group_info(&self) -> &openmls::prelude::group_info::GroupInfo {
        &self.group_info
    }

    /// The current exported ratchet tree.
    pub fn export_ratchet_tree(&self) -> openmls::treesync::RatchetTree {
        engine::pg_export_ratchet_tree(&self.public_group)
    }

    /// The current epoch.
    pub fn epoch(&self) -> (r: GroupEpoch)
        ensures
            r.value == self.spec_epoch(),
    {
        GroupEpoch::new(self.epoch)
    }

    /// The serialized tree snapshot cached for the given epoch and joiner;
    /// absent unless that joiner is still tracked as pending for exactly that
    /// epoch.
    pub fn past_group_state(&self, epoch: &GroupEpoch, joiner: &Vec<u8>) -> (r: Option<&Vec<u8>>)
        requires
            self.wf(),
        ensures
            (r is Some) <==> self.tracks_joiner_at(joiner@, epoch.value),
            r matches Some(tree) ==> self.cached_tree_at(epoch.value, tree@),
    {
        self.past_group_states.get_for_joiner(epoch, joiner)
    }

    /// The member at the given leaf index, or an absent value for a blank
    /// leaf.
    pub fn leaf(&self, leaf_index: u32) -> Option<MemberInfo> {
        let members = engine::pg_members(&self.public_group);
        find_member(&members, leaf_index)
    }

    /// The current members of the group.
    pub fn members(&self) -> Vec<MemberInfo> {
        engine::pg_members(&self.public_group)
    }
}

/// The member with leaf index `index`, if any sits at it.
pub fn find_member(members: &Vec<MemberInfo>, index: u32) -> (r: Option<MemberInfo>)
    ensures
        match r {
            Some(member) => exists|m: int|
                0 <= m < members@.len() && members@[m].index == index && member.index == index
                    && members@[m].signature_key@ == member.signature_key@
                    && members@[m].encryption_key@ == member.encryption_key@,
            None => forall|m: int| 0 <= m < members@.len() ==> members@[m].index != index,
        },
{
    let mut m: usize = 0;
    while m < members.len()
        invariant
            0 <= m <= members@.len(),
            forall|j: int| 0 <= j < m ==> members@[j].index != index,
        decreases members@.len() - m,
    {
        if members[m].index == index {
            let member = MemberInfo {
                index,
                signature_key: crate::bytes::clone_bytes(&members[m].signature_key),
                encryption_key: crate::bytes::clone_bytes(&members[m].encryption_key),
            };
            proof {
                assert(members@[m as int].index == index && members@[m as int].signature_key@
                    == member.signature_key@ && members@[m as int].encryption_key@
                    == member.encryption_key@);
            }
            return Some(member);
        }
        m = m + 1;
    }
    None
}

/// Whether `k` occurs (by content) in the key list `l`.
pub open spec fn key_in(l: Seq<Vec<u8>>, k: Seq<u8>) -> bool {
    exists|i: int| 0 <= i < l.len() && l[i]@ == k
}

/// Whether the index `i` occurs in `l`.
pub open spec fn index_in(l: Seq<u32>, i: u32) -> bool {
    exists|h: int| 0 <= h < l.len() && l[h] == i
}

/// Whether some element of `l` is a member sender with leaf index `i`.
pub open spec fn member_sender_in(l: Seq<SenderKind>, i: u32) -> bool {
    exists|h: int| 0 <= h < l.len() && l[h] == SenderKind::Member(i)
}

/// Whether the member at position `m` is made stale by the commit: its leaf
/// is removed, or it is the sender of one of the commit's update proposals.
pub open spec fn member_is_stale(
    members: Seq<MemberInfo>,
    removed: Seq<u32>,
    updaters: Seq<SenderKind>,
    m: int,
) -> bool {
    index_in(removed, members[m].index) || member_sender_in(updaters, members[m].index)
}

/// Whether `i` occurs in the index list.
fn index_listed(l: &Vec<u32>, i: u32) -> (r: bool)
    ensures
        r == index_in(l@, i),
{
    let mut h: usize = 0;
    while h < l.len()
        invariant
            0 <= h <= l@.len(),
            forall|j: int| 0 <= j < h ==> l@[j] != i,
        decreases l@.len() - h,
    {
        if l[h] == i {
            return true;
        }
        h = h + 1;
    }
    false
}

/// Whether a member sender with leaf index `i` occurs in the sender list.
fn member_sender_listed(l: &Vec<SenderKind>, i: u32) -> (r: bool)
    ensures
        r == member_sender_in(l@, i),
{
    let mut h: usize = 0;
    while h < l.len()
        invariant
            0 <= h <= l@.len(),
            forall|j: int| 0 <= j < h ==> l@[j] != SenderKind::Member(i),
        decreases l@.len() - h,
    {
        match l[h] {
            SenderKind::Member(j) => {
                if j == i {
                    proof {
                        assert(l@[h as int] == SenderKind::Member(i));
                    }
                    return true;
                }
            },
            _ => {},
        }
        h = h + 1;
    }
    false
}

/// Some member below position `bound` has signature key `k` and is made
/// stale by the commit (its leaf removed, or it sent an update proposal).
pub open spec fn is_stale_key_upto(
    members: Seq<MemberInfo>,
    removed: Seq<u32>,
    updaters: Seq<SenderKind>,
    bound: int,
    k: Seq<u8>,
) -> bool {
    exists|m: int|
        0 <= m < bound && (#[trigger] members[m].signature_key@) == k && member_is_stale(
            members,
            removed,
            updaters,
            m,
        )
}

/// Some member has signature key `k` and is made stale by the commit.
pub open spec fn is_stale_key(
    members: Seq<MemberInfo>,
    removed: Seq<u32>,
    updaters: Seq<SenderKind>,
    k: Seq<u8>,
) -> bool {
    is_stale_key_upto(members, removed, updaters, members.len() as int, k)
}

proof fn lemma_stale_upto_widen(
    members: Seq<MemberInfo>,
    removed: Seq<u32>,
    updaters: Seq<SenderKind>,
    b1: int,
    b2: int,
    k: Seq<u8>,
)
    requires
        b1 <= b2,
        is_stale_key_upto(members, removed, updaters, b1, k),
    ensures
        is_stale_key_upto(members, removed, updaters, b2, k),
{
    let m = choose|m: int|
        0 <= m < b1 && (#[trigger] members[m].signature_key@) == k && member_is_stale(
            members,
            removed,
            updaters,
            m,
        );
    assert(0 <= m < b2 && members[m].signature_key@ == k && member_is_stale(
        members,
        removed,
        updaters,
        m,
    ));
}

/// The signature keys of current members whose leaf the commit removes or who
/// sent one of the commit's update proposals: exactly the members whose
/// pending-joiner entries the commit makes redundant.
#[verifier::rlimit(50)]
pub fn stale_joiner_keys(
    members: &Vec<MemberInfo>,
    removed: &Vec<u32>,
    updaters: &Vec<SenderKind>,
) -> (r: Vec<Vec<u8>>)
    ensures
        forall|k: Seq<u8>|
            #[trigger] key_in(r@, k) <==> is_stale_key(members@, removed@, updaters@, k),
{
    let mut out: Vec<Vec<u8>> = Vec::new();
    let mut m: usize = 0;
    while m < members.len()
        invariant
            0 <= m <= members@.len(),
            forall|j: int|
                0 <= j < out@.len() ==> is_stale_key_upto(
                    members@,
                    removed@,
                    updaters@,
                    m as int,
                    #[trigger] out@[j]@,
                ),
            forall|m2: int|
                0 <= m2 < m && member_is_stale(members@, removed@, updaters@, m2) ==> key_in(
                    out@,
                    #[trigger] members@[m2].signature_key@,
                ),
        decreases members@.len() - m,
    {
        let in_removed = index_listed(removed, members[m].index);
        let in_updaters = member_sender_listed(updaters, members[m].index);
        if in_removed || in_updaters {
            let ghost out0 = out@;
            out.push(crate::bytes::clone_bytes(&members[m].signature_key));
            proof {
                assert(forall|j: int| 0 <= j < out0.len() ==> out@[j] == out0[j]);
                assert(out@[out0.len() as int]@ == members@[m as int].signature_key@);
                assert(member_is_stale(members@, removed@, updaters@, m as int));
                assert forall|j: int| 0 <= j < out@.len() implies is_stale_key_upto(
                    members@,
                    removed@,
                    updaters@,
                    m + 1,
                    #[trigger] out@[j]@,
                ) by {
                    if j < out0.len() {
                        assert(is_stale_key_upto(
                            members@,
                            removed@,
                            updaters@,
                            m as int,
                            out0[j]@,
                        ));
                        lemma_stale_upto_widen(
                            members@,
                            removed@,
                            updaters@,
                            m as int,
                            m + 1,
                            out0[j]@,
                        );
                        assert(out@[j]@ == out0[j]@);
                    } else {
                        assert(members@[m as int].signature_key@ == out@[j]@);
                        assert(is_stale_key_upto(members@, removed@, updaters@, m + 1, out@[j]@));
                    }
                }
                assert forall|m2: int|
                    0 <= m2 < m + 1 && member_is_stale(members@, removed@, updaters@, m2)
                    implies key_in(out@, #[trigger] members@[m2].signature_key@) by {
                    if m2 < m {
                        let j = choose|j: int|
                            0 <= j < out0.len() && out0[j]@ == members@[m2].signature_key@;
                        assert(out@[j]@ == members@[m2].signature_key@);
                    } else {
                        assert(out@[out0.len() as int]@ == members@[m2].signature_key@);
                    }
                }
            }
        } else {
            proof {
                assert(!member_is_stale(members@, removed@, updaters@, m as int));
                assert forall|j: int| 0 <= j < out@.len() implies is_stale_key_upto(
                    members@,
                    removed@,
                    updaters@,
                    m + 1,
                    #[trigger] out@[j]@,
                ) by {
                    lemma_stale_upto_widen(members@, removed@, updaters@, m as int, m + 1, out@[j]@);
                }
                assert forall|m2: int|
                    0 <= m2 < m + 1 && member_is_stale(members@, removed@, updaters@, m2)
                    implies key_in(out@, #[trigger] members@[m2].signature_key@) by {
                    if m2 == m {
                        assert(false);
                    }
                }
            }
        }
        m = m + 1;
    }
    proof {
        assert forall|k: Seq<u8>| #[trigger]
            key_in(out@, k) <==> is_stale_key(members@, removed@, updaters@, k) by {
            if key_in(out@, k) {
                let j = choose|j: int| 0 <= j < out@.len() && out@[j]@ == k;
                assert(is_stale_key_upto(
                    members@,
                    removed@,
                    updaters@,
                    members@.len() as int,
                    out@[j]@,
                ));
            }
            if is_stale_key(members@, removed@, updaters@, k) {
                let m2 = choose|m2: int|
                    0 <= m2 < members@.len() && (#[trigger] members@[m2].signature_key@) == k
                        && member_is_stale(members@, removed@, updaters@, m2);
                assert(key_in(out@, members@[m2].signature_key@));
            }
        }
    }
    out
}

} // verus!
