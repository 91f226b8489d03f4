//! The past-group-state cache: retains, per epoch, the exported tree snapshot
//! that pending joiners still need, and evicts a snapshot the moment no
//! pending joiner references it.
//!
//! Aging reference for expiration: wall-clock seconds since insertion, with
//! the current time supplied by the caller on every mutating call.

use vstd::prelude::*;

use crate::bytes::{bytes_eq, clone_bytes};
use crate::pool::GroupEpoch;

verus! {

/// One pending joiner: a signature public key and the epoch whose snapshot
/// that joiner still needs.
#[derive(Debug, Clone, PartialEq, Eq)]
pub struct JoinerEntry {
    pub key: Vec<u8>,
    pub epoch: u64,
}

/// One retained snapshot: the epoch, the time it was recorded, and the
/// serialized exported ratchet tree.
#[derive(Debug, Clone, PartialEq, Eq)]
pub struct StateEntry {
    pub epoch: u64,
    pub inserted_at: u64,
    pub tree: Vec<u8>,
}

/// Tracks, per pending joiner, which epoch's tree snapshot they still need,
/// and stores exactly the snapshots that at least one joiner references.
#[derive(Debug)]
pub struct PastGroupStates {
    potential_joiners: Vec<JoinerEntry>,
    past_group_states: Vec<StateEntry>,
}

/// Whether the key `k` occurs in the list `l`.
pub open spec fn key_in_list(l: Seq<Vec<u8>>, k: Seq<u8>) -> bool {
    exists|i: int| 0 <= i < l.len() && l[i]@ == k
}

impl PastGroupStates {
    /// The joiner with key `key` is tracked, pointing at some epoch.
    pub closed spec fn tracks_joiner(self, key: Seq<u8>) -> bool {
        exists|i: int|
            0 <= i < self.potential_joiners@.len() && self.potential_joiners@[i].key@ == key
    }

    /// The joiner with key `key` is tracked and points at `epoch`.
    pub closed spec fn joins_to(self, key: Seq<u8>, epoch: u64) -> bool {
        exists|i: int|
            0 <= i < self.potential_joiners@.len() && self.potential_joiners@[i].key@ == key
                && self.potential_joiners@[i].epoch == epoch
    }

    /// A snapshot is stored for `epoch`.
    pub closed spec fn has_state(self, epoch: u64) -> bool {
        exists|i: int|
            0 <= i < self.past_group_states@.len() && self.past_group_states@[i].epoch == epoch
    }

    /// A snapshot is stored for `epoch` with insertion time `inserted_at` and
    /// tree bytes `tree`.
    pub closed spec fn state_entry_is(self, epoch: u64, inserted_at: u64, tree: Seq<u8>) -> bool {
        exists|i: int|
            0 <= i < self.past_group_states@.len() && self.past_group_states@[i].epoch == epoch
                && self.past_group_states@[i].inserted_at == inserted_at
                && self.past_group_states@[i].tree@ == tree
    }

    /// A snapshot with tree bytes `tree` is stored for `epoch`, whatever its
    /// insertion time.
    pub closed spec fn state_tree_is(self, epoch: u64, tree: Seq<u8>) -> bool {
        exists|i: int|
            0 <= i < self.past_group_states@.len() && self.past_group_states@[i].epoch == epoch
                && self.past_group_states@[i].tree@ == tree
    }

    /// Some joiner currently points at `epoch`.
    pub closed spec fn epoch_referenced(self, epoch: u64) -> bool {
        exists|i: int|
            0 <= i < self.potential_joiners@.len() && self.potential_joiners@[i].epoch == epoch
    }

    /// Both internal lists hold each key at most once.
    pub closed spec fn wf_unique(self) -> bool {
        &&& forall|i: int, j: int|
            0 <= i < j < self.potential_joiners@.len() ==> self.potential_joiners@[i].key@
                != self.potential_joiners@[j].key@
        &&& forall|i: int, j: int|
            0 <= i < j < self.past_group_states@.len() ==> self.past_group_states@[i].epoch
                != self.past_group_states@[j].epoch
    }

    /// The cache's central invariant: a snapshot is stored for an epoch if
    /// and only if at least one pending joiner currently points at it.
    pub closed spec fn wf_refs(self) -> bool {
        &&& forall|i: int|
            0 <= i < self.past_group_states@.len() ==> self.epoch_referenced(
                #[trigger] self.past_group_states@[i].epoch,
            )
        &&& forall|i: int|
            0 <= i < self.potential_joiners@.len() ==> self.has_state(
                #[trigger] self.potential_joiners@[i].epoch,
            )
    }

    pub closed spec fn wf(self) -> bool {
        self.wf_unique() && self.wf_refs()
    }

    /// Every stored snapshot is referenced, and every tracked joiner's epoch
    /// is stored: the two sides of the well-formedness invariant, restated
    /// over the cache's observable predicates.
    pub proof fn lemma_state_iff_referenced(self, epoch: u64)
        requires
            self.wf(),
        ensures
            self.has_state(epoch) <==> self.epoch_referenced(epoch),
    {
        if self.has_state(epoch) {
            let i = choose|i: int|
                0 <= i < self.past_group_states@.len() && self.past_group_states@[i].epoch
                    == epoch;
            assert(self.epoch_referenced(self.past_group_states@[i].epoch));
        }
        if self.epoch_referenced(epoch) {
            let i = choose|i: int|
                0 <= i < self.potential_joiners@.len() && self.potential_joiners@[i].epoch
                    == epoch;
            assert(self.has_state(self.potential_joiners@[i].epoch));
        }
    }

    /// A tracked joiner points at one epoch at a time.
    pub proof fn lemma_joiner_points_at_one_epoch(self, key: Seq<u8>, e1: u64, e2: u64)
        requires
            self.wf(),
            self.joins_to(key, e1),
            self.joins_to(key, e2),
        ensures
            e1 == e2,
    {
        let i = choose|i: int|
            0 <= i < self.potential_joiners@.len() && self.potential_joiners@[i].key@ == key
                && self.potential_joiners@[i].epoch == e1;
        let j = choose|j: int|
            0 <= j < self.potential_joiners@.len() && self.potential_joiners@[j].key@ == key
                && self.potential_joiners@[j].epoch == e2;
        if i < j {
            assert(self.potential_joiners@[i].key@ != self.potential_joiners@[j].key@);
        } else if j < i {
            assert(self.potential_joiners@[j].key@ != self.potential_joiners@[i].key@);
        }
    }

    /// An empty cache: nothing tracked, nothing stored.
    pub fn new() -> (r: Self)
        ensures
            r.wf(),
            forall|k: Seq<u8>| !r.tracks_joiner(k),
            forall|k: Seq<u8>, e: u64| !r.joins_to(k, e),
            forall|e: u64| !r.has_state(e),
    {
        Self { potential_joiners: Vec::new(), past_group_states: Vec::new() }
    }

    /// Point `key` at `epoch`, overwriting any earlier entry for `key`.
    #[verifier::rlimit(50)]
    fn upsert_joiner(&mut self, key: &Vec<u8>, epoch: u64)
        requires
            old(self).wf_unique(),
        ensures
            final(self).wf_unique(),
            final(self).past_group_states == old(self).past_group_states,
            final(self).joins_to(key@, epoch),
            forall|k: Seq<u8>, e: u64|
                k != key@ ==> (final(self).joins_to(k, e) <==> old(self).joins_to(k, e)),
            forall|e: u64|
                final(self).epoch_referenced(e) ==> e == epoch || old(self).epoch_referenced(e),
    {
        let ghost oldj = self.potential_joiners@;
        let mut i: usize = 0;
        while i < self.potential_joiners.len()
            invariant
                0 <= i <= self.potential_joiners.len(),
                *self == *old(self),
                oldj == self.potential_joiners@,
                old(self).wf_unique(),
                forall|j: int| 0 <= j < i ==> self.potential_joiners@[j].key@ != key@,
            decreases self.potential_joiners.len() - i,
        {
            if bytes_eq(self.potential_joiners[i].key.as_slice(), key.as_slice()) {
                let entry = JoinerEntry { key: clone_bytes(key), epoch };
                self.potential_joiners.set(i, entry);
                proof {
                    let newj = self.potential_joiners@;
                    assert(newj.len() == oldj.len());
                    assert(forall|j: int| 0 <= j < newj.len() && j != i ==> newj[j] == oldj[j]);
                    assert(newj[i as int].key@ == oldj[i as int].key@);
                    assert(forall|j: int|
                        0 <= j < newj.len() ==> (#[trigger] newj[j].key@) == oldj[j].key@);
                    assert(newj[i as int].key@ == key@ && newj[i as int].epoch == epoch);
                    assert(self.joins_to(key@, epoch));
                    assert forall|a: int, b: int| 0 <= a < b < newj.len() implies newj[a].key@
                        != newj[b].key@ by {
                        assert(newj[a].key@ == oldj[a].key@);
                        assert(newj[b].key@ == oldj[b].key@);
                    }
                    assert forall|k: Seq<u8>, e: u64| k != key@ implies (self.joins_to(k, e)
                        <==> old(self).joins_to(k, e)) by {
                        if self.joins_to(k, e) {
                            let j = choose|j: int|
                                0 <= j < newj.len() && newj[j].key@ == k && newj[j].epoch == e;
                            assert(j != i);
                            assert(oldj[j].key@ == k && oldj[j].epoch == e);
                        }
                        if old(self).joins_to(k, e) {
                            let j = choose|j: int|
                                0 <= j < oldj.len() && oldj[j].key@ == k && oldj[j].epoch == e;
                            assert(j != i);
                            assert(newj[j].key@ == k && newj[j].epoch == e);
                        }
                    }
                    assert forall|e: u64| self.epoch_referenced(e) implies e == epoch || old(
                        self,
                    ).epoch_referenced(e) by {
                        let j = choose|j: int| 0 <= j < newj.len() && newj[j].epoch == e;
                        if j != i {
                            assert(oldj[j].epoch == e);
                        }
                    }
                }
                return ;
            }
            i = i + 1;
        }
        let entry = JoinerEntry { key: clone_bytes(key), epoch };
        self.potential_joiners.push(entry);
        proof {
            let newj = self.potential_joiners@;
            assert(newj == oldj.push(entry));
            assert(newj[newj.len() - 1].key@ == key@ && newj[newj.len() - 1].epoch == epoch);
            assert(self.joins_to(key@, epoch));
            assert forall|k: Seq<u8>, e: u64| k != key@ implies (self.joins_to(k, e) <==> old(
                self,
            ).joins_to(k, e)) by {
                if self.joins_to(k, e) {
                    let j = choose|j: int|
                        0 <= j < newj.len() && newj[j].key@ == k && newj[j].epoch == e;
                    assert(j < oldj.len());
                    assert(oldj[j].key@ == k && oldj[j].epoch == e);
                }
                if old(self).joins_to(k, e) {
                    let j = choose|j: int|
                        0 <= j < oldj.len() && oldj[j].key@ == k && oldj[j].epoch == e;
                    assert(newj[j].key@ == k && newj[j].epoch == e);
                }
            }
        }
    }

    /// Store (or overwrite) the snapshot for `epoch`.
    #[verifier::rlimit(50)]
    fn upsert_state(&mut self, epoch: u64, inserted_at: u64, tree: Vec<u8>)
        requires
            old(self).wf_unique(),
        ensures
            final(self).wf_unique(),
            final(self).potential_joiners == old(self).potential_joiners,
            final(self).state_entry_is(epoch, inserted_at, tree@),
            final(self).has_state(epoch),
            forall|e: u64|
                #[trigger] final(self).has_state(e) <==> e == epoch || old(self).has_state(e),
            forall|e: u64, t: u64, tr: Seq<u8>|
                e != epoch ==> (final(self).state_entry_is(e, t, tr) <==> old(
                    self,
                ).state_entry_is(e, t, tr)),
    {
        let ghost olds = self.past_group_states@;
        let mut i: usize = 0;
        while i < self.past_group_states.len()
            invariant
                0 <= i <= self.past_group_states.len(),
                *self == *old(self),
                olds == self.past_group_states@,
                old(self).wf_unique(),
                forall|j: int| 0 <= j < i ==> self.past_group_states@[j].epoch != epoch,
            decreases self.past_group_states.len() - i,
        {
            if self.past_group_states[i].epoch == epoch {
                self.past_group_states.set(i, StateEntry { epoch, inserted_at, tree });
                proof {
                    let news = self.past_group_states@;
                    assert(news.len() == olds.len());
                    assert(forall|j: int| 0 <= j < news.len() && j != i ==> news[j] == olds[j]);
                    assert(news[i as int].epoch == olds[i as int].epoch);
                    assert(forall|j: int|
                        0 <= j < news.len() ==> (#[trigger] news[j].epoch) == olds[j].epoch);
                    assert(self.state_entry_is(epoch, inserted_at, tree@));
                    assert forall|a: int, b: int| 0 <= a < b < news.len() implies news[a].epoch
                        != news[b].epoch by {
                        assert(news[a].epoch == olds[a].epoch);
                        assert(news[b].epoch == olds[b].epoch);
                    }
                    assert forall|e: u64| #[trigger]
                        self.has_state(e) <==> e == epoch || old(self).has_state(e) by {
                        if self.has_state(e) {
                            let j = choose|j: int| 0 <= j < news.len() && news[j].epoch == e;
                            if j != i {
                                assert(olds[j].epoch == e);
                            }
                        }
                        if e == epoch {
                            assert(news[i as int].epoch == e);
                        }
                        if old(self).has_state(e) {
                            let j = choose|j: int| 0 <= j < olds.len() && olds[j].epoch == e;
                            assert(news[j].epoch == e);
                        }
                    }
                    assert forall|e: u64, t: u64, tr: Seq<u8>| e != epoch implies (
                    self.state_entry_is(e, t, tr) <==> old(self).state_entry_is(e, t, tr)) by {
                        if self.state_entry_is(e, t, tr) {
                            let j = choose|j: int|
                                0 <= j < news.len() && news[j].epoch == e && news[j].inserted_at
                                    == t && news[j].tree@ == tr;
                            assert(j != i);
                            assert(olds[j].epoch == e && olds[j].inserted_at == t && olds[j].tree@
                                == tr);
                        }
                        if old(self).state_entry_is(e, t, tr) {
                            let j = choose|j: int|
                                0 <= j < olds.len() && olds[j].epoch == e && olds[j].inserted_at
                                    == t && olds[j].tree@ == tr;
                            assert(j != i);
                            assert(news[j].epoch == e && news[j].inserted_at == t && news[j].tree@
                                == tr);
                        }
                    }
                }
                return ;
            }
            i = i + 1;
        }
        let entry = StateEntry { epoch, inserted_at, tree };
        self.past_group_states.push(entry);
        proof {
            let news = self.past_group_states@;
            assert(news == olds.push(entry));
            assert(news[news.len() - 1].epoch == epoch && news[news.len() - 1].inserted_at
                == inserted_at && news[news.len() - 1].tree@ == tree@);
            assert(self.state_entry_is(epoch, inserted_at, tree@));
            assert(self.has_state(epoch));
            assert forall|e: u64| #[trigger]
                self.has_state(e) <==> e == epoch || old(self).has_state(e) by {
                if self.has_state(e) {
                    let j = choose|j: int| 0 <= j < news.len() && news[j].epoch == e;
                    if j < olds.len() {
                        assert(olds[j].epoch == e);
                    }
                }
                if old(self).has_state(e) {
                    let j = choose|j: int| 0 <= j < olds.len() && olds[j].epoch == e;
                    assert(news[j].epoch == e);
                }
            }
            assert forall|e: u64, t: u64, tr: Seq<u8>| e != epoch implies (self.state_entry_is(
                e,
                t,
                tr,
            ) <==> old(self).state_entry_is(e, t, tr)) by {
                if self.state_entry_is(e, t, tr) {
                    let j = choose|j: int|
                        0 <= j < news.len() && news[j].epoch == e && news[j].inserted_at == t
                            && news[j].tree@ == tr;
                    assert(j < olds.len());
                    assert(olds[j].epoch == e && olds[j].inserted_at == t && olds[j].tree@ == tr);
                }
                if old(self).state_entry_is(e, t, tr) {
                    let j = choose|j: int|
                        0 <= j < olds.len() && olds[j].epoch == e && olds[j].inserted_at == t
                            && olds[j].tree@ == tr;
                    assert(news[j].epoch == e && news[j].inserted_at == t && news[j].tree@ == tr);
                }
            }
        }
    }

    /// Whether some joiner points at `epoch`.
    fn is_referenced(&self, epoch: u64) -> (r: bool)
        ensures
            r == self.epoch_referenced(epoch),
    {
        let mut i: usize = 0;
        while i < self.potential_joiners.len()
            invariant
                0 <= i <= self.potential_joiners.len(),
                forall|j: int| 0 <= j < i ==> self.potential_joiners@[j].epoch != epoch,
            decreases self.potential_joiners.len() - i,
        {
            if self.potential_joiners[i].epoch == epoch {
                return true;
            }
            i = i + 1;
        }
        false
    }

    /// Whether a snapshot is stored for `epoch`.
    fn has_state_for(&self, epoch: u64) -> (r: bool)
        ensures
            r == self.has_state(epoch),
    {
        let mut i: usize = 0;
        while i < self.past_group_states.len()
            invariant
                0 <= i <= self.past_group_states.len(),
                forall|j: int| 0 <= j < i ==> self.past_group_states@[j].epoch != epoch,
            decreases self.past_group_states.len() - i,
        {
            if self.past_group_states[i].epoch == epoch {
                return true;
            }
            i = i + 1;
        }
        false
    }

    /// Drop every stored snapshot that no joiner references any more.
    #[verifier::rlimit(50)]
    fn sweep_unreferenced_states(&mut self)
        requires
            old(self).wf_unique(),
        ensures
            final(self).wf_unique(),
            final(self).potential_joiners == old(self).potential_joiners,
            forall|e: u64, t: u64, tr: Seq<u8>|
                #[trigger] final(self).state_entry_is(e, t, tr) <==> (old(self).state_entry_is(
                    e,
                    t,
                    tr,
                ) && old(self).epoch_referenced(e)),
            forall|e: u64|
                #[trigger] final(self).has_state(e) <==> (old(self).has_state(e) && old(
                    self,
                ).epoch_referenced(e)),
    {
        let ghost olds = self.past_group_states@;
        let mut kept: Vec<StateEntry> = Vec::new();
        let mut i: usize = 0;
        while i < self.past_group_states.len()
            invariant
                0 <= i <= self.past_group_states.len(),
                *self == *old(self),
                olds == self.past_group_states@,
                old(self).wf_unique(),
                forall|j: int|
                    0 <= j < kept@.len() ==> exists|h: int|
                        0 <= h < i && (#[trigger] kept@[j].epoch) == olds[h].epoch
                            && kept@[j].inserted_at == olds[h].inserted_at && kept@[j].tree@
                            == olds[h].tree@,
                forall|j: int|
                    0 <= j < kept@.len() ==> old(self).epoch_referenced(#[trigger] kept@[j].epoch),
                forall|h: int|
                    0 <= h < i && old(self).epoch_referenced(#[trigger] olds[h].epoch) ==> exists|
                        j: int,
                    |
                        0 <= j < kept@.len() && (#[trigger] kept@[j].epoch) == olds[h].epoch
                            && kept@[j].inserted_at == olds[h].inserted_at && kept@[j].tree@
                            == olds[h].tree@,
                forall|j1: int, j2: int|
                    0 <= j1 < j2 < kept@.len() ==> kept@[j1].epoch != kept@[j2].epoch,
            decreases self.past_group_states.len() - i,
        {
            let referenced = self.is_referenced(self.past_group_states[i].epoch);
            if referenced {
                let entry = StateEntry {
                    epoch: self.past_group_states[i].epoch,
                    inserted_at: self.past_group_states[i].inserted_at,
                    tree: clone_bytes(&self.past_group_states[i].tree),
                };
                let ghost kept0 = kept@;
                kept.push(entry);
                proof {
                    assert(forall|j: int| 0 <= j < kept0.len() ==> kept@[j] == kept0[j]);
                    assert(kept@[kept0.len() as int].epoch == olds[i as int].epoch
                        && kept@[kept0.len() as int].inserted_at == olds[i as int].inserted_at
                        && kept@[kept0.len() as int].tree@ == olds[i as int].tree@);
                    assert forall|j1: int, j2: int|
                        0 <= j1 < j2 < kept@.len() implies kept@[j1].epoch != kept@[j2].epoch by {
                        if j2 == kept@.len() - 1 {
                            let h = choose|h: int|
                                0 <= h < i && (#[trigger] kept0[j1].epoch) == olds[h].epoch
                                    && kept0[j1].inserted_at == olds[h].inserted_at
                                    && kept0[j1].tree@ == olds[h].tree@;
                            assert(olds[h].epoch != olds[i as int].epoch);
                        }
                    }
                    assert forall|h: int|
                        0 <= h < i + 1 && old(self).epoch_referenced(#[trigger] olds[h].epoch)
                        implies exists|j: int|
                        0 <= j < kept@.len() && (#[trigger] kept@[j].epoch) == olds[h].epoch
                            && kept@[j].inserted_at == olds[h].inserted_at && kept@[j].tree@
                            == olds[h].tree@ by {
                        if h < i {
                            let j = choose|j: int|
                                0 <= j < kept0.len() && (#[trigger] kept0[j].epoch)
                                    == olds[h].epoch && kept0[j].inserted_at
                                    == olds[h].inserted_at && kept0[j].tree@ == olds[h].tree@;
                            assert(kept@[j].epoch == olds[h].epoch && kept@[j].inserted_at
                                == olds[h].inserted_at && kept@[j].tree@ == olds[h].tree@);
                        } else {
                            assert(kept@[kept0.len() as int].epoch == olds[h].epoch
                                && kept@[kept0.len() as int].inserted_at == olds[h].inserted_at
                                && kept@[kept0.len() as int].tree@ == olds[h].tree@);
                        }
                    }
                }
            }
            i = i + 1;
        }
        self.past_group_states = kept;
        proof {
            let news = self.past_group_states@;
            assert forall|e: u64, t: u64, tr: Seq<u8>| #[trigger]
                self.state_entry_is(e, t, tr) <==> (old(self).state_entry_is(e, t, tr) && old(
                    self,
                ).epoch_referenced(e)) by {
                if self.state_entry_is(e, t, tr) {
                    let j = choose|j: int|
                        0 <= j < news.len() && news[j].epoch == e && news[j].inserted_at == t
                            && news[j].tree@ == tr;
                    let h = choose|h: int|
                        0 <= h < olds.len() && (#[trigger] news[j].epoch) == olds[h].epoch
                            && news[j].inserted_at == olds[h].inserted_at && news[j].tree@
                            == olds[h].tree@;
                    assert(olds[h].epoch == e && olds[h].inserted_at == t && olds[h].tree@ == tr);
                    assert(old(self).state_entry_is(e, t, tr));
                }
                if old(self).state_entry_is(e, t, tr) && old(self).epoch_referenced(e) {
                    let h = choose|h: int|
                        0 <= h < olds.len() && olds[h].epoch == e && olds[h].inserted_at == t
                            && olds[h].tree@ == tr;
                    assert(old(self).epoch_referenced(olds[h].epoch));
                    let j = choose|j: int|
                        0 <= j < news.len() && (#[trigger] news[j].epoch) == olds[h].epoch
                            && news[j].inserted_at == olds[h].inserted_at && news[j].tree@
                            == olds[h].tree@;
                    assert(self.state_entry_is(e, t, tr));
                }
            }
            assert forall|e: u64| #[trigger]
                self.has_state(e) <==> (old(self).has_state(e) && old(self).epoch_referenced(
                    e,
                )) by {
                if self.has_state(e) {
                    let j = choose|j: int| 0 <= j < news.len() && news[j].epoch == e;
                    let h = choose|h: int|
                        0 <= h < olds.len() && (#[trigger] news[j].epoch) == olds[h].epoch
                            && news[j].inserted_at == olds[h].inserted_at && news[j].tree@
                            == olds[h].tree@;
                    assert(olds[h].epoch == e);
                }
                if old(self).has_state(e) && old(self).epoch_referenced(e) {
                    let h = choose|h: int| 0 <= h < olds.len() && olds[h].epoch == e;
                    assert(old(self).epoch_referenced(olds[h].epoch));
                    let j = choose|j: int|
                        0 <= j < news.len() && (#[trigger] news[j].epoch) == olds[h].epoch
                            && news[j].inserted_at == olds[h].inserted_at && news[j].tree@
                            == olds[h].tree@;
                    assert(news[j].epoch == e);
                }
            }
        }
    }

    /// Drop every joiner whose epoch no longer has a stored snapshot.
    #[verifier::rlimit(50)]
    fn sweep_unbacked_joiners(&mut self)
        requires
            old(self).wf_unique(),
        ensures
            final(self).wf_unique(),
            final(self).past_group_states == old(self).past_group_states,
            forall|k: Seq<u8>, e: u64|
                #[trigger] final(self).joins_to(k, e) <==> (old(self).joins_to(k, e) && old(
                    self,
                ).has_state(e)),
            forall|e: u64|
                #[trigger] final(self).epoch_referenced(e) <==> (old(self).epoch_referenced(e)
                    && old(self).has_state(e)),
    {
        let ghost oldj = self.potential_joiners@;
        let mut kept: Vec<JoinerEntry> = Vec::new();
        let mut i: usize = 0;
        while i < self.potential_joiners.len()
            invariant
                0 <= i <= self.potential_joiners.len(),
                *self == *old(self),
                oldj == self.potential_joiners@,
                old(self).wf_unique(),
                forall|j: int|
                    0 <= j < kept@.len() ==> exists|h: int|
                        0 <= h < i && (#[trigger] kept@[j].key@) == oldj[h].key@ && kept@[j].epoch
                            == oldj[h].epoch,
                forall|j: int|
                    0 <= j < kept@.len() ==> old(self).has_state(#[trigger] kept@[j].epoch),
                forall|h: int|
                    0 <= h < i && old(self).has_state(#[trigger] oldj[h].epoch) ==> exists|j: int|
                        0 <= j < kept@.len() && (#[trigger] kept@[j].key@) == oldj[h].key@
                            && kept@[j].epoch == oldj[h].epoch,
                forall|j1: int, j2: int|
                    0 <= j1 < j2 < kept@.len() ==> kept@[j1].key@ != kept@[j2].key@,
            decreases self.potential_joiners.len() - i,
        {
            let backed = self.has_state_for(self.potential_joiners[i].epoch);
            if backed {
                let entry = JoinerEntry {
                    key: clone_bytes(&self.potential_joiners[i].key),
                    epoch: self.potential_joiners[i].epoch,
                };
                let ghost kept0 = kept@;
                kept.push(entry);
                proof {
                    assert(forall|j: int| 0 <= j < kept0.len() ==> kept@[j] == kept0[j]);
                    assert(kept@[kept0.len() as int].key@ == oldj[i as int].key@
                        && kept@[kept0.len() as int].epoch == oldj[i as int].epoch);
                    assert forall|j1: int, j2: int|
                        0 <= j1 < j2 < kept@.len() implies kept@[j1].key@ != kept@[j2].key@ by {
                        if j2 == kept@.len() - 1 {
                            let h = choose|h: int|
                                0 <= h < i && (#[trigger] kept0[j1].key@) == oldj[h].key@
                                    && kept0[j1].epoch == oldj[h].epoch;
                            assert(oldj[h].key@ != oldj[i as int].key@);
                        }
                    }
                    assert forall|h: int|
                        0 <= h < i + 1 && old(self).has_state(#[trigger] oldj[h].epoch)
                        implies exists|j: int|
                        0 <= j < kept@.len() && (#[trigger] kept@[j].key@) == oldj[h].key@
                            && kept@[j].epoch == oldj[h].epoch by {
                        if h < i {
                            let j = choose|j: int|
                                0 <= j < kept0.len() && (#[trigger] kept0[j].key@) == oldj[h].key@
                                    && kept0[j].epoch == oldj[h].epoch;
                            assert(kept@[j].key@ == oldj[h].key@ && kept@[j].epoch
                                == oldj[h].epoch);
                        } else {
                            assert(kept@[kept0.len() as int].key@ == oldj[h].key@
                                && kept@[kept0.len() as int].epoch == oldj[h].epoch);
                        }
                    }
                }
            }
            i = i + 1;
        }
        self.potential_joiners = kept;
        proof {
            let newj = self.potential_joiners@;
            assert forall|k: Seq<u8>, e: u64| #[trigger]
                self.joins_to(k, e) <==> (old(self).joins_to(k, e) && old(self).has_state(e)) by {
                if self.joins_to(k, e) {
                    let j = choose|j: int|
                        0 <= j < newj.len() && newj[j].key@ == k && newj[j].epoch == e;
                    let h = choose|h: int|
                        0 <= h < oldj.len() && (#[trigger] newj[j].key@) == oldj[h].key@
                            && newj[j].epoch == oldj[h].epoch;
                    assert(oldj[h].key@ == k && oldj[h].epoch == e);
                }
                if old(self).joins_to(k, e) && old(self).has_state(e) {
                    let h = choose|h: int|
                        0 <= h < oldj.len() && oldj[h].key@ == k && oldj[h].epoch == e;
                    assert(old(self).has_state(oldj[h].epoch));
                    let j = choose|j: int|
                        0 <= j < newj.len() && (#[trigger] newj[j].key@) == oldj[h].key@
                            && newj[j].epoch == oldj[h].epoch;
                    assert(newj[j].key@ == k && newj[j].epoch == e);
                }
            }
            assert forall|e: u64| #[trigger]
                self.epoch_referenced(e) <==> (old(self).epoch_referenced(e) && old(
                    self,
                ).has_state(e)) by {
                if self.epoch_referenced(e) {
                    let j = choose|j: int| 0 <= j < newj.len() && newj[j].epoch == e;
                    let h = choose|h: int|
                        0 <= h < oldj.len() && (#[trigger] newj[j].key@) == oldj[h].key@
                            && newj[j].epoch == oldj[h].epoch;
                    assert(oldj[h].epoch == e);
                }
                if old(self).epoch_referenced(e) && old(self).has_state(e) {
                    let h = choose|h: int| 0 <= h < oldj.len() && oldj[h].epoch == e;
                    assert(old(self).has_state(oldj[h].epoch));
                    let j = choose|j: int|
                        0 <= j < newj.len() && (#[trigger] newj[j].key@) == oldj[h].key@
                            && newj[j].epoch == oldj[h].epoch;
                    assert(newj[j].epoch == e);
                }
            }
        }
    }

    /// Record the snapshot for `epoch` on behalf of the newly added joiners.
    ///
    /// A no-op when `joiners` is empty: nothing references the epoch yet.
    /// Otherwise each listed joiner is (re-)pointed at `epoch` — only the most
    /// recently committed epoch matters for a not-yet-joined member — the
    /// snapshot for `epoch` is stored, and any snapshot left without a
    /// referencing joiner by the re-pointing is dropped.
    #[verifier::rlimit(50)]
    pub fn add_state(&mut self, epoch: &GroupEpoch, tree: Vec<u8>, joiners: &Vec<Vec<u8>>, now: u64)
        requires
            old(self).wf(),
        ensures
            final(self).wf(),
            joiners@.len() == 0 ==> *final(self) == *old(self),
            joiners@.len() > 0 ==> {
                &&& forall|i: int|
                    0 <= i < joiners@.len() ==> final(self).joins_to(
                        #[trigger] joiners@[i]@,
                        epoch.value,
                    )
                &&& forall|k: Seq<u8>, e: u64|
                    !key_in_list(joiners@, k) ==> (final(self).joins_to(k, e) <==> old(
                        self,
                    ).joins_to(k, e))
                &&& final(self).state_entry_is(epoch.value, now, tree@)
                &&& forall|e: u64, t: u64, tr: Seq<u8>|
                    e != epoch.value ==> (#[trigger] final(self).state_entry_is(e, t, tr) ==> old(
                        self,
                    ).state_entry_is(e, t, tr))
            },
    {
        if joiners.len() == 0 {
            return ;
        }
        let mut i: usize = 0;
        while i < joiners.len()
            invariant
                0 <= i <= joiners@.len(),
                self.wf_unique(),
                self.past_group_states == old(self).past_group_states,
                forall|j: int| 0 <= j < i ==> self.joins_to(#[trigger] joiners@[j]@, epoch.value),
                forall|k: Seq<u8>, e: u64|
                    !key_in_list(joiners@, k) ==> (self.joins_to(k, e) <==> old(self).joins_to(
                        k,
                        e,
                    )),
            decreases joiners@.len() - i,
        {
            let ghost prev = *self;
            self.upsert_joiner(&joiners[i], epoch.value);
            assert forall|j: int| 0 <= j <= i implies self.joins_to(
                #[trigger] joiners@[j]@,
                epoch.value,
            ) by {
                if joiners@[j]@ != joiners@[i as int]@ {
                    assert(prev.joins_to(joiners@[j]@, epoch.value));
                }
            }
            assert forall|k: Seq<u8>, e: u64| !key_in_list(joiners@, k) implies (self.joins_to(
                k,
                e,
            ) <==> old(self).joins_to(k, e)) by {
                assert(k != joiners@[i as int]@);
                assert(prev.joins_to(k, e) <==> old(self).joins_to(k, e));
            }
            i = i + 1;
        }
        self.upsert_state(epoch.value, now, tree);
        let ghost mid = *self;
        self.sweep_unreferenced_states();
        proof {
            assert(mid.joins_to(joiners@[0]@, epoch.value));
            assert(mid.epoch_referenced(epoch.value)) by {
                let j = choose|j: int|
                    0 <= j < mid.potential_joiners@.len() && mid.potential_joiners@[j].key@
                        == joiners@[0]@ && mid.potential_joiners@[j].epoch == epoch.value;
                assert(mid.potential_joiners@[j].epoch == epoch.value);
            }
            assert(self.state_entry_is(epoch.value, now, tree@));
            assert(self.wf_refs()) by {
                assert forall|i2: int|
                    0 <= i2 < self.past_group_states@.len() implies self.epoch_referenced(
                    #[trigger] self.past_group_states@[i2].epoch,
                ) by {
                    let e = self.past_group_states@[i2].epoch;
                    assert(self.has_state(e));
                    assert(mid.epoch_referenced(e));
                }
                assert forall|i2: int|
                    0 <= i2 < self.potential_joiners@.len() implies self.has_state(
                    #[trigger] self.potential_joiners@[i2].epoch,
                ) by {
                    let k = self.potential_joiners@[i2].key@;
                    let e = self.potential_joiners@[i2].epoch;
                    assert(mid.joins_to(k, e));
                    assert(mid.epoch_referenced(e)) by {
                        let j = choose|j: int|
                            0 <= j < mid.potential_joiners@.len() && mid.potential_joiners@[j].key@
                                == k && mid.potential_joiners@[j].epoch == e;
                        assert(mid.potential_joiners@[j].epoch == e);
                    }
                    if e == epoch.value {
                        assert(mid.has_state(e));
                    } else {
                        if key_in_list(joiners@, k) {
                            let h = choose|h: int| 0 <= h < joiners@.len() && joiners@[h]@ == k;
                            assert(mid.joins_to(joiners@[h]@, epoch.value));
                            mid_joins_unique(mid, k, e, epoch.value);
                            assert(false);
                        } else {
                            assert(old(self).joins_to(k, e));
                            let j = choose|j: int|
                                0 <= j < old(self).potential_joiners@.len() && old(
                                    self,
                                ).potential_joiners@[j].key@ == k && old(
                                    self,
                                ).potential_joiners@[j].epoch == e;
                            assert(old(self).has_state(old(self).potential_joiners@[j].epoch));
                            assert(mid.has_state(e));
                        }
                    }
                }
            }
        }
    }

    /// Drop the pending entries of the listed joiners; snapshots untouched.
    #[verifier::rlimit(50)]
    fn drop_listed_joiners(&mut self, joiners: &Vec<Vec<u8>>)
        requires
            old(self).wf_unique(),
        ensures
            final(self).wf_unique(),
            final(self).past_group_states == old(self).past_group_states,
            forall|k: Seq<u8>, e: u64|
                #[trigger] final(self).joins_to(k, e) <==> (old(self).joins_to(k, e)
                    && !key_in_list(joiners@, k)),
    {
        let ghost oldj = self.potential_joiners@;
        let mut kept: Vec<JoinerEntry> = Vec::new();
        let mut i: usize = 0;
        while i < self.potential_joiners.len()
            invariant
                0 <= i <= self.potential_joiners.len(),
                *self == *old(self),
                oldj == self.potential_joiners@,
                old(self).wf_unique(),
                forall|j: int|
                    0 <= j < kept@.len() ==> exists|h: int|
                        0 <= h < i && (#[trigger] kept@[j].key@) == oldj[h].key@ && kept@[j].epoch
                            == oldj[h].epoch,
                forall|j: int|
                    0 <= j < kept@.len() ==> !key_in_list(joiners@, #[trigger] kept@[j].key@),
                forall|h: int|
                    0 <= h < i && !key_in_list(joiners@, #[trigger] oldj[h].key@) ==> exists|
                        j: int,
                    |
                        0 <= j < kept@.len() && (#[trigger] kept@[j].key@) == oldj[h].key@
                            && kept@[j].epoch == oldj[h].epoch,
                forall|j1: int, j2: int|
                    0 <= j1 < j2 < kept@.len() ==> kept@[j1].key@ != kept@[j2].key@,
            decreases self.potential_joiners.len() - i,
        {
            let listed = key_listed(joiners, self.potential_joiners[i].key.as_slice());
            if !listed {
                let entry = JoinerEntry {
                    key: clone_bytes(&self.potential_joiners[i].key),
                    epoch: self.potential_joiners[i].epoch,
                };
                let ghost kept0 = kept@;
                kept.push(entry);
                proof {
                    assert(forall|j: int| 0 <= j < kept0.len() ==> kept@[j] == kept0[j]);
                    assert(kept@[kept0.len() as int].key@ == oldj[i as int].key@
                        && kept@[kept0.len() as int].epoch == oldj[i as int].epoch);
                    assert forall|j1: int, j2: int|
                        0 <= j1 < j2 < kept@.len() implies kept@[j1].key@ != kept@[j2].key@ by {
                        if j2 == kept@.len() - 1 {
                            let h = choose|h: int|
                                0 <= h < i && (#[trigger] kept0[j1].key@) == oldj[h].key@
                                    && kept0[j1].epoch == oldj[h].epoch;
                            assert(oldj[h].key@ != oldj[i as int].key@);
                        }
                    }
                    assert forall|h: int|
                        0 <= h < i + 1 && !key_in_list(joiners@, #[trigger] oldj[h].key@)
                        implies exists|j: int|
                        0 <= j < kept@.len() && (#[trigger] kept@[j].key@) == oldj[h].key@
                            && kept@[j].epoch == oldj[h].epoch by {
                        if h < i {
                            let j = choose|j: int|
                                0 <= j < kept0.len() && (#[trigger] kept0[j].key@) == oldj[h].key@
                                    && kept0[j].epoch == oldj[h].epoch;
                            assert(kept@[j].key@ == oldj[h].key@ && kept@[j].epoch
                                == oldj[h].epoch);
                        } else {
                            assert(kept@[kept0.len() as int].key@ == oldj[h].key@
                                && kept@[kept0.len() as int].epoch == oldj[h].epoch);
                        }
                    }
                }
            }
            i = i + 1;
        }
        self.potential_joiners = kept;
        proof {
            let newj = self.potential_joiners@;
            assert forall|k: Seq<u8>, e: u64| #[trigger]
                self.joins_to(k, e) <==> (old(self).joins_to(k, e) && !key_in_list(
                    joiners@,
                    k,
                )) by {
                if self.joins_to(k, e) {
                    let j = choose|j: int|
                        0 <= j < newj.len() && newj[j].key@ == k && newj[j].epoch == e;
                    let h = choose|h: int|
                        0 <= h < oldj.len() && (#[trigger] newj[j].key@) == oldj[h].key@
                            && newj[j].epoch == oldj[h].epoch;
                    assert(oldj[h].key@ == k && oldj[h].epoch == e);
                }
                if old(self).joins_to(k, e) && !key_in_list(joiners@, k) {
                    let h = choose|h: int|
                        0 <= h < oldj.len() && oldj[h].key@ == k && oldj[h].epoch == e;
                    assert(!key_in_list(joiners@, oldj[h].key@));
                    let j = choose|j: int|
                        0 <= j < newj.len() && (#[trigger] newj[j].key@) == oldj[h].key@
                            && newj[j].epoch == oldj[h].epoch;
                    assert(newj[j].key@ == k && newj[j].epoch == e);
                }
            }
        }
    }

    /// Drop the pending entry of every listed joiner, then drop every
    /// snapshot that no remaining joiner references.
    #[verifier::rlimit(50)]
    pub fn remove_potential_joiners(&mut self, joiners: &Vec<Vec<u8>>)
        requires
            old(self).wf(),
        ensures
            final(self).wf(),
            forall|k: Seq<u8>, e: u64|
                #[trigger] final(self).joins_to(k, e) <==> (old(self).joins_to(k, e)
                    && !key_in_list(joiners@, k)),
            forall|e: u64, t: u64, tr: Seq<u8>|
                #[trigger] final(self).state_entry_is(e, t, tr) ==> old(self).state_entry_is(
                    e,
                    t,
                    tr,
                ),
    {
        self.drop_listed_joiners(joiners);
        let ghost mid = *self;
        self.sweep_unreferenced_states();
        proof {
            assert(self.potential_joiners == mid.potential_joiners);
            assert forall|k: Seq<u8>, e: u64| #[trigger]
                self.joins_to(k, e) <==> (old(self).joins_to(k, e) && !key_in_list(
                    joiners@,
                    k,
                )) by {
                assert(self.joins_to(k, e) <==> mid.joins_to(k, e));
            }
            assert(self.wf_refs()) by {
                assert forall|i2: int|
                    0 <= i2 < self.past_group_states@.len() implies self.epoch_referenced(
                    #[trigger] self.past_group_states@[i2].epoch,
                ) by {
                    let e = self.past_group_states@[i2].epoch;
                    assert(self.has_state(e));
                    assert(mid.epoch_referenced(e));
                }
                assert forall|i2: int|
                    0 <= i2 < self.potential_joiners@.len() implies self.has_state(
                    #[trigger] self.potential_joiners@[i2].epoch,
                ) by {
                    let k = self.potential_joiners@[i2].key@;
                    let e = self.potential_joiners@[i2].epoch;
                    assert(self.joins_to(k, e));
                    assert(mid.joins_to(k, e));
                    assert(old(self).joins_to(k, e));
                    let j = choose|j: int|
                        0 <= j < old(self).potential_joiners@.len() && old(
                            self,
                        ).potential_joiners@[j].key@ == k && old(self).potential_joiners@[j].epoch
                            == e;
                    assert(old(self).has_state(old(self).potential_joiners@[j].epoch));
                    assert(mid.past_group_states == old(self).past_group_states);
                    assert(mid.has_state(e));
                    assert(mid.epoch_referenced(e)) by {
                        let j2 = choose|j2: int|
                            0 <= j2 < mid.potential_joiners@.len()
                                && mid.potential_joiners@[j2].key@ == k
                                && mid.potential_joiners@[j2].epoch == e;
                        assert(mid.potential_joiners@[j2].epoch == e);
                    }
                    assert(self.has_state(e));
                }
            }
        }
    }

    /// Drop every snapshot recorded before the expiration window; joiner
    /// entries untouched.
    #[verifier::rlimit(50)]
    fn drop_expired_states(&mut self, now: u64, expiration_seconds: u64)
        requires
            old(self).wf_unique(),
        ensures
            final(self).wf_unique(),
            final(self).potential_joiners == old(self).potential_joiners,
            forall|e: u64, t: u64, tr: Seq<u8>|
                #[trigger] final(self).state_entry_is(e, t, tr) <==> (old(self).state_entry_is(
                    e,
                    t,
                    tr,
                ) && !(now > t + expiration_seconds)),
            forall|e: u64| #[trigger] final(self).has_state(e) ==> old(self).has_state(e),
    {
        let ghost olds = self.past_group_states@;
        let mut kept: Vec<StateEntry> = Vec::new();
        let mut i: usize = 0;
        while i < self.past_group_states.len()
            invariant
                0 <= i <= self.past_group_states.len(),
                *self == *old(self),
                olds == self.past_group_states@,
                old(self).wf_unique(),
                forall|j: int|
                    0 <= j < kept@.len() ==> exists|h: int|
                        0 <= h < i && (#[trigger] kept@[j].epoch) == olds[h].epoch
                            && kept@[j].inserted_at == olds[h].inserted_at && kept@[j].tree@
                            == olds[h].tree@,
                forall|j: int|
                    0 <= j < kept@.len() ==> !(now > #[trigger] kept@[j].inserted_at
                        + expiration_seconds),
                forall|h: int|
                    0 <= h < i && !(now > #[trigger] olds[h].inserted_at + expiration_seconds)
                        ==> exists|j: int|
                        0 <= j < kept@.len() && (#[trigger] kept@[j].epoch) == olds[h].epoch
                            && kept@[j].inserted_at == olds[h].inserted_at && kept@[j].tree@
                            == olds[h].tree@,
                forall|j1: int, j2: int|
                    0 <= j1 < j2 < kept@.len() ==> kept@[j1].epoch != kept@[j2].epoch,
            decreases self.past_group_states.len() - i,
        {
            let entry_time = self.past_group_states[i].inserted_at;
            let expired = now > entry_time && now - entry_time > expiration_seconds;
            if !expired {
                let entry = StateEntry {
                    epoch: self.past_group_states[i].epoch,
                    inserted_at: self.past_group_states[i].inserted_at,
                    tree: clone_bytes(&self.past_group_states[i].tree),
                };
                let ghost kept0 = kept@;
                kept.push(entry);
                proof {
                    assert(forall|j: int| 0 <= j < kept0.len() ==> kept@[j] == kept0[j]);
                    assert(kept@[kept0.len() as int].epoch == olds[i as int].epoch
                        && kept@[kept0.len() as int].inserted_at == olds[i as int].inserted_at
                        && kept@[kept0.len() as int].tree@ == olds[i as int].tree@);
                    assert forall|j1: int, j2: int|
                        0 <= j1 < j2 < kept@.len() implies kept@[j1].epoch != kept@[j2].epoch by {
                        if j2 == kept@.len() - 1 {
                            let h = choose|h: int|
                                0 <= h < i && (#[trigger] kept0[j1].epoch) == olds[h].epoch
                                    && kept0[j1].inserted_at == olds[h].inserted_at
                                    && kept0[j1].tree@ == olds[h].tree@;
                            assert(olds[h].epoch != olds[i as int].epoch);
                        }
                    }
                    assert forall|h: int|
                        0 <= h < i + 1 && !(now > #[trigger] olds[h].inserted_at
                            + expiration_seconds) implies exists|j: int|
                        0 <= j < kept@.len() && (#[trigger] kept@[j].epoch) == olds[h].epoch
                            && kept@[j].inserted_at == olds[h].inserted_at && kept@[j].tree@
                            == olds[h].tree@ by {
                        if h < i {
                            let j = choose|j: int|
                                0 <= j < kept0.len() && (#[trigger] kept0[j].epoch)
                                    == olds[h].epoch && kept0[j].inserted_at
                                    == olds[h].inserted_at && kept0[j].tree@ == olds[h].tree@;
                            assert(kept@[j].epoch == olds[h].epoch && kept@[j].inserted_at
                                == olds[h].inserted_at && kept@[j].tree@ == olds[h].tree@);
                        } else {
                            assert(kept@[kept0.len() as int].epoch == olds[h].epoch
                                && kept@[kept0.len() as int].inserted_at == olds[h].inserted_at
                                && kept@[kept0.len() as int].tree@ == olds[h].tree@);
                        }
                    }
                }
            }
            i = i + 1;
        }
        self.past_group_states = kept;
        proof {
            let news = self.past_group_states@;
            assert forall|e: u64, t: u64, tr: Seq<u8>| #[trigger]
                self.state_entry_is(e, t, tr) <==> (old(self).state_entry_is(e, t, tr) && !(now > t
                    + expiration_seconds)) by {
                if self.state_entry_is(e, t, tr) {
                    let j = choose|j: int|
                        0 <= j < news.len() && news[j].epoch == e && news[j].inserted_at == t
                            && news[j].tree@ == tr;
                    let h = choose|h: int|
                        0 <= h < olds.len() && (#[trigger] news[j].epoch) == olds[h].epoch
                            && news[j].inserted_at == olds[h].inserted_at && news[j].tree@
                            == olds[h].tree@;
                    assert(olds[h].epoch == e && olds[h].inserted_at == t && olds[h].tree@ == tr);
                    assert(!(now > news[j].inserted_at + expiration_seconds));
                }
                if old(self).state_entry_is(e, t, tr) && !(now > t + expiration_seconds) {
                    let h = choose|h: int|
                        0 <= h < olds.len() && olds[h].epoch == e && olds[h].inserted_at == t
                            && olds[h].tree@ == tr;
                    assert(!(now > olds[h].inserted_at + expiration_seconds));
                    let j = choose|j: int|
                        0 <= j < news.len() && (#[trigger] news[j].epoch) == olds[h].epoch
                            && news[j].inserted_at == olds[h].inserted_at && news[j].tree@
                            == olds[h].tree@;
                    assert(news[j].epoch == e && news[j].inserted_at == t && news[j].tree@ == tr);
                }
            }
            assert forall|e: u64| #[trigger] self.has_state(e) implies old(self).has_state(e) by {
                let j = choose|j: int| 0 <= j < news.len() && news[j].epoch == e;
                let h = choose|h: int|
                    0 <= h < olds.len() && (#[trigger] news[j].epoch) == olds[h].epoch
                        && news[j].inserted_at == olds[h].inserted_at && news[j].tree@
                        == olds[h].tree@;
                assert(olds[h].epoch == e);
            }
        }
    }

    /// Drop every snapshot older than `expiration_seconds`, together with the
    /// pending joiners that referenced it. A snapshot recorded at time `t` is
    /// expired at time `now` when `now > t + expiration_seconds`; a reference
    /// time earlier than the recording time never expires anything.
    #[verifier::rlimit(50)]
    pub fn remove_expired_states(&mut self, now: u64, expiration_seconds: u64)
        requires
            old(self).wf(),
        ensures
            final(self).wf(),
            forall|e: u64, t: u64, tr: Seq<u8>|
                #[trigger] final(self).state_entry_is(e, t, tr) <==> (old(self).state_entry_is(
                    e,
                    t,
                    tr,
                ) && !(now > t + expiration_seconds)),
            forall|k: Seq<u8>, e: u64|
                #[trigger] final(self).joins_to(k, e) ==> old(self).joins_to(k, e),
    {
        self.drop_expired_states(now, expiration_seconds);
        let ghost mid = *self;
        self.sweep_unbacked_joiners();
        proof {
            assert(self.past_group_states == mid.past_group_states);
            assert forall|e: u64, t: u64, tr: Seq<u8>| #[trigger]
                self.state_entry_is(e, t, tr) <==> (old(self).state_entry_is(e, t, tr) && !(now > t
                    + expiration_seconds)) by {
                assert(self.state_entry_is(e, t, tr) <==> mid.state_entry_is(e, t, tr));
            }
            assert forall|k: Seq<u8>, e: u64| #[trigger] final(self).joins_to(k, e) implies old(
                self,
            ).joins_to(k, e) by {
                assert(mid.joins_to(k, e) ==> old(self).joins_to(k, e));
            }
            assert(self.wf_refs()) by {
                assert forall|i2: int|
                    0 <= i2 < self.past_group_states@.len() implies self.epoch_referenced(
                    #[trigger] self.past_group_states@[i2].epoch,
                ) by {
                    let e = self.past_group_states@[i2].epoch;
                    assert(mid.has_state(e));
                    assert(old(self).has_state(e));
                    assert(old(self).epoch_referenced(e)) by {
                        let h = choose|h: int|
                            0 <= h < old(self).past_group_states@.len() && old(
                                self,
                            ).past_group_states@[h].epoch == e;
                        assert(old(self).epoch_referenced(
                            old(self).past_group_states@[h].epoch,
                        ));
                    }
                    let j = choose|j: int|
                        0 <= j < old(self).potential_joiners@.len() && old(
                            self,
                        ).potential_joiners@[j].epoch == e;
                    let k = old(self).potential_joiners@[j].key@;
                    assert(old(self).joins_to(k, e));
                    assert(mid.joins_to(k, e));
                    assert(self.joins_to(k, e));
                    let j2 = choose|j2: int|
                        0 <= j2 < self.potential_joiners@.len() && self.potential_joiners@[j2].key@
                            == k && self.potential_joiners@[j2].epoch == e;
                    assert(self.potential_joiners@[j2].epoch == e);
                }
                assert forall|i2: int|
                    0 <= i2 < self.potential_joiners@.len() implies self.has_state(
                    #[trigger] self.potential_joiners@[i2].epoch,
                ) by {
                    let k = self.potential_joiners@[i2].key@;
                    let e = self.potential_joiners@[i2].epoch;
                    assert(self.joins_to(k, e));
                    assert(mid.has_state(e));
                    assert(self.has_state(e));
                }
            }
        }
    }

    /// The epoch the tracked joiner `joiner` points at, if any.
    fn tracked_epoch(&self, joiner: &Vec<u8>) -> (r: Option<u64>)
        ensures
            match r {
                Some(e) => self.joins_to(joiner@, e),
                None => !self.tracks_joiner(joiner@),
            },
    {
        let mut i: usize = 0;
        while i < self.potential_joiners.len()
            invariant
                0 <= i <= self.potential_joiners.len(),
                forall|j: int| 0 <= j < i ==> self.potential_joiners@[j].key@ != joiner@,
            decreases self.potential_joiners.len() - i,
        {
            if bytes_eq(self.potential_joiners[i].key.as_slice(), joiner.as_slice()) {
                return Some(self.potential_joiners[i].epoch);
            }
            i = i + 1;
        }
        None
    }

    /// Dump the cache into one byte blob, for persistence through a storage
    /// provider: the joiner entries, then the snapshot entries, each list
    /// count-prefixed and each byte string length-prefixed (8-byte
    /// little-endian integers throughout).
    pub fn to_bytes(&self) -> Vec<u8>
    {
        let mut out: Vec<u8> = Vec::new();
        let count = vstd::bytes::u64_to_le_bytes(self.potential_joiners.len() as u64);
        append_bytes(&mut out, count.as_slice());
        let mut i: usize = 0;
        while i < self.potential_joiners.len()
            decreases self.potential_joiners.len() - i,
        {
            let len_bytes = vstd::bytes::u64_to_le_bytes(self.potential_joiners[i].key.len() as u64);
            append_bytes(&mut out, len_bytes.as_slice());
            append_bytes(&mut out, self.potential_joiners[i].key.as_slice());
            let epoch_bytes = vstd::bytes::u64_to_le_bytes(self.potential_joiners[i].epoch);
            append_bytes(&mut out, epoch_bytes.as_slice());
            i = i + 1;
        }
        let count2 = vstd::bytes::u64_to_le_bytes(self.past_group_states.len() as u64);
        append_bytes(&mut out, count2.as_slice());
        let mut h: usize = 0;
        while h < self.past_group_states.len()
            decreases self.past_group_states.len() - h,
        {
            let epoch_bytes = vstd::bytes::u64_to_le_bytes(self.past_group_states[h].epoch);
            append_bytes(&mut out, epoch_bytes.as_slice());
            let time_bytes = vstd::bytes::u64_to_le_bytes(self.past_group_states[h].inserted_at);
            append_bytes(&mut out, time_bytes.as_slice());
            let len_bytes = vstd::bytes::u64_to_le_bytes(self.past_group_states[h].tree.len() as u64);
            append_bytes(&mut out, len_bytes.as_slice());
            append_bytes(&mut out, self.past_group_states[h].tree.as_slice());
            h = h + 1;
        }
        out
    }

    /// The snapshot for `epoch`, but only if `joiner` is still tracked as
    /// pending for exactly that epoch. A pure read.
    pub fn get_for_joiner(&self, epoch: &GroupEpoch, joiner: &Vec<u8>) -> (r: Option<&Vec<u8>>)
        requires
            self.wf(),
        ensures
            match r {
                Some(tree) => self.joins_to(joiner@, epoch.value) && self.state_tree_is(
                    epoch.value,
                    tree@,
                ),
                None => !self.joins_to(joiner@, epoch.value),
            },
    {
        let tracked_epoch = self.tracked_epoch(joiner);
        let e = match tracked_epoch {
            Some(e) => e,
            None => {
                proof {
                    if self.joins_to(joiner@, epoch.value) {
                        let j = choose|j: int|
                            0 <= j < self.potential_joiners@.len()
                                && self.potential_joiners@[j].key@ == joiner@
                                && self.potential_joiners@[j].epoch == epoch.value;
                        assert(self.tracks_joiner(joiner@));
                    }
                }
                return None;
            },
        };
        if e != epoch.value {
            proof {
                if self.joins_to(joiner@, epoch.value) {
                    self.lemma_joiner_points_at_one_epoch(joiner@, e, epoch.value);
                }
            }
            return None;
        }
        let mut h: usize = 0;
        while h < self.past_group_states.len()
            invariant
                0 <= h <= self.past_group_states.len(),
                self.wf(),
                self.joins_to(joiner@, epoch.value),
                forall|j: int| 0 <= j < h ==> self.past_group_states@[j].epoch != epoch.value,
            decreases self.past_group_states.len() - h,
        {
            if self.past_group_states[h].epoch == epoch.value {
                let result = &self.past_group_states[h].tree;
                proof {
                    assert(0 <= h < self.past_group_states@.len()
                        && self.past_group_states@[h as int].epoch == epoch.value
                        && self.past_group_states@[h as int].tree@ == result@);
                    assert(self.state_tree_is(epoch.value, result@));
                }
                return Some(result);
            }
            h = h + 1;
        }
        // Unreachable: the invariant guarantees a stored snapshot for every
        // tracked epoch.
        proof {
            let j = choose|j: int|
                0 <= j < self.potential_joiners@.len() && self.potential_joiners@[j].key@
                    == joiner@ && self.potential_joiners@[j].epoch == epoch.value;
            assert(self.has_state(self.potential_joiners@[j].epoch));
            assert(false);
        }
        None
    }
}

/// A joiner that points at one epoch points at no other.
proof fn mid_joins_unique(s: PastGroupStates, k: Seq<u8>, e1: u64, e2: u64)
    requires
        s.wf_unique(),
        s.joins_to(k, e1),
        s.joins_to(k, e2),
    ensures
        e1 == e2,
{
    let i = choose|i: int|
        0 <= i < s.potential_joiners@.len() && s.potential_joiners@[i].key@ == k
            && s.potential_joiners@[i].epoch == e1;
    let j = choose|j: int|
        0 <= j < s.potential_joiners@.len() && s.potential_joiners@[j].key@ == k
            && s.potential_joiners@[j].epoch == e2;
    if i < j {
        assert(s.potential_joiners@[i].key@ != s.potential_joiners@[j].key@);
    } else if j < i {
        assert(s.potential_joiners@[j].key@ != s.potential_joiners@[i].key@);
    }
}

/// Append every byte of `b` to `out`.
fn append_bytes(out: &mut Vec<u8>, b: &[u8])
    ensures
        final(out)@ == old(out)@ + b@,
{
    let mut i: usize = 0;
    while i < b.len()
        invariant
            0 <= i <= b@.len(),
            out@ == old(out)@ + b@.take(i as int),
        decreases b@.len() - i,
    {
        out.push(b[i]);
        proof {
            assert(out@ =~= old(out)@ + b@.take(i + 1));
        }
        i = i + 1;
    }
    proof {
        assert(b@.take(b@.len() as int) =~= b@);
        assert(out@ =~= old(out)@ + b@);
    }
}

/// Whether `key` occurs in `list`.
fn key_listed(list: &Vec<Vec<u8>>, key: &[u8]) -> (r: bool)
    ensures
        r == key_in_list(list@, key@),
{
    let mut i: usize = 0;
    while i < list.len()
        invariant
            0 <= i <= list@.len(),
            forall|j: int| 0 <= j < i ==> list@[j]@ != key@,
        decreases list@.len() - i,
    {
        if bytes_eq(list[i].as_slice(), key) {
            return true;
        }
        i = i + 1;
    }
    false
}

} // verus!

