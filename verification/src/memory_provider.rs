//! The in-memory reference storage provider: one record of public group
//! state per group id, plus two side maps for past-group-states and
//! group-info payloads, each map behind its own reader-writer lock.
//!
//! All payloads are carried as plain byte strings; the embedding application
//! chooses how values are serialized into them.

use vstd::prelude::*;
use vstd::rwlock::{RwLock, RwLockPredicate};

use crate::bytes::{bytes_eq, clone_bytes};

verus! {

/// A map from opaque group-id bytes to payload bytes, with unique keys.
#[derive(Debug)]
pub struct BytesMap {
    entries: Vec<(Vec<u8>, Vec<u8>)>,
}

impl BytesMap {
    /// Some entry has key `k`.
    pub closed spec fn contains_key(self, k: Seq<u8>) -> bool {
        exists|i: int| 0 <= i < self.entries@.len() && self.entries@[i].0@ == k
    }

    /// The entry with key `k` holds payload `v`.
    pub closed spec fn entry_is(self, k: Seq<u8>, v: Seq<u8>) -> bool {
        exists|i: int|
            0 <= i < self.entries@.len() && self.entries@[i].0@ == k && self.entries@[i].1@ == v
    }

    /// Each key occurs at most once.
    pub closed spec fn wf(self) -> bool {
        forall|i: int, j: int|
            0 <= i < j < self.entries@.len() ==> self.entries@[i].0@ != self.entries@[j].0@
    }

    /// The number of entries.
    pub closed spec fn spec_len(self) -> nat {
        self.entries@.len()
    }

    /// The raw entry sequence, for the bulk export encoding.
    pub closed spec fn spec_entries(self) -> Seq<(Vec<u8>, Vec<u8>)> {
        self.entries@
    }

    pub fn new() -> (r: Self)
        ensures
            r.wf(),
            forall|k: Seq<u8>| !r.contains_key(k),
            r.spec_len() == 0,
    {
        Self { entries: Vec::new() }
    }

    /// Store `v` under `k`, overwriting any earlier payload for `k`.
    #[verifier::rlimit(50)]
    pub fn insert(&mut self, k: &[u8], v: Vec<u8>)
        requires
            old(self).wf(),
        ensures
            final(self).wf(),
            final(self).entry_is(k@, v@),
            final(self).contains_key(k@),
            forall|k2: Seq<u8>, v2: Seq<u8>|
                k2 != k@ ==> (final(self).entry_is(k2, v2) <==> old(self).entry_is(k2, v2)),
            forall|k2: Seq<u8>|
                #[trigger] final(self).contains_key(k2) <==> k2 == k@ || old(self).contains_key(
                    k2,
                ),
    {
        let ghost olde = self.entries@;
        let mut i: usize = 0;
        while i < self.entries.len()
            invariant
                0 <= i <= self.entries.len(),
                *self == *old(self),
                olde == self.entries@,
                old(self).wf(),
                forall|j: int| 0 <= j < i ==> self.entries@[j].0@ != k@,
            decreases self.entries.len() - i,
        {
            if bytes_eq(self.entries[i].0.as_slice(), k) {
                let key_copy = clone_bytes(&self.entries[i].0);
                self.entries.set(i, (key_copy, v));
                proof {
                    let newe = self.entries@;
                    assert(newe.len() == olde.len());
                    assert(forall|j: int| 0 <= j < newe.len() && j != i ==> newe[j] == olde[j]);
                    assert(forall|j: int|
                        0 <= j < newe.len() ==> (#[trigger] newe[j].0@) == olde[j].0@);
                    assert(newe[i as int].0@ == k@ && newe[i as int].1@ == v@);
                    assert forall|a: int, b: int| 0 <= a < b < newe.len() implies newe[a].0@
                        != newe[b].0@ by {
                        assert(newe[a].0@ == olde[a].0@);
                        assert(newe[b].0@ == olde[b].0@);
                    }
                    assert forall|k2: Seq<u8>, v2: Seq<u8>| k2 != k@ implies (self.entry_is(k2, v2)
                        <==> old(self).entry_is(k2, v2)) by {
                        if self.entry_is(k2, v2) {
                            let j = choose|j: int|
                                0 <= j < newe.len() && newe[j].0@ == k2 && newe[j].1@ == v2;
                            assert(j != i);
                            assert(olde[j].0@ == k2 && olde[j].1@ == v2);
                        }
                        if old(self).entry_is(k2, v2) {
                            let j = choose|j: int|
                                0 <= j < olde.len() && olde[j].0@ == k2 && olde[j].1@ == v2;
                            assert(j != i);
                            assert(newe[j].0@ == k2 && newe[j].1@ == v2);
                        }
                    }
                    assert forall|k2: Seq<u8>| #[trigger]
                        self.contains_key(k2) <==> k2 == k@ || old(self).contains_key(k2) by {
                        if self.contains_key(k2) {
                            let j = choose|j: int| 0 <= j < newe.len() && newe[j].0@ == k2;
                            if j != i {
                                assert(olde[j].0@ == k2);
                            }
                        }
                        if k2 == k@ {
                            assert(newe[i as int].0@ == k2);
                        }
                        if old(self).contains_key(k2) {
                            let j = choose|j: int| 0 <= j < olde.len() && olde[j].0@ == k2;
                            assert(newe[j].0@ == olde[j].0@);
                        }
                    }
                }
                return ;
            }
            i = i + 1;
        }
        let mut key_copy: Vec<u8> = Vec::new();
        key_copy.extend_from_slice(k);
        proof {
            assert(key_copy@ =~= k@);
        }
        let entry = (key_copy, v);
        self.entries.push(entry);
        proof {
            let newe = self.entries@;
            assert(newe == olde.push(entry));
            assert(newe[newe.len() - 1].0@ == k@ && newe[newe.len() - 1].1@ == v@);
            assert forall|k2: Seq<u8>, v2: Seq<u8>| k2 != k@ implies (self.entry_is(k2, v2) <==> old(
                self,
            ).entry_is(k2, v2)) by {
                if self.entry_is(k2, v2) {
                    let j = choose|j: int| 0 <= j < newe.len() && newe[j].0@ == k2 && newe[j].1@ == v2;
                    assert(j < olde.len());
                    assert(olde[j].0@ == k2 && olde[j].1@ == v2);
                }
                if old(self).entry_is(k2, v2) {
                    let j = choose|j: int| 0 <= j < olde.len() && olde[j].0@ == k2 && olde[j].1@ == v2;
                    assert(newe[j].0@ == k2 && newe[j].1@ == v2);
                }
            }
            assert forall|k2: Seq<u8>| #[trigger]
                self.contains_key(k2) <==> k2 == k@ || old(self).contains_key(k2) by {
                if self.contains_key(k2) {
                    let j = choose|j: int| 0 <= j < newe.len() && newe[j].0@ == k2;
                    if j < olde.len() {
                        assert(olde[j].0@ == k2);
                    }
                }
                if old(self).contains_key(k2) {
                    let j = choose|j: int| 0 <= j < olde.len() && olde[j].0@ == k2;
                    assert(newe[j].0@ == k2);
                }
            }
        }
    }

    /// The payload stored under `k`, if any.
    pub fn get(&self, k: &[u8]) -> (r: Option<&Vec<u8>>)
        requires
            self.wf(),
        ensures
            match r {
                Some(v) => self.entry_is(k@, v@) && self.contains_key(k@),
                None => !self.contains_key(k@),
            },
    {
        let mut i: usize = 0;
        while i < self.entries.len()
            invariant
                0 <= i <= self.entries.len(),
                forall|j: int| 0 <= j < i ==> self.entries@[j].0@ != k@,
            decreases self.entries.len() - i,
        {
            if bytes_eq(self.entries[i].0.as_slice(), k) {
                let result = &self.entries[i].1;
                proof {
                    assert(self.entries@[i as int].0@ == k@ && self.entries@[i as int].1@
                        == result@);
                }
                return Some(result);
            }
            i = i + 1;
        }
        None
    }

    /// Drop the entry under `k`, if any.
    #[verifier::rlimit(50)]
    pub fn remove(&mut self, k: &[u8])
        requires
            old(self).wf(),
        ensures
            final(self).wf(),
            !final(self).contains_key(k@),
            forall|k2: Seq<u8>, v2: Seq<u8>|
                k2 != k@ ==> (final(self).entry_is(k2, v2) <==> old(self).entry_is(k2, v2)),
            forall|k2: Seq<u8>|
                k2 != k@ ==> (final(self).contains_key(k2) <==> old(self).contains_key(k2)),
    {
        let ghost olde = self.entries@;
        let mut kept: Vec<(Vec<u8>, Vec<u8>)> = Vec::new();
        let mut i: usize = 0;
        while i < self.entries.len()
            invariant
                0 <= i <= self.entries.len(),
                *self == *old(self),
                olde == self.entries@,
                old(self).wf(),
                forall|j: int|
                    0 <= j < kept@.len() ==> exists|h: int|
                        0 <= h < i && (#[trigger] kept@[j].0@) == olde[h].0@ && kept@[j].1@
                            == olde[h].1@,
                forall|j: int| 0 <= j < kept@.len() ==> (#[trigger] kept@[j].0@) != k@,
                forall|h: int|
                    0 <= h < i && (#[trigger] olde[h].0@) != k@ ==> exists|j: int|
                        0 <= j < kept@.len() && (#[trigger] kept@[j].0@) == olde[h].0@
                            && kept@[j].1@ == olde[h].1@,
                forall|j1: int, j2: int|
                    0 <= j1 < j2 < kept@.len() ==> kept@[j1].0@ != kept@[j2].0@,
            decreases self.entries.len() - i,
        {
            if !bytes_eq(self.entries[i].0.as_slice(), k) {
                let entry = (clone_bytes(&self.entries[i].0), clone_bytes(&self.entries[i].1));
                let ghost kept0 = kept@;
                kept.push(entry);
                proof {
                    assert(forall|j: int| 0 <= j < kept0.len() ==> kept@[j] == kept0[j]);
                    assert(kept@[kept0.len() as int].0@ == olde[i as int].0@
                        && kept@[kept0.len() as int].1@ == olde[i as int].1@);
                    assert forall|j1: int, j2: int|
                        0 <= j1 < j2 < kept@.len() implies kept@[j1].0@ != kept@[j2].0@ by {
                        if j2 == kept@.len() - 1 {
                            let h = choose|h: int|
                                0 <= h < i && (#[trigger] kept0[j1].0@) == olde[h].0@
                                    && kept0[j1].1@ == olde[h].1@;
                            assert(olde[h].0@ != olde[i as int].0@);
                        }
                    }
                    assert forall|h: int|
                        0 <= h < i + 1 && (#[trigger] olde[h].0@) != k@ implies exists|j: int|
                        0 <= j < kept@.len() && (#[trigger] kept@[j].0@) == olde[h].0@
                            && kept@[j].1@ == olde[h].1@ by {
                        if h < i {
                            let j = choose|j: int|
                                0 <= j < kept0.len() && (#[trigger] kept0[j].0@) == olde[h].0@
                                    && kept0[j].1@ == olde[h].1@;
                            assert(kept@[j].0@ == olde[h].0@ && kept@[j].1@ == olde[h].1@);
                        } else {
                            assert(kept@[kept0.len() as int].0@ == olde[h].0@
                                && kept@[kept0.len() as int].1@ == olde[h].1@);
                        }
                    }
                }
            }
            i = i + 1;
        }
        self.entries = kept;
        proof {
            let newe = self.entries@;
            assert forall|k2: Seq<u8>, v2: Seq<u8>| k2 != k@ implies (self.entry_is(k2, v2) <==> old(
                self,
            ).entry_is(k2, v2)) by {
                if self.entry_is(k2, v2) {
                    let j = choose|j: int| 0 <= j < newe.len() && newe[j].0@ == k2 && newe[j].1@ == v2;
                    let h = choose|h: int|
                        0 <= h < olde.len() && (#[trigger] newe[j].0@) == olde[h].0@ && newe[j].1@
                            == olde[h].1@;
                    assert(olde[h].0@ == k2 && olde[h].1@ == v2);
                }
                if old(self).entry_is(k2, v2) {
                    let h = choose|h: int| 0 <= h < olde.len() && olde[h].0@ == k2 && olde[h].1@ == v2;
                    assert(olde[h].0@ != k@);
                    let j = choose|j: int|
                        0 <= j < newe.len() && (#[trigger] newe[j].0@) == olde[h].0@ && newe[j].1@
                            == olde[h].1@;
                    assert(newe[j].0@ == k2 && newe[j].1@ == v2);
                }
            }
            assert forall|k2: Seq<u8>| k2 != k@ implies (self.contains_key(k2) <==> old(
                self,
            ).contains_key(k2)) by {
                if self.contains_key(k2) {
                    let j = choose|j: int| 0 <= j < newe.len() && newe[j].0@ == k2;
                    let h = choose|h: int|
                        0 <= h < olde.len() && (#[trigger] newe[j].0@) == olde[h].0@ && newe[j].1@
                            == olde[h].1@;
                    assert(olde[h].0@ == k2);
                }
                if old(self).contains_key(k2) {
                    let h = choose|h: int| 0 <= h < olde.len() && olde[h].0@ == k2;
                    assert(olde[h].0@ != k@);
                    assert(self.entry_is(olde[h].0@, olde[h].1@));
                }
            }
        }
    }

    /// An entry's key is a contained key.
    pub proof fn lemma_entry_implies_contains(self, k: Seq<u8>, v: Seq<u8>)
        requires
            self.entry_is(k, v),
        ensures
            self.contains_key(k),
    {
        let i = choose|i: int|
            0 <= i < self.entries@.len() && self.entries@[i].0@ == k && self.entries@[i].1@ == v;
        assert(0 <= i < self.entries@.len() && self.entries@[i].0@ == k);
    }

    /// A key holds one payload at a time.
    pub proof fn lemma_entry_functional(self, k: Seq<u8>, v1: Seq<u8>, v2: Seq<u8>)
        requires
            self.wf(),
            self.entry_is(k, v1),
            self.entry_is(k, v2),
        ensures
            v1 == v2,
    {
        let i = choose|i: int|
            0 <= i < self.entries@.len() && self.entries@[i].0@ == k && self.entries@[i].1@ == v1;
        let j = choose|j: int|
            0 <= j < self.entries@.len() && self.entries@[j].0@ == k && self.entries@[j].1@ == v2;
        if i < j {
            assert(self.entries@[i].0@ != self.entries@[j].0@);
        } else if j < i {
            assert(self.entries@[j].0@ != self.entries@[i].0@);
        }
    }

    /// The map is empty exactly when it has no entry at all.
    pub proof fn lemma_len_zero_iff_no_entries(self)
        ensures
            (self.spec_len() == 0) <==> (forall|k: Seq<u8>, v: Seq<u8>| !self.entry_is(k, v)),
    {
        if self.spec_len() > 0 {
            assert(self.entry_is(self.entries@[0].0@, self.entries@[0].1@));
        }
    }

    /// The number of entries.
    pub fn len(&self) -> (r: usize)
        ensures
            r == self.spec_len(),
    {
        self.entries.len()
    }


    /// Append the bulk encoding of this map to `out`.
    #[verifier::rlimit(50)]
    fn encode_into(&self, out: &mut Vec<u8>)
        ensures
            final(out)@ == old(out)@ + enc_bytes_map(*self),
            bytes_map_enc_ok(*self),
    {
        let ghost pre = out@;
        let count = vstd::bytes::u64_to_le_bytes(self.entries.len() as u64);
        push_all(out, count.as_slice());
        let mut i: usize = 0;
        while i < self.entries.len()
            invariant
                0 <= i <= self.entries.len(),
                out@ == pre + vstd::bytes::spec_u64_to_le_bytes(self.entries@.len() as u64)
                    + enc_pairs(self.entries@.take(i as int)),
                forall|j: int|
                    0 <= j < i ==> seq_len_ok((#[trigger] self.entries@[j]).0@) && seq_len_ok(
                        self.entries@[j].1@,
                    ),
            decreases self.entries.len() - i,
        {
            let ghost before = out@;
            push_bytes_field(out, self.entries[i].0.as_slice());
            push_bytes_field(out, self.entries[i].1.as_slice());
            proof {
                lemma_enc_pairs_push(
                    self.entries@.take(i as int),
                    self.entries@[i as int],
                );
                assert(self.entries@.take(i + 1) =~= self.entries@.take(i as int).push(
                    self.entries@[i as int],
                ));
                assert(out@ =~= pre + vstd::bytes::spec_u64_to_le_bytes(
                    self.entries@.len() as u64,
                ) + enc_pairs(self.entries@.take(i + 1)));
            }
            i = i + 1;
        }
        proof {
            assert(self.entries@.take(self.entries@.len() as int) =~= self.entries@);
        }
    }

    /// All entries, as fresh copies, in storage order.
    pub fn entries_vec(&self) -> (r: Vec<(Vec<u8>, Vec<u8>)>)
        ensures
            r@.len() == self.spec_len(),
            forall|j: int|
                0 <= j < r@.len() ==> (#[trigger] r@[j].0@) == self.spec_entries()[j].0@
                    && r@[j].1@ == self.spec_entries()[j].1@,
            forall|j: int|
                0 <= j < r@.len() ==> self.entry_is(#[trigger] r@[j].0@, r@[j].1@),
            forall|k2: Seq<u8>, v2: Seq<u8>|
                self.entry_is(k2, v2) ==> exists|j: int|
                    0 <= j < r@.len() && (#[trigger] r@[j].0@) == k2 && r@[j].1@ == v2,
    {
        let mut out: Vec<(Vec<u8>, Vec<u8>)> = Vec::new();
        let mut i: usize = 0;
        while i < self.entries.len()
            invariant
                0 <= i <= self.entries.len(),
                out@.len() == i,
                forall|j: int|
                    0 <= j < i ==> (#[trigger] out@[j].0@) == self.entries@[j].0@ && out@[j].1@
                        == self.entries@[j].1@,
            decreases self.entries.len() - i,
        {
            out.push((clone_bytes(&self.entries[i].0), clone_bytes(&self.entries[i].1)));
            i = i + 1;
        }
        proof {
            assert forall|j: int| 0 <= j < out@.len() implies self.entry_is(
                #[trigger] out@[j].0@,
                out@[j].1@,
            ) by {
                assert(self.entries@[j].0@ == out@[j].0@ && self.entries@[j].1@ == out@[j].1@);
            }
            assert forall|k2: Seq<u8>, v2: Seq<u8>| self.entry_is(k2, v2) implies exists|j: int|
                0 <= j < out@.len() && (#[trigger] out@[j].0@) == k2 && out@[j].1@ == v2 by {
                let h = choose|h: int|
                    0 <= h < self.entries@.len() && self.entries@[h].0@ == k2
                        && self.entries@[h].1@ == v2;
                assert(out@[h].0@ == k2 && out@[h].1@ == v2);
            }
        }
        out
    }
}

/// The four single-valued fields of a per-group record.
#[derive(Debug, Clone, Copy, PartialEq, Eq, Structural)]
pub enum DataType {
    TreeSync,
    InterimTranscriptHash,
    Context,
    ConfirmationTag,
}

/// The public group state the external protocol engine asks a storage
/// provider to keep per group: four serialized artifacts and the queue of
/// pending proposals, keyed by proposal reference.
#[derive(Debug)]
pub struct PublicGroupState {
    pub treesync: Vec<u8>,
    pub interim_transcript_hash: Vec<u8>,
    pub context: Vec<u8>,
    pub confirmation_tag: Vec<u8>,
    pub proposal_queue: BytesMap,
}

impl PublicGroupState {
    /// The bytes of one single-valued field.
    pub open spec fn spec_field(self, dt: DataType) -> Seq<u8> {
        match dt {
            DataType::TreeSync => self.treesync@,
            DataType::InterimTranscriptHash => self.interim_transcript_hash@,
            DataType::Context => self.context@,
            DataType::ConfirmationTag => self.confirmation_tag@,
        }
    }

    /// All four fields and the proposal queue are empty.
    pub open spec fn spec_is_empty(self) -> bool {
        &&& self.treesync@.len() == 0
        &&& self.interim_transcript_hash@.len() == 0
        &&& self.context@.len() == 0
        &&& self.confirmation_tag@.len() == 0
        &&& self.proposal_queue.spec_len() == 0
    }

    /// A record with every field empty.
    pub fn empty() -> (r: Self)
        ensures
            r.spec_is_empty(),
            r.proposal_queue.wf(),
            forall|dt: DataType| #[trigger] r.spec_field(dt) == Seq::<u8>::empty(),
            forall|rf: Seq<u8>| !r.proposal_queue.contains_key(rf),
    {
        let r = Self {
            treesync: Vec::new(),
            interim_transcript_hash: Vec::new(),
            context: Vec::new(),
            confirmation_tag: Vec::new(),
            proposal_queue: BytesMap::new(),
        };
        proof {
            assert forall|dt: DataType| #[trigger] r.spec_field(dt) =~= Seq::<u8>::empty() by {}
        }
        r
    }

    /// Whether every field of this record is empty; an entirely empty record
    /// is pruned from the store rather than kept.
    pub fn is_empty(&self) -> (r: bool)
        ensures
            r == self.spec_is_empty(),
    {
        self.treesync.len() == 0 && self.interim_transcript_hash.len() == 0 && self.context.len()
            == 0 && self.confirmation_tag.len() == 0 && self.proposal_queue.len() == 0
    }

    /// Replace one single-valued field.
    pub fn set_field(&mut self, dt: DataType, payload: Vec<u8>)
        ensures
            final(self).spec_field(dt) == payload@,
            forall|dt2: DataType|
                dt2 != dt ==> #[trigger] final(self).spec_field(dt2) == old(self).spec_field(dt2),
            final(self).proposal_queue == old(self).proposal_queue,
    {
        match dt {
            DataType::TreeSync => {
                self.treesync = payload;
            },
            DataType::InterimTranscriptHash => {
                self.interim_transcript_hash = payload;
            },
            DataType::Context => {
                self.context = payload;
            },
            DataType::ConfirmationTag => {
                self.confirmation_tag = payload;
            },
        }
    }

    /// A reference to one single-valued field.
    pub fn field(&self, dt: DataType) -> (r: &Vec<u8>)
        ensures
            r@ == self.spec_field(dt),
    {
        match dt {
            DataType::TreeSync => &self.treesync,
            DataType::InterimTranscriptHash => &self.interim_transcript_hash,
            DataType::Context => &self.context,
            DataType::ConfirmationTag => &self.confirmation_tag,
        }
    }
}

/// A map from opaque group-id bytes to per-group records, with unique keys.
#[derive(Debug)]
pub struct GroupStateMap {
    entries: Vec<(Vec<u8>, PublicGroupState)>,
}

impl GroupStateMap {
    /// A record is stored under group id `k`.
    pub closed spec fn contains_key(self, k: Seq<u8>) -> bool {
        exists|i: int| 0 <= i < self.entries@.len() && self.entries@[i].0@ == k
    }

    /// The record under `k` has value `v` in field `dt`.
    pub closed spec fn field_is(self, k: Seq<u8>, dt: DataType, v: Seq<u8>) -> bool {
        exists|i: int|
            0 <= i < self.entries@.len() && self.entries@[i].0@ == k && self.entries@[i].1.spec_field(
                dt,
            ) == v
    }

    /// The record under `k` queues proposal bytes `pr` under reference `rf`.
    pub closed spec fn queue_entry_is(self, k: Seq<u8>, rf: Seq<u8>, pr: Seq<u8>) -> bool {
        exists|i: int|
            0 <= i < self.entries@.len() && self.entries@[i].0@ == k
                && self.entries@[i].1.proposal_queue.entry_is(rf, pr)
    }

    /// Keys are unique and every record's queue is itself well-formed.
    pub closed spec fn wf(self) -> bool {
        &&& forall|i: int, j: int|
            0 <= i < j < self.entries@.len() ==> self.entries@[i].0@ != self.entries@[j].0@
        &&& forall|i: int|
            0 <= i < self.entries@.len() ==> (#[trigger] self.entries@[i].1).proposal_queue.wf()
    }

    pub fn new() -> (r: Self)
        ensures
            r.wf(),
            forall|k: Seq<u8>| !r.contains_key(k),
    {
        Self { entries: Vec::new() }
    }

    /// The index of the record under `k`, if any.
    fn find_key(&self, k: &[u8]) -> (r: Option<usize>)
        ensures
            match r {
                Some(i) => 0 <= i < self.entries@.len() && self.entries@[i as int].0@ == k@,
                None => !self.contains_key(k@),
            },
    {
        let mut i: usize = 0;
        while i < self.entries.len()
            invariant
                0 <= i <= self.entries.len(),
                forall|j: int| 0 <= j < i ==> self.entries@[j].0@ != k@,
            decreases self.entries.len() - i,
        {
            if bytes_eq(self.entries[i].0.as_slice(), k) {
                return Some(i);
            }
            i = i + 1;
        }
        None
    }

    /// Every single-valued field of the record under `k` is empty (vacuously
    /// true when no record is stored).
    pub closed spec fn fields_empty_except(self, k: Seq<u8>, dt: DataType) -> bool {
        forall|dt2: DataType| dt2 != dt ==> self.field_is(k, dt2, Seq::<u8>::empty())
    }

    /// Every single-valued field of the record under `k` is empty.
    pub closed spec fn fields_all_empty(self, k: Seq<u8>) -> bool {
        forall|dt: DataType| self.field_is(k, dt, Seq::<u8>::empty())
    }

    /// The record under `k` queues no proposals.
    pub closed spec fn queue_empty(self, k: Seq<u8>) -> bool {
        forall|rf: Seq<u8>, pr: Seq<u8>| !self.queue_entry_is(k, rf, pr)
    }

    /// The queued proposals of group `k`, as (reference, proposal) pairs in
    /// storage order — the order references were first queued in; empty when
    /// no record is stored.
    pub closed spec fn queue_seq(self, k: Seq<u8>) -> Seq<(Vec<u8>, Vec<u8>)> {
        if self.contains_key(k) {
            let i = choose|i: int| 0 <= i < self.entries@.len() && self.entries@[i].0@ == k;
            self.entries@[i].1.proposal_queue.spec_entries()
        } else {
            Seq::empty()
        }
    }

    /// With unique keys, `queue_seq` reads the record at any index whose key
    /// matches.
    proof fn lemma_queue_seq_at(self, k: Seq<u8>, i: int)
        requires
            self.wf(),
            0 <= i < self.entries@.len(),
            self.entries@[i].0@ == k,
        ensures
            self.queue_seq(k) == self.entries@[i].1.proposal_queue.spec_entries(),
    {
        assert(self.contains_key(k));
        let i2 = choose|i2: int| 0 <= i2 < self.entries@.len() && self.entries@[i2].0@ == k;
        if i < i2 {
            assert(self.entries@[i].0@ != self.entries@[i2].0@);
        } else if i2 < i {
            assert(self.entries@[i2].0@ != self.entries@[i].0@);
        }
    }

    /// A stored field's group id is a contained key.
    pub proof fn lemma_field_implies_contains(self, k: Seq<u8>, dt: DataType, v: Seq<u8>)
        requires
            self.field_is(k, dt, v),
        ensures
            self.contains_key(k),
    {
        let i = choose|i: int|
            0 <= i < self.entries@.len() && self.entries@[i].0@ == k
                && self.entries@[i].1.spec_field(dt) == v;
        assert(0 <= i < self.entries@.len() && self.entries@[i].0@ == k);
    }

    /// A queued proposal's group id is a contained key.
    pub proof fn lemma_queue_entry_implies_contains(self, k: Seq<u8>, rf: Seq<u8>, pr: Seq<u8>)
        requires
            self.queue_entry_is(k, rf, pr),
        ensures
            self.contains_key(k),
    {
        let i = choose|i: int|
            0 <= i < self.entries@.len() && self.entries@[i].0@ == k
                && self.entries@[i].1.proposal_queue.entry_is(rf, pr);
        assert(0 <= i < self.entries@.len() && self.entries@[i].0@ == k);
    }

    /// A field holds one value at a time.
    pub proof fn lemma_field_functional(self, k: Seq<u8>, dt: DataType, v1: Seq<u8>, v2: Seq<u8>)
        requires
            self.wf(),
            self.field_is(k, dt, v1),
            self.field_is(k, dt, v2),
        ensures
            v1 == v2,
    {
        let i = choose|i: int|
            0 <= i < self.entries@.len() && self.entries@[i].0@ == k && self.entries@[i].1.spec_field(
                dt,
            ) == v1;
        let j = choose|j: int|
            0 <= j < self.entries@.len() && self.entries@[j].0@ == k && self.entries@[j].1.spec_field(
                dt,
            ) == v2;
        if i < j {
            assert(self.entries@[i].0@ != self.entries@[j].0@);
        } else if j < i {
            assert(self.entries@[j].0@ != self.entries@[i].0@);
        }
    }

    /// Remove and return the record under `k`, if any.
    #[verifier::rlimit(50)]
    fn take_record(&mut self, k: &[u8]) -> (r: Option<PublicGroupState>)
        requires
            old(self).wf(),
        ensures
            final(self).wf(),
            !final(self).contains_key(k@),
            forall|k2: Seq<u8>|
                k2 != k@ ==> (final(self).contains_key(k2) <==> old(self).contains_key(k2)),
            forall|k2: Seq<u8>, dt: DataType, v: Seq<u8>|
                k2 != k@ ==> (final(self).field_is(k2, dt, v) <==> old(self).field_is(k2, dt, v)),
            forall|k2: Seq<u8>, rf: Seq<u8>, pr: Seq<u8>|
                k2 != k@ ==> (final(self).queue_entry_is(k2, rf, pr) <==> old(self).queue_entry_is(
                    k2,
                    rf,
                    pr,
                )),
            match r {
                Some(rec) => old(self).contains_key(k@) && rec.proposal_queue.wf() && (forall|
                    dt: DataType,
                |
                    old(self).field_is(k@, dt, #[trigger] rec.spec_field(dt))) && (forall|
                    rf: Seq<u8>,
                    pr: Seq<u8>,
                |
                    #[trigger] old(self).queue_entry_is(k@, rf, pr)
                        <==> rec.proposal_queue.entry_is(rf, pr)),
                None => !old(self).contains_key(k@),
            },
    {
        let ghost olde = self.entries@;
        let found = self.find_key(k);
        let idx = match found {
            Some(idx) => idx,
            None => {
                return None;
            },
        };
        proof {
            assert(0 <= idx < olde.len() && olde[idx as int].0@ == k@);
        }
        let entry = self.entries.remove(idx);
        let rec = entry.1;
        proof {
            let newe = self.entries@;
            assert(newe == olde.remove(idx as int));
            assert(newe.len() == olde.len() - 1);
            assert(forall|j: int| 0 <= j < idx ==> newe[j] == olde[j]);
            assert(forall|j: int| idx <= j < newe.len() ==> newe[j] == olde[j + 1]);
            assert forall|j: int| 0 <= j < newe.len() implies (#[trigger] newe[j].0@) != k@ by {
                if j < idx {
                    assert(olde[j].0@ != olde[idx as int].0@);
                } else {
                    assert(olde[idx as int].0@ != olde[j + 1].0@);
                }
            }
            assert forall|a: int, b: int| 0 <= a < b < newe.len() implies newe[a].0@
                != newe[b].0@ by {
                let a2: int = if a < idx { a } else { a + 1 };
                let b2: int = if b < idx { b } else { b + 1 };
                assert(newe[a] == olde[a2] && newe[b] == olde[b2]);
                assert(olde[a2].0@ != olde[b2].0@);
            }
            assert forall|j: int| 0 <= j < newe.len() implies (#[trigger] newe[j].1).proposal_queue.wf() by {
                let j2: int = if j < idx { j } else { j + 1 };
                assert(newe[j] == olde[j2]);
                assert(olde[j2].1.proposal_queue.wf());
            }
            assert forall|k2: Seq<u8>| k2 != k@ implies (self.contains_key(k2) <==> old(
                self,
            ).contains_key(k2)) by {
                if self.contains_key(k2) {
                    let j = choose|j: int| 0 <= j < newe.len() && newe[j].0@ == k2;
                    let j2: int = if j < idx { j } else { j + 1 };
                    assert(olde[j2].0@ == k2);
                }
                if old(self).contains_key(k2) {
                    let j = choose|j: int| 0 <= j < olde.len() && olde[j].0@ == k2;
                    assert(j != idx);
                    let j2: int = if j < idx { j } else { j - 1 };
                    assert(newe[j2] == olde[j]);
                }
            }
            assert forall|k2: Seq<u8>, dt: DataType, v: Seq<u8>| k2 != k@ implies (self.field_is(
                k2,
                dt,
                v,
            ) <==> old(self).field_is(k2, dt, v)) by {
                if self.field_is(k2, dt, v) {
                    let j = choose|j: int|
                        0 <= j < newe.len() && newe[j].0@ == k2 && newe[j].1.spec_field(dt) == v;
                    let j2: int = if j < idx { j } else { j + 1 };
                    assert(olde[j2].0@ == k2 && olde[j2].1.spec_field(dt) == v);
                }
                if old(self).field_is(k2, dt, v) {
                    let j = choose|j: int|
                        0 <= j < olde.len() && olde[j].0@ == k2 && olde[j].1.spec_field(dt) == v;
                    assert(j != idx);
                    let j2: int = if j < idx { j } else { j - 1 };
                    assert(newe[j2] == olde[j]);
                }
            }
            assert forall|k2: Seq<u8>, rf: Seq<u8>, pr: Seq<u8>| k2 != k@ implies (
            self.queue_entry_is(k2, rf, pr) <==> old(self).queue_entry_is(k2, rf, pr)) by {
                if self.queue_entry_is(k2, rf, pr) {
                    let j = choose|j: int|
                        0 <= j < newe.len() && newe[j].0@ == k2 && newe[j].1.proposal_queue.entry_is(
                            rf,
                            pr,
                        );
                    let j2: int = if j < idx { j } else { j + 1 };
                    assert(olde[j2].0@ == k2 && olde[j2].1.proposal_queue.entry_is(rf, pr));
                }
                if old(self).queue_entry_is(k2, rf, pr) {
                    let j = choose|j: int|
                        0 <= j < olde.len() && olde[j].0@ == k2 && olde[j].1.proposal_queue.entry_is(
                            rf,
                            pr,
                        );
                    assert(j != idx);
                    let j2: int = if j < idx { j } else { j - 1 };
                    assert(newe[j2] == olde[j]);
                }
            }
            assert(olde[idx as int].1.proposal_queue.wf());
            assert forall|dt: DataType| old(self).field_is(
                k@,
                dt,
                #[trigger] rec.spec_field(dt),
            ) by {
                assert(olde[idx as int].0@ == k@ && olde[idx as int].1.spec_field(dt)
                    == rec.spec_field(dt));
            }
            assert forall|rf: Seq<u8>, pr: Seq<u8>| #[trigger]
                old(self).queue_entry_is(k@, rf, pr) <==> rec.proposal_queue.entry_is(rf, pr) by {
                if old(self).queue_entry_is(k@, rf, pr) {
                    let j = choose|j: int|
                        0 <= j < olde.len() && olde[j].0@ == k@ && olde[j].1.proposal_queue.entry_is(
                            rf,
                            pr,
                        );
                    if j != idx {
                        assert(olde[j].0@ != olde[idx as int].0@ || j == idx);
                        if j < idx {
                            assert(olde[j].0@ != olde[idx as int].0@);
                        } else {
                            assert(olde[idx as int].0@ != olde[j].0@);
                        }
                        assert(false);
                    }
                }
            }
        }
        Some(rec)
    }

    /// Store `rec` under `k`; the key must be absent.
    #[verifier::rlimit(50)]
    fn put_record(&mut self, k: &[u8], rec: PublicGroupState)
        requires
            old(self).wf(),
            !old(self).contains_key(k@),
            rec.proposal_queue.wf(),
        ensures
            final(self).wf(),
            final(self).contains_key(k@),
            forall|dt: DataType|
                final(self).field_is(k@, dt, #[trigger] rec.spec_field(dt)),
            forall|dt: DataType, v: Seq<u8>|
                #[trigger] final(self).field_is(k@, dt, v) ==> v == rec.spec_field(dt),
            forall|rf: Seq<u8>, pr: Seq<u8>|
                #[trigger] final(self).queue_entry_is(k@, rf, pr) <==> rec.proposal_queue.entry_is(
                    rf,
                    pr,
                ),
            forall|k2: Seq<u8>|
                k2 != k@ ==> (final(self).contains_key(k2) <==> old(self).contains_key(k2)),
            forall|k2: Seq<u8>, dt: DataType, v: Seq<u8>|
                k2 != k@ ==> (final(self).field_is(k2, dt, v) <==> old(self).field_is(k2, dt, v)),
            forall|k2: Seq<u8>, rf: Seq<u8>, pr: Seq<u8>|
                k2 != k@ ==> (final(self).queue_entry_is(k2, rf, pr) <==> old(self).queue_entry_is(
                    k2,
                    rf,
                    pr,
                )),
    {
        let ghost olde = self.entries@;
        let mut key_copy: Vec<u8> = Vec::new();
        key_copy.extend_from_slice(k);
        proof {
            assert(key_copy@ =~= k@);
        }
        let entry = (key_copy, rec);
        self.entries.push(entry);
        proof {
            let newe = self.entries@;
            assert(newe == olde.push(entry));
            assert(newe[newe.len() - 1].0@ == k@);
            assert forall|a: int, b: int| 0 <= a < b < newe.len() implies newe[a].0@
                != newe[b].0@ by {
                if b == newe.len() - 1 {
                    if olde[a].0@ == k@ {
                        assert(old(self).contains_key(k@));
                    }
                }
            }
            assert forall|dt: DataType| final(self).field_is(
                k@,
                dt,
                #[trigger] rec.spec_field(dt),
            ) by {
                assert(newe[newe.len() - 1].0@ == k@ && newe[newe.len() - 1].1.spec_field(dt)
                    == rec.spec_field(dt));
            }
            assert forall|dt: DataType, v: Seq<u8>| #[trigger]
                self.field_is(k@, dt, v) implies v == rec.spec_field(dt) by {
                let j = choose|j: int|
                    0 <= j < newe.len() && newe[j].0@ == k@ && newe[j].1.spec_field(dt) == v;
                if j < olde.len() {
                    assert(old(self).contains_key(k@));
                }
            }
            assert forall|rf: Seq<u8>, pr: Seq<u8>| #[trigger]
                self.queue_entry_is(k@, rf, pr) <==> rec.proposal_queue.entry_is(rf, pr) by {
                if self.queue_entry_is(k@, rf, pr) {
                    let j = choose|j: int|
                        0 <= j < newe.len() && newe[j].0@ == k@ && newe[j].1.proposal_queue.entry_is(
                            rf,
                            pr,
                        );
                    if j < olde.len() {
                        assert(old(self).contains_key(k@));
                    }
                }
                if rec.proposal_queue.entry_is(rf, pr) {
                    assert(newe[newe.len() - 1].0@ == k@
                        && newe[newe.len() - 1].1.proposal_queue.entry_is(rf, pr));
                }
            }
            assert forall|k2: Seq<u8>| k2 != k@ implies (self.contains_key(k2) <==> old(
                self,
            ).contains_key(k2)) by {
                if self.contains_key(k2) {
                    let j = choose|j: int| 0 <= j < newe.len() && newe[j].0@ == k2;
                    assert(j < olde.len());
                    assert(olde[j].0@ == k2);
                }
                if old(self).contains_key(k2) {
                    let j = choose|j: int| 0 <= j < olde.len() && olde[j].0@ == k2;
                    assert(newe[j].0@ == k2);
                }
            }
            assert forall|k2: Seq<u8>, dt: DataType, v: Seq<u8>| k2 != k@ implies (self.field_is(
                k2,
                dt,
                v,
            ) <==> old(self).field_is(k2, dt, v)) by {
                if self.field_is(k2, dt, v) {
                    let j = choose|j: int|
                        0 <= j < newe.len() && newe[j].0@ == k2 && newe[j].1.spec_field(dt) == v;
                    assert(j < olde.len());
                    assert(olde[j].0@ == k2 && olde[j].1.spec_field(dt) == v);
                }
                if old(self).field_is(k2, dt, v) {
                    let j = choose|j: int|
                        0 <= j < olde.len() && olde[j].0@ == k2 && olde[j].1.spec_field(dt) == v;
                    assert(newe[j].0@ == k2 && newe[j].1.spec_field(dt) == v);
                }
            }
            assert forall|k2: Seq<u8>, rf: Seq<u8>, pr: Seq<u8>| k2 != k@ implies (
            self.queue_entry_is(k2, rf, pr) <==> old(self).queue_entry_is(k2, rf, pr)) by {
                if self.queue_entry_is(k2, rf, pr) {
                    let j = choose|j: int|
                        0 <= j < newe.len() && newe[j].0@ == k2 && newe[j].1.proposal_queue.entry_is(
                            rf,
                            pr,
                        );
                    assert(j < olde.len());
                    assert(olde[j].0@ == k2 && olde[j].1.proposal_queue.entry_is(rf, pr));
                }
                if old(self).queue_entry_is(k2, rf, pr) {
                    let j = choose|j: int|
                        0 <= j < olde.len() && olde[j].0@ == k2 && olde[j].1.proposal_queue.entry_is(
                            rf,
                            pr,
                        );
                    assert(newe[j].0@ == k2 && newe[j].1.proposal_queue.entry_is(rf, pr));
                }
            }
        }
    }

    /// Write one single-valued field of the record under `gid`, creating a
    /// default-empty record first when none is stored.
    #[verifier::rlimit(50)]
    pub fn set_field_for(&mut self, gid: &[u8], dt: DataType, payload: Vec<u8>)
        requires
            old(self).wf(),
        ensures
            final(self).wf(),
            final(self).contains_key(gid@),
            final(self).field_is(gid@, dt, payload@),
            forall|dt2: DataType, v: Seq<u8>|
                dt2 != dt && old(self).contains_key(gid@) ==> (final(self).field_is(gid@, dt2, v)
                    <==> old(self).field_is(gid@, dt2, v)),
            forall|dt2: DataType, v: Seq<u8>|
                dt2 != dt && !old(self).contains_key(gid@) ==> (final(self).field_is(
                    gid@,
                    dt2,
                    v,
                ) <==> v == Seq::<u8>::empty()),
            forall|rf: Seq<u8>, pr: Seq<u8>|
                #[trigger] final(self).queue_entry_is(gid@, rf, pr) <==> old(self).queue_entry_is(
                    gid@,
                    rf,
                    pr,
                ),
            forall|k2: Seq<u8>|
                k2 != gid@ ==> (final(self).contains_key(k2) <==> old(self).contains_key(k2)),
            forall|k2: Seq<u8>, dt2: DataType, v: Seq<u8>|
                k2 != gid@ ==> (final(self).field_is(k2, dt2, v) <==> old(self).field_is(
                    k2,
                    dt2,
                    v,
                )),
            forall|k2: Seq<u8>, rf: Seq<u8>, pr: Seq<u8>|
                k2 != gid@ ==> (final(self).queue_entry_is(k2, rf, pr) <==> old(
                    self,
                ).queue_entry_is(k2, rf, pr)),
    {
        let taken = self.take_record(gid);
        let ghost oldmap = *old(self);
        let mut rec = match taken {
            Some(rec) => rec,
            None => PublicGroupState::empty(),
        };
        let ghost rec0 = rec;
        rec.set_field(dt, payload);
        let ghost rec1 = rec;
        self.put_record(gid, rec);
        proof {
            assert forall|dt2: DataType, v: Seq<u8>|
                dt2 != dt && oldmap.contains_key(gid@) implies (self.field_is(gid@, dt2, v)
                <==> oldmap.field_is(gid@, dt2, v)) by {
                assert(rec1.spec_field(dt2) == rec0.spec_field(dt2));
                assert(oldmap.field_is(gid@, dt2, rec0.spec_field(dt2)));
                if self.field_is(gid@, dt2, v) {
                    assert(v == rec1.spec_field(dt2));
                }
                if oldmap.field_is(gid@, dt2, v) {
                    oldmap.lemma_field_functional(gid@, dt2, v, rec0.spec_field(dt2));
                    assert(self.field_is(gid@, dt2, rec1.spec_field(dt2)));
                }
            }
            assert forall|dt2: DataType, v: Seq<u8>|
                dt2 != dt && !oldmap.contains_key(gid@) implies (self.field_is(gid@, dt2, v)
                <==> v == Seq::<u8>::empty()) by {
                assert(rec1.spec_field(dt2) == rec0.spec_field(dt2));
                assert(rec0.spec_field(dt2) == Seq::<u8>::empty());
                if self.field_is(gid@, dt2, v) {
                    assert(v == rec1.spec_field(dt2));
                }
                if v == Seq::<u8>::empty() {
                    assert(self.field_is(gid@, dt2, rec1.spec_field(dt2)));
                }
            }
        }
    }

    /// Read one single-valued field of the record under `gid`. An absent
    /// record and an empty field both read back as an absent value.
    pub fn get_field_for(&self, gid: &[u8], dt: DataType) -> (r: Option<Vec<u8>>)
        requires
            self.wf(),
        ensures
            match r {
                Some(v) => self.field_is(gid@, dt, v@) && v@.len() > 0 && self.contains_key(gid@),
                None => !self.contains_key(gid@) || self.field_is(gid@, dt, Seq::<u8>::empty()),
            },
    {
        let idx = match self.find_key(gid) {
            Some(idx) => idx,
            None => {
                return None;
            },
        };
        let field = self.entries[idx].1.field(dt);
        if field.len() == 0 {
            proof {
                assert(self.entries@[idx as int].0@ == gid@
                    && self.entries@[idx as int].1.spec_field(dt) =~= Seq::<u8>::empty());
            }
            return None;
        }
        proof {
            assert(self.entries@[idx as int].0@ == gid@);
        }
        Some(clone_bytes(field))
    }

    /// Clear one single-valued field of the record under `gid`; when that
    /// leaves the whole record empty, the record itself is dropped.
    #[verifier::rlimit(50)]
    pub fn delete_field_for(&mut self, gid: &[u8], dt: DataType)
        requires
            old(self).wf(),
        ensures
            final(self).wf(),
            final(self).contains_key(gid@) <==> (old(self).contains_key(gid@) && !(old(
                self,
            ).fields_empty_except(gid@, dt) && old(self).queue_empty(gid@))),
            final(self).contains_key(gid@) ==> final(self).field_is(gid@, dt, Seq::<u8>::empty()),
            forall|dt2: DataType, v: Seq<u8>|
                dt2 != dt && final(self).contains_key(gid@) ==> (final(self).field_is(
                    gid@,
                    dt2,
                    v,
                ) <==> old(self).field_is(gid@, dt2, v)),
            forall|rf: Seq<u8>, pr: Seq<u8>|
                final(self).contains_key(gid@) ==> (final(self).queue_entry_is(gid@, rf, pr) <==> old(
                    self,
                ).queue_entry_is(gid@, rf, pr)),
            forall|k2: Seq<u8>|
                k2 != gid@ ==> (final(self).contains_key(k2) <==> old(self).contains_key(k2)),
            forall|k2: Seq<u8>, dt2: DataType, v: Seq<u8>|
                k2 != gid@ ==> (final(self).field_is(k2, dt2, v) <==> old(self).field_is(
                    k2,
                    dt2,
                    v,
                )),
            forall|k2: Seq<u8>, rf: Seq<u8>, pr: Seq<u8>|
                k2 != gid@ ==> (final(self).queue_entry_is(k2, rf, pr) <==> old(
                    self,
                ).queue_entry_is(k2, rf, pr)),
    {
        let taken = self.take_record(gid);
        let ghost oldmap = *old(self);
        let mut rec = match taken {
            Some(rec) => rec,
            None => {
                return ;
            },
        };
        let ghost rec0 = rec;
        rec.set_field(dt, Vec::new());
        let ghost rec1 = rec;
        let empty_now = rec.is_empty();
        proof {
            assert(rec1.spec_field(dt) =~= Seq::<u8>::empty());
            assert(forall|dt2: DataType|
                dt2 != dt ==> (#[trigger] rec1.spec_field(dt2)) == rec0.spec_field(dt2));
            assert(rec1.proposal_queue == rec0.proposal_queue);
            // The cleared record is empty exactly when the old record had
            // nothing but (possibly) the cleared field.
            assert(oldmap.fields_empty_except(gid@, dt) <==> (forall|dt2: DataType|
                dt2 != dt ==> (#[trigger] rec0.spec_field(dt2)) == Seq::<u8>::empty())) by {
                if forall|dt2: DataType|
                    dt2 != dt ==> (#[trigger] rec0.spec_field(dt2)) == Seq::<u8>::empty() {
                    assert forall|dt2: DataType| dt2 != dt implies oldmap.field_is(
                        gid@,
                        dt2,
                        Seq::<u8>::empty(),
                    ) by {
                        assert(oldmap.field_is(gid@, dt2, rec0.spec_field(dt2)));
                    }
                } else {
                    let dt2 = choose|dt2: DataType|
                        dt2 != dt && rec0.spec_field(dt2) != Seq::<u8>::empty();
                    assert(oldmap.field_is(gid@, dt2, rec0.spec_field(dt2)));
                    if oldmap.fields_empty_except(gid@, dt) {
                        assert(oldmap.field_is(gid@, dt2, Seq::<u8>::empty()));
                        oldmap.lemma_field_functional(
                            gid@,
                            dt2,
                            rec0.spec_field(dt2),
                            Seq::<u8>::empty(),
                        );
                    }
                }
            }
            assert(oldmap.queue_empty(gid@) <==> rec0.proposal_queue.spec_len() == 0) by {
                rec0.proposal_queue.lemma_len_zero_iff_no_entries();
                if rec0.proposal_queue.spec_len() == 0 {
                    assert forall|rf: Seq<u8>, pr: Seq<u8>| !oldmap.queue_entry_is(
                        gid@,
                        rf,
                        pr,
                    ) by {
                        assert(!rec0.proposal_queue.entry_is(rf, pr));
                    }
                } else {
                    let (rf, pr) = choose|rf: Seq<u8>, pr: Seq<u8>|
                        rec0.proposal_queue.entry_is(rf, pr);
                    assert(oldmap.queue_entry_is(gid@, rf, pr));
                }
            }
            // Emptiness of the cleared record in terms of the old record.
            assert(rec1.spec_is_empty() <==> ((forall|dt2: DataType|
                dt2 != dt ==> (#[trigger] rec0.spec_field(dt2)) == Seq::<u8>::empty())
                && rec0.proposal_queue.spec_len() == 0)) by {
                assert(rec1.spec_field(DataType::TreeSync) == rec1.treesync@);
                assert(rec1.spec_field(DataType::InterimTranscriptHash)
                    == rec1.interim_transcript_hash@);
                assert(rec1.spec_field(DataType::Context) == rec1.context@);
                assert(rec1.spec_field(DataType::ConfirmationTag) == rec1.confirmation_tag@);
                if rec1.spec_is_empty() {
                    assert forall|dt2: DataType| dt2 != dt implies (#[trigger] rec0.spec_field(
                        dt2,
                    )) == Seq::<u8>::empty() by {
                        assert(rec1.spec_field(dt2).len() == 0);
                        assert(rec1.spec_field(dt2) =~= Seq::<u8>::empty());
                    }
                } else {
                    if (forall|dt2: DataType|
                        dt2 != dt ==> (#[trigger] rec0.spec_field(dt2)) == Seq::<u8>::empty())
                        && rec0.proposal_queue.spec_len() == 0 {
                        assert forall|dt2: DataType| (#[trigger] rec1.spec_field(dt2)).len()
                            == 0 by {
                            if dt2 != dt {
                                assert(rec1.spec_field(dt2) == rec0.spec_field(dt2));
                            }
                        }
                        assert(rec1.treesync@.len() == 0);
                        assert(rec1.interim_transcript_hash@.len() == 0);
                        assert(rec1.context@.len() == 0);
                        assert(rec1.confirmation_tag@.len() == 0);
                        assert(false);
                    }
                }
            }
        }
        if empty_now {
            return ;
        }
        self.put_record(gid, rec);
        proof {
            assert forall|dt2: DataType, v: Seq<u8>| dt2 != dt && self.contains_key(gid@) implies (
            self.field_is(gid@, dt2, v) <==> oldmap.field_is(gid@, dt2, v)) by {
                assert(rec1.spec_field(dt2) == rec0.spec_field(dt2));
                assert(oldmap.field_is(gid@, dt2, rec0.spec_field(dt2)));
                if self.field_is(gid@, dt2, v) {
                    assert(v == rec1.spec_field(dt2));
                }
                if oldmap.field_is(gid@, dt2, v) {
                    oldmap.lemma_field_functional(gid@, dt2, v, rec0.spec_field(dt2));
                    assert(self.field_is(gid@, dt2, rec1.spec_field(dt2)));
                }
            }
        }
    }

    /// Queue proposal bytes `pr` under reference `rf` for group `gid`,
    /// creating a default-empty record first when none is stored.
    #[verifier::rlimit(50)]
    pub fn queue_proposal_for(&mut self, gid: &[u8], rf: &[u8], pr: Vec<u8>)
        requires
            old(self).wf(),
        ensures
            final(self).wf(),
            final(self).contains_key(gid@),
            final(self).queue_entry_is(gid@, rf@, pr@),
            forall|rf2: Seq<u8>, pr2: Seq<u8>|
                rf2 != rf@ ==> (final(self).queue_entry_is(gid@, rf2, pr2) <==> old(
                    self,
                ).queue_entry_is(gid@, rf2, pr2)),
            forall|dt: DataType, v: Seq<u8>|
                old(self).contains_key(gid@) ==> (final(self).field_is(gid@, dt, v) <==> old(
                    self,
                ).field_is(gid@, dt, v)),
            forall|dt: DataType, v: Seq<u8>|
                !old(self).contains_key(gid@) ==> (final(self).field_is(gid@, dt, v) <==> v
                    == Seq::<u8>::empty()),
            forall|k2: Seq<u8>|
                k2 != gid@ ==> (final(self).contains_key(k2) <==> old(self).contains_key(k2)),
            forall|k2: Seq<u8>, dt: DataType, v: Seq<u8>|
                k2 != gid@ ==> (final(self).field_is(k2, dt, v) <==> old(self).field_is(k2, dt, v)),
            forall|k2: Seq<u8>, rf2: Seq<u8>, pr2: Seq<u8>|
                k2 != gid@ ==> (final(self).queue_entry_is(k2, rf2, pr2) <==> old(
                    self,
                ).queue_entry_is(k2, rf2, pr2)),
    {
        let taken = self.take_record(gid);
        let ghost oldmap = *old(self);
        let mut rec = match taken {
            Some(rec) => rec,
            None => PublicGroupState::empty(),
        };
        let ghost rec0 = rec;
        rec.proposal_queue.insert(rf, pr);
        let ghost rec1 = rec;
        self.put_record(gid, rec);
        proof {
            assert forall|rf2: Seq<u8>, pr2: Seq<u8>| rf2 != rf@ implies (self.queue_entry_is(
                gid@,
                rf2,
                pr2,
            ) <==> oldmap.queue_entry_is(gid@, rf2, pr2)) by {
                assert(rec1.proposal_queue.entry_is(rf2, pr2) <==> rec0.proposal_queue.entry_is(
                    rf2,
                    pr2,
                ));
            }
            assert forall|dt: DataType, v: Seq<u8>| oldmap.contains_key(gid@) implies (
            self.field_is(gid@, dt, v) <==> oldmap.field_is(gid@, dt, v)) by {
                assert(rec1.spec_field(dt) == rec0.spec_field(dt));
                assert(oldmap.field_is(gid@, dt, rec0.spec_field(dt)));
                if self.field_is(gid@, dt, v) {
                    assert(v == rec1.spec_field(dt));
                }
                if oldmap.field_is(gid@, dt, v) {
                    oldmap.lemma_field_functional(gid@, dt, v, rec0.spec_field(dt));
                    assert(self.field_is(gid@, dt, rec1.spec_field(dt)));
                }
            }
            assert forall|dt: DataType, v: Seq<u8>| !oldmap.contains_key(gid@) implies (
            self.field_is(gid@, dt, v) <==> v == Seq::<u8>::empty()) by {
                assert(rec1.spec_field(dt) == rec0.spec_field(dt));
                assert(rec0.spec_field(dt) == Seq::<u8>::empty());
                if self.field_is(gid@, dt, v) {
                    assert(v == rec1.spec_field(dt));
                }
                if v == Seq::<u8>::empty() {
                    assert(self.field_is(gid@, dt, rec1.spec_field(dt)));
                }
            }
        }
    }

    /// All queued proposals of group `gid`, as (reference, proposal) pairs,
    /// or an empty vector when none are stored.
    pub fn queued_proposals_for(&self, gid: &[u8]) -> (r: Vec<(Vec<u8>, Vec<u8>)>)
        requires
            self.wf(),
        ensures
            r@.len() == self.queue_seq(gid@).len(),
            forall|j: int|
                0 <= j < r@.len() ==> (#[trigger] r@[j].0@) == self.queue_seq(gid@)[j].0@
                    && r@[j].1@ == self.queue_seq(gid@)[j].1@,
            forall|j: int|
                0 <= j < r@.len() ==> self.queue_entry_is(gid@, #[trigger] r@[j].0@, r@[j].1@),
            forall|rf: Seq<u8>, pr: Seq<u8>|
                self.queue_entry_is(gid@, rf, pr) ==> exists|j: int|
                    0 <= j < r@.len() && (#[trigger] r@[j].0@) == rf && r@[j].1@ == pr,
    {
        let idx = match self.find_key(gid) {
            Some(idx) => idx,
            None => {
                let empty: Vec<(Vec<u8>, Vec<u8>)> = Vec::new();
                proof {
                    assert forall|rf: Seq<u8>, pr: Seq<u8>| !self.queue_entry_is(gid@, rf, pr) by {
                        if self.queue_entry_is(gid@, rf, pr) {
                            let j = choose|j: int|
                                0 <= j < self.entries@.len() && self.entries@[j].0@ == gid@
                                    && self.entries@[j].1.proposal_queue.entry_is(rf, pr);
                            assert(self.contains_key(gid@));
                        }
                    }
                }
                return empty;
            },
        };
        let out = self.entries[idx].1.proposal_queue.entries_vec();
        proof {
            assert(self.entries@[idx as int].0@ == gid@);
            self.lemma_queue_seq_at(gid@, idx as int);
            let queue = self.entries@[idx as int].1.proposal_queue;
            assert forall|j: int| 0 <= j < out@.len() implies self.queue_entry_is(
                gid@,
                #[trigger] out@[j].0@,
                out@[j].1@,
            ) by {
                assert(queue.entry_is(out@[j].0@, out@[j].1@));
            }
            assert forall|rf: Seq<u8>, pr: Seq<u8>| self.queue_entry_is(gid@, rf, pr) implies exists|
                j: int,
            | 0 <= j < out@.len() && (#[trigger] out@[j].0@) == rf && out@[j].1@ == pr by {
                let h = choose|h: int|
                    0 <= h < self.entries@.len() && self.entries@[h].0@ == gid@
                        && self.entries@[h].1.proposal_queue.entry_is(rf, pr);
                if h != idx {
                    if h < idx {
                        assert(self.entries@[h].0@ != self.entries@[idx as int].0@);
                    } else {
                        assert(self.entries@[idx as int].0@ != self.entries@[h].0@);
                    }
                    assert(false);
                }
                assert(queue.entry_is(rf, pr));
            }
        }
        out
    }

    /// Remove one queued proposal of group `gid` by its reference; when that
    /// leaves the whole record empty, the record itself is dropped.
    #[verifier::rlimit(50)]
    pub fn remove_proposal_for(&mut self, gid: &[u8], rf: &[u8])
        requires
            old(self).wf(),
        ensures
            final(self).wf(),
            forall|pr: Seq<u8>| !final(self).queue_entry_is(gid@, rf@, pr),
            forall|rf2: Seq<u8>, pr2: Seq<u8>|
                rf2 != rf@ && final(self).contains_key(gid@) ==> (final(self).queue_entry_is(
                    gid@,
                    rf2,
                    pr2,
                ) <==> old(self).queue_entry_is(gid@, rf2, pr2)),
            forall|dt: DataType, v: Seq<u8>|
                final(self).contains_key(gid@) ==> (final(self).field_is(gid@, dt, v) <==> old(
                    self,
                ).field_is(gid@, dt, v)),
            forall|k2: Seq<u8>|
                k2 != gid@ ==> (final(self).contains_key(k2) <==> old(self).contains_key(k2)),
            forall|k2: Seq<u8>, dt: DataType, v: Seq<u8>|
                k2 != gid@ ==> (final(self).field_is(k2, dt, v) <==> old(self).field_is(
                    k2,
                    dt,
                    v,
                )),
            forall|k2: Seq<u8>, rf2: Seq<u8>, pr2: Seq<u8>|
                k2 != gid@ ==> (final(self).queue_entry_is(k2, rf2, pr2) <==> old(
                    self,
                ).queue_entry_is(k2, rf2, pr2)),
    {
        let taken = self.take_record(gid);
        let ghost oldmap = *old(self);
        let mut rec = match taken {
            Some(rec) => rec,
            None => {
                return ;
            },
        };
        let ghost rec0 = rec;
        rec.proposal_queue.remove(rf);
        let ghost rec1 = rec;
        if rec.is_empty() {
            return ;
        }
        self.put_record(gid, rec);
        proof {
            assert forall|rf2: Seq<u8>, pr2: Seq<u8>|
                rf2 != rf@ && self.contains_key(gid@) implies (self.queue_entry_is(gid@, rf2, pr2)
                <==> oldmap.queue_entry_is(gid@, rf2, pr2)) by {
                assert(rec1.proposal_queue.entry_is(rf2, pr2) <==> rec0.proposal_queue.entry_is(
                    rf2,
                    pr2,
                ));
            }
            assert forall|dt: DataType, v: Seq<u8>| self.contains_key(gid@) implies (self.field_is(
                gid@,
                dt,
                v,
            ) <==> oldmap.field_is(gid@, dt, v)) by {
                assert(rec1.spec_field(dt) == rec0.spec_field(dt));
                assert(oldmap.field_is(gid@, dt, rec0.spec_field(dt)));
                if self.field_is(gid@, dt, v) {
                    assert(v == rec1.spec_field(dt));
                }
                if oldmap.field_is(gid@, dt, v) {
                    oldmap.lemma_field_functional(gid@, dt, v, rec0.spec_field(dt));
                    assert(self.field_is(gid@, dt, rec1.spec_field(dt)));
                }
            }
        }
    }

    /// Drop every queued proposal of group `gid`; when that leaves the whole
    /// record empty, the record itself is dropped.
    #[verifier::rlimit(50)]
    pub fn clear_proposal_queue_for(&mut self, gid: &[u8])
        requires
            old(self).wf(),
        ensures
            final(self).wf(),
            forall|rf: Seq<u8>, pr: Seq<u8>| !final(self).queue_entry_is(gid@, rf, pr),
            forall|dt: DataType, v: Seq<u8>|
                final(self).contains_key(gid@) ==> (final(self).field_is(gid@, dt, v) <==> old(
                    self,
                ).field_is(gid@, dt, v)),
            forall|k2: Seq<u8>|
                k2 != gid@ ==> (final(self).contains_key(k2) <==> old(self).contains_key(k2)),
            forall|k2: Seq<u8>, dt: DataType, v: Seq<u8>|
                k2 != gid@ ==> (final(self).field_is(k2, dt, v) <==> old(self).field_is(
                    k2,
                    dt,
                    v,
                )),
            forall|k2: Seq<u8>, rf2: Seq<u8>, pr2: Seq<u8>|
                k2 != gid@ ==> (final(self).queue_entry_is(k2, rf2, pr2) <==> old(
                    self,
                ).queue_entry_is(k2, rf2, pr2)),
    {
        let taken = self.take_record(gid);
        let ghost oldmap = *old(self);
        let mut rec = match taken {
            Some(rec) => rec,
            None => {
                return ;
            },
        };
        let ghost rec0 = rec;
        rec.proposal_queue = BytesMap::new();
        let ghost rec1 = rec;
        if rec.is_empty() {
            return ;
        }
        self.put_record(gid, rec);
        proof {
            assert forall|dt: DataType, v: Seq<u8>| self.contains_key(gid@) implies (self.field_is(
                gid@,
                dt,
                v,
            ) <==> oldmap.field_is(gid@, dt, v)) by {
                assert(rec1.spec_field(dt) == rec0.spec_field(dt));
                assert(oldmap.field_is(gid@, dt, rec0.spec_field(dt)));
                if self.field_is(gid@, dt, v) {
                    assert(v == rec1.spec_field(dt));
                }
                if oldmap.field_is(gid@, dt, v) {
                    oldmap.lemma_field_functional(gid@, dt, v, rec0.spec_field(dt));
                    assert(self.field_is(gid@, dt, rec1.spec_field(dt)));
                }
            }
        }
    }
}

/// Append every byte of `b` to `out`.
fn push_all(out: &mut Vec<u8>, b: &[u8])
    ensures
        final(out)@ == old(out)@ + b@,
{
    let mut i: usize = 0;
    while i < b.len()
        invariant
            0 <= i <= b@.len(),
            out@ == old(out)@ + b@.take(i as int),
        decreases b@.len() - i,
    {
        out.push(b[i]);
        proof {
            assert(out@ =~= old(out)@ + b@.take(i + 1));
        }
        i = i + 1;
    }
    proof {
        assert(b@.take(b@.len() as int) =~= b@);
        assert(out@ =~= old(out)@ + b@);
    }
}

/// A byte string in the bulk export encoding: an 8-byte little-endian length
/// followed by the bytes themselves.
pub open spec fn enc_bytes(b: Seq<u8>) -> Seq<u8> {
    vstd::bytes::spec_u64_to_le_bytes(b.len() as u64) + b
}

/// Append the encoding of the byte string `b` to `out`.
fn push_bytes_field(out: &mut Vec<u8>, b: &[u8])
    ensures
        final(out)@ == old(out)@ + enc_bytes(b@),
        seq_len_ok(b@),
{
    let len_bytes = vstd::bytes::u64_to_le_bytes(b.len() as u64);
    push_all(out, len_bytes.as_slice());
    push_all(out, b);
    proof {
        assert(out@ =~= old(out)@ + enc_bytes(b@));
    }
}

/// A list of key/payload pairs in the bulk export encoding, entry by entry.
pub open spec fn enc_pairs(l: Seq<(Vec<u8>, Vec<u8>)>) -> Seq<u8>
    decreases l.len(),
{
    if l.len() == 0 {
        Seq::empty()
    } else {
        enc_bytes(l[0].0@) + enc_bytes(l[0].1@) + enc_pairs(l.drop_first())
    }
}

proof fn lemma_enc_pairs_push(l: Seq<(Vec<u8>, Vec<u8>)>, e: (Vec<u8>, Vec<u8>))
    ensures
        enc_pairs(l.push(e)) == enc_pairs(l) + enc_bytes(e.0@) + enc_bytes(e.1@),
    decreases l.len(),
{
    if l.len() == 0 {
        assert(l.push(e)[0] == e);
        assert(l.push(e).drop_first() =~= Seq::<(Vec<u8>, Vec<u8>)>::empty());
        assert(enc_pairs(l.push(e).drop_first()) == Seq::<u8>::empty());
        assert(enc_pairs(l.push(e)) == enc_bytes(e.0@) + enc_bytes(e.1@) + Seq::<u8>::empty());
        assert(enc_pairs(l) == Seq::<u8>::empty());
        assert(enc_pairs(l.push(e)) =~= enc_pairs(l) + enc_bytes(e.0@) + enc_bytes(e.1@));
    } else {
        assert(l.push(e).drop_first() =~= l.drop_first().push(e));
        lemma_enc_pairs_push(l.drop_first(), e);
        assert(l.push(e)[0] == l[0]);
        assert(enc_pairs(l.push(e)) == enc_bytes(l[0].0@) + enc_bytes(l[0].1@) + enc_pairs(
            l.drop_first().push(e),
        ));
        assert(enc_pairs(l) == enc_bytes(l[0].0@) + enc_bytes(l[0].1@) + enc_pairs(l.drop_first()));
        assert(enc_pairs(l.push(e)) =~= enc_pairs(l) + enc_bytes(e.0@) + enc_bytes(e.1@));
    }
}

/// A whole pair map in the bulk export encoding: the entry count, then the
/// entries in storage order.
pub open spec fn enc_bytes_map(m: BytesMap) -> Seq<u8> {
    vstd::bytes::spec_u64_to_le_bytes(m.spec_len() as u64) + enc_pairs(m.spec_entries())
}

/// A per-group record in the bulk export encoding: the four single-valued
/// fields, then the proposal queue.
pub open spec fn enc_record(r: PublicGroupState) -> Seq<u8> {
    enc_bytes(r.treesync@) + enc_bytes(r.interim_transcript_hash@) + enc_bytes(r.context@)
        + enc_bytes(r.confirmation_tag@) + enc_bytes_map(r.proposal_queue)
}

/// A list of group-id/record pairs in the bulk export encoding.
pub open spec fn enc_record_pairs(l: Seq<(Vec<u8>, PublicGroupState)>) -> Seq<u8>
    decreases l.len(),
{
    if l.len() == 0 {
        Seq::empty()
    } else {
        enc_bytes(l[0].0@) + enc_record(l[0].1) + enc_record_pairs(l.drop_first())
    }
}

proof fn lemma_enc_record_pairs_push(l: Seq<(Vec<u8>, PublicGroupState)>, e: (Vec<u8>, PublicGroupState))
    ensures
        enc_record_pairs(l.push(e)) == enc_record_pairs(l) + enc_bytes(e.0@) + enc_record(e.1),
    decreases l.len(),
{
    if l.len() == 0 {
        assert(l.push(e)[0] == e);
        assert(l.push(e).drop_first() =~= Seq::<(Vec<u8>, PublicGroupState)>::empty());
        assert(enc_record_pairs(l.push(e).drop_first()) == Seq::<u8>::empty());
        assert(enc_record_pairs(l.push(e)) == enc_bytes(e.0@) + enc_record(e.1)
            + Seq::<u8>::empty());
        assert(enc_record_pairs(l) == Seq::<u8>::empty());
        assert(enc_record_pairs(l.push(e)) =~= enc_record_pairs(l) + enc_bytes(e.0@) + enc_record(
            e.1,
        ));
    } else {
        assert(l.push(e).drop_first() =~= l.drop_first().push(e));
        lemma_enc_record_pairs_push(l.drop_first(), e);
        assert(l.push(e)[0] == l[0]);
        assert(enc_record_pairs(l.push(e)) == enc_bytes(l[0].0@) + enc_record(l[0].1)
            + enc_record_pairs(l.drop_first().push(e)));
        assert(enc_record_pairs(l) == enc_bytes(l[0].0@) + enc_record(l[0].1) + enc_record_pairs(
            l.drop_first(),
        ));
        assert(enc_record_pairs(l.push(e)) =~= enc_record_pairs(l) + enc_bytes(e.0@) + enc_record(
            e.1,
        ));
    }
}

/// A whole record map in the bulk export encoding.
pub open spec fn enc_record_map(m: GroupStateMap) -> Seq<u8> {
    vstd::bytes::spec_u64_to_le_bytes(m.spec_len() as u64) + enc_record_pairs(m.spec_entries())
}

/// The whole store in the bulk export encoding: the record map, then the
/// past-group-states map, then the group-info map.
pub open spec fn enc_store(gs: GroupStateMap, pgs: BytesMap, gi: BytesMap) -> Seq<u8> {
    enc_record_map(gs) + enc_bytes_map(pgs) + enc_bytes_map(gi)
}

impl PublicGroupState {
    /// Append the bulk encoding of this record to `out`.
    fn encode_into(&self, out: &mut Vec<u8>)
        ensures
            final(out)@ == old(out)@ + enc_record(*self),
            record_enc_ok(*self),
    {
        push_bytes_field(out, self.treesync.as_slice());
        push_bytes_field(out, self.interim_transcript_hash.as_slice());
        push_bytes_field(out, self.context.as_slice());
        push_bytes_field(out, self.confirmation_tag.as_slice());
        self.proposal_queue.encode_into(out);
        proof {
            assert(out@ =~= old(out)@ + enc_record(*self));
        }
    }
}

impl GroupStateMap {
    /// The raw entry sequence, for the bulk export encoding.
    pub closed spec fn spec_entries(self) -> Seq<(Vec<u8>, PublicGroupState)> {
        self.entries@
    }

    /// The number of records.
    pub closed spec fn spec_len(self) -> nat {
        self.entries@.len()
    }

    /// Append the bulk encoding of this record map to `out`.
    #[verifier::rlimit(50)]
    fn encode_into(&self, out: &mut Vec<u8>)
        ensures
            final(out)@ == old(out)@ + enc_record_map(*self),
            record_map_enc_ok(*self),
    {
        let ghost pre = out@;
        let count = vstd::bytes::u64_to_le_bytes(self.entries.len() as u64);
        push_all(out, count.as_slice());
        let mut i: usize = 0;
        while i < self.entries.len()
            invariant
                0 <= i <= self.entries.len(),
                out@ == pre + vstd::bytes::spec_u64_to_le_bytes(self.entries@.len() as u64)
                    + enc_record_pairs(self.entries@.take(i as int)),
                forall|j: int|
                    0 <= j < i ==> seq_len_ok((#[trigger] self.entries@[j]).0@) && record_enc_ok(
                        self.entries@[j].1,
                    ),
            decreases self.entries.len() - i,
        {
            push_bytes_field(out, self.entries[i].0.as_slice());
            self.entries[i].1.encode_into(out);
            proof {
                lemma_enc_record_pairs_push(self.entries@.take(i as int), self.entries@[i as int]);
                assert(self.entries@.take(i + 1) =~= self.entries@.take(i as int).push(
                    self.entries@[i as int],
                ));
                assert(out@ =~= pre + vstd::bytes::spec_u64_to_le_bytes(
                    self.entries@.len() as u64,
                ) + enc_record_pairs(self.entries@.take(i + 1)));
            }
            i = i + 1;
        }
        proof {
            assert(self.entries@.take(self.entries@.len() as int) =~= self.entries@);
        }
    }
}

/// Encode the whole store into one byte blob: the record map, then the
/// past-group-states map, then the group-info map.
pub fn serialize_store(gs: &GroupStateMap, pgs: &BytesMap, gi: &BytesMap) -> (r: Vec<u8>)
    ensures
        r@ == enc_store(*gs, *pgs, *gi),
        record_map_enc_ok(*gs),
        bytes_map_enc_ok(*pgs),
        bytes_map_enc_ok(*gi),
{
    let mut out: Vec<u8> = Vec::new();
    gs.encode_into(&mut out);
    pgs.encode_into(&mut out);
    gi.encode_into(&mut out);
    proof {
        assert(out@ =~= enc_store(*gs, *pgs, *gi));
    }
    out
}

/// Read an 8-byte little-endian count at `pos`.
fn decode_u64(bytes: &[u8], pos: usize) -> (r: Option<(u64, usize)>)
    ensures
        r matches Some((x, p)) ==> p == pos + 8 && p <= bytes@.len()
            && vstd::bytes::spec_u64_to_le_bytes(x) == bytes@.subrange(pos as int, p as int),
        pos + 8 <= bytes@.len() ==> r is Some,
{
    if pos > bytes.len() || bytes.len() - pos < 8 {
        return None;
    }
    let s = vstd::slice::slice_subrange(bytes, pos, pos + 8);
    let x = vstd::bytes::u64_from_le_bytes(s);
    proof {
        vstd::bytes::lemma_auto_spec_u64_to_from_le_bytes();
        assert(vstd::bytes::spec_u64_to_le_bytes(x) == s@);
    }
    Some((x, pos + 8))
}

/// A faithful encoding of `v` sits at `pos` in `bytes`.
pub open spec fn enc_bytes_at(bytes: Seq<u8>, pos: int, v: Seq<u8>) -> bool {
    &&& seq_len_ok(v)
    &&& 0 <= pos
    &&& pos + 8 + v.len() <= bytes.len()
    &&& bytes.subrange(pos, pos + 8 + v.len()) == enc_bytes(v)
}

/// Read one length-prefixed byte string at `pos`.
fn decode_bytes_field(bytes: &[u8], pos: usize) -> (r: Option<(Vec<u8>, usize)>)
    ensures
        r matches Some((v, p)) ==> pos <= p <= bytes@.len() && seq_len_ok(v@) && enc_bytes(v@)
            == bytes@.subrange(pos as int, p as int),
        forall|v: Seq<u8>| enc_bytes_at(bytes@, pos as int, v) ==> r is Some,
{
    proof {
        vstd::bytes::lemma_auto_spec_u64_to_from_le_bytes();
    }
    let (len, p) = match decode_u64(bytes, pos) {
        Some(x) => x,
        None => {
            proof {
                assert forall|v: Seq<u8>| !enc_bytes_at(bytes@, pos as int, v) by {
                    if enc_bytes_at(bytes@, pos as int, v) {
                        assert(pos + 8 <= bytes@.len());
                        assert(false);
                    }
                }
            }
            return None;
        },
    };
    if len > (bytes.len() - p) as u64 {
        proof {
            assert forall|v: Seq<u8>| !enc_bytes_at(bytes@, pos as int, v) by {
                if enc_bytes_at(bytes@, pos as int, v) {
                    let e = enc_bytes(v);
                    assert(vstd::bytes::spec_u64_to_le_bytes(v.len() as u64) =~= bytes@.subrange(
                        pos as int,
                        pos + 8,
                    ));
                    assert(vstd::bytes::spec_u64_to_le_bytes(len) == bytes@.subrange(
                        pos as int,
                        pos + 8,
                    ));
                    assert(vstd::bytes::spec_u64_from_le_bytes(
                        vstd::bytes::spec_u64_to_le_bytes(len),
                    ) == len);
                    assert(len == v.len() as u64);
                    assert(len <= (bytes@.len() - p) as u64);
                    assert(false);
                }
            }
        }
        return None;
    }
    let l = len as usize;
    let v = vstd::slice::slice_to_vec(vstd::slice::slice_subrange(bytes, p, p + l));
    proof {
        assert(v@ == bytes@.subrange(p as int, (p + l) as int));
        assert(v@.len() == l == len);
        assert(enc_bytes(v@) == vstd::bytes::spec_u64_to_le_bytes(len) + v@);
        assert(bytes@.subrange(pos as int, (p + l) as int) =~= bytes@.subrange(
            pos as int,
            p as int,
        ) + bytes@.subrange(p as int, (p + l) as int));
    }
    Some((v, p + l))
}

/// A faithful encoding of the pair list `l`, count prefix included, sits at
/// `pos` in `bytes`.
pub open spec fn enc_pairs_at(bytes: Seq<u8>, pos: int, l: Seq<(Vec<u8>, Vec<u8>)>) -> bool {
    &&& pairs_enc_ok(l)
    &&& 0 <= pos
    &&& pos + 8 + enc_pairs(l).len() <= bytes.len()
    &&& bytes.subrange(pos, pos + 8 + enc_pairs(l).len()) == vstd::bytes::spec_u64_to_le_bytes(
        l.len() as u64,
    ) + enc_pairs(l)
}

/// Read a count-prefixed list of key/payload pairs at `pos`.
#[verifier::rlimit(100)]
#[verifier::spinoff_prover]
fn decode_pairs(bytes: &[u8], pos: usize) -> (r: Option<(Vec<(Vec<u8>, Vec<u8>)>, usize)>)
    ensures
        r matches Some((out, p)) ==> pos <= p <= bytes@.len() && pairs_enc_ok(out@)
            && vstd::bytes::spec_u64_to_le_bytes(out@.len() as u64) + enc_pairs(out@)
            == bytes@.subrange(pos as int, p as int),
        forall|l: Seq<(Vec<u8>, Vec<u8>)>|
            enc_pairs_at(bytes@, pos as int, l) ==> (r matches Some((out, p)) && pairs_equiv(
                out@,
                l,
            ) && p == pos + 8 + enc_pairs(l).len()),
{
    proof {
        vstd::bytes::lemma_auto_spec_u64_to_from_le_bytes();
    }
    let ghost has_w = exists|l: Seq<(Vec<u8>, Vec<u8>)>| enc_pairs_at(bytes@, pos as int, l);
    let ghost w: Seq<(Vec<u8>, Vec<u8>)> = if has_w {
        choose|l: Seq<(Vec<u8>, Vec<u8>)>| enc_pairs_at(bytes@, pos as int, l)
    } else {
        Seq::empty()
    };
    let (count, count_end) = match decode_u64(bytes, pos) {
        Some(x) => x,
        None => {
            proof {
                if has_w {
                    assert(enc_pairs_at(bytes@, pos as int, w));
                    assert(pos + 8 <= bytes@.len());
                    assert(false);
                }
            }
            return None;
        },
    };
    proof {
        if has_w {
            assert(enc_pairs_at(bytes@, pos as int, w));
            assert(vstd::bytes::spec_u64_to_le_bytes(w.len() as u64) =~= bytes@.subrange(
                pos as int,
                pos + 8,
            ));
            assert(vstd::bytes::spec_u64_to_le_bytes(count) == vstd::bytes::spec_u64_to_le_bytes(
                w.len() as u64,
            ));
            assert(vstd::bytes::spec_u64_from_le_bytes(vstd::bytes::spec_u64_to_le_bytes(count))
                == count);
            assert(count == w.len() as u64);
            assert(count == w.len());
        }
    }
    let mut p = count_end;
    let mut out: Vec<(Vec<u8>, Vec<u8>)> = Vec::new();
    let mut k: u64 = 0;
    proof {
        if has_w {
            assert(w.take(0) =~= Seq::<(Vec<u8>, Vec<u8>)>::empty());
            assert(enc_pairs(w.take(0)) =~= Seq::<u8>::empty());
            assert(w.skip(0) =~= w);
            assert(bytes@.subrange(pos + 8, pos + 8 + enc_pairs(w).len() as int)
                =~= bytes@.subrange(pos as int, pos + 8 + enc_pairs(w).len() as int).subrange(
                8,
                8 + enc_pairs(w).len() as int,
            ));
            assert(bytes@.subrange(pos + 8, pos + 8 + enc_pairs(w).len() as int) =~= enc_pairs(w));
            assert(count_end + enc_pairs(w.skip(0)).len() == pos + 8 + enc_pairs(w).len());
        }
    }
    while k < count
        invariant
            pos + 8 <= p <= bytes@.len(),
            out@.len() == k <= count,
            vstd::bytes::spec_u64_to_le_bytes(count) == bytes@.subrange(pos as int, pos + 8),
            enc_pairs(out@) == bytes@.subrange(pos + 8, p as int),
            forall|j: int|
                0 <= j < out@.len() ==> seq_len_ok((#[trigger] out@[j]).0@) && seq_len_ok(
                    out@[j].1@,
                ),
            has_w == exists|l: Seq<(Vec<u8>, Vec<u8>)>| enc_pairs_at(bytes@, pos as int, l),
            has_w ==> enc_pairs_at(bytes@, pos as int, w) && count == w.len() && {
                &&& forall|j: int|
                    0 <= j < out@.len() ==> (#[trigger] out@[j]).0@ == w[j].0@ && out@[j].1@
                        == w[j].1@
                &&& p == pos + 8 + enc_pairs(w.take(k as int)).len()
                &&& p + enc_pairs(w.skip(k as int)).len() == pos + 8 + enc_pairs(w).len()
                &&& bytes@.subrange(p as int, pos + 8 + enc_pairs(w).len() as int) == enc_pairs(
                    w.skip(k as int),
                )
            },
        decreases count - k,
    {
        proof {
            vstd::bytes::lemma_auto_spec_u64_to_from_le_bytes();
            if has_w {
                let tail = w.skip(k as int);
                let fin: int = pos + 8 + enc_pairs(w).len() as int;
                assert(tail.len() > 0);
                assert(tail[0] == w[k as int]);
                assert(tail.drop_first() =~= w.skip(k as int + 1));
                let a = enc_bytes(w[k as int].0@);
                let b = enc_bytes(w[k as int].1@);
                let rest = enc_pairs(w.skip(k as int + 1));
                assert(enc_pairs(tail) == a + b + rest);
                assert(seq_len_ok(w[k as int].0@) && seq_len_ok(w[k as int].1@));
                assert(a.len() == 8 + w[k as int].0@.len());
                assert(b.len() == 8 + w[k as int].1@.len());
                assert(bytes@.subrange(p as int, fin) == a + b + rest);
                assert(fin - p == a.len() + b.len() + rest.len());
                assert(p + a.len() <= fin <= bytes@.len());
                assert forall|i: int| 0 <= i < a.len() implies bytes@[p + i] == a[i] by {
                    assert(bytes@.subrange(p as int, fin)[i] == (a + b + rest)[i]);
                }
                assert(bytes@.subrange(p as int, p + a.len() as int) =~= a);
                assert(enc_bytes_at(bytes@, p as int, w[k as int].0@));
            }
        }
        let (key, p2) = match decode_bytes_field(bytes, p) {
            Some(x) => x,
            None => {
                proof {
                    if has_w {
                        assert(false);
                    }
                }
                return None;
            },
        };
        proof {
            vstd::bytes::lemma_auto_spec_u64_to_from_le_bytes();
            if has_w {
                let fin: int = pos + 8 + enc_pairs(w).len() as int;
                let total: int = bytes@.len() as int;
                let a = enc_bytes(w[k as int].0@);
                let b = enc_bytes(w[k as int].1@);
                let rest = enc_pairs(w.skip(k as int + 1));
                assert(bytes@.subrange(p as int, fin) == a + b + rest);
                assert(a.len() == 8 + w[k as int].0@.len());
                assert(b.len() == 8 + w[k as int].1@.len());
                assert(fin - p == a.len() + b.len() + rest.len());
                assert(enc_bytes(key@) + bytes@.subrange(p2 as int, total) =~= bytes@.subrange(
                    p as int,
                    total,
                ));
                assert(a + bytes@.subrange(p + a.len() as int, total) =~= bytes@.subrange(
                    p as int,
                    total,
                ));
                lemma_enc_bytes_prefix(
                    key@,
                    bytes@.subrange(p2 as int, total),
                    w[k as int].0@,
                    bytes@.subrange(p + a.len() as int, total),
                );
                assert(key@ == w[k as int].0@);
                assert(p2 == p + a.len());
                assert forall|i: int| 0 <= i < b.len() implies bytes@[p2 + i] == b[i] by {
                    assert(bytes@.subrange(p as int, fin)[a.len() + i] == (a + b + rest)[a.len()
                        + i]);
                }
                assert(bytes@.subrange(p2 as int, p2 + b.len() as int) =~= b);
                assert(enc_bytes_at(bytes@, p2 as int, w[k as int].1@));
            }
        }
        let (val, p3) = match decode_bytes_field(bytes, p2) {
            Some(x) => x,
            None => {
                proof {
                    if has_w {
                        assert(false);
                    }
                }
                return None;
            },
        };
        let ghost out0 = out@;
        let ghost pprev: int = p as int;
        let entry = (key, val);
        out.push(entry);
        proof {
            vstd::bytes::lemma_auto_spec_u64_to_from_le_bytes();
            lemma_enc_pairs_push(out0, entry);
            assert(bytes@.subrange(pos + 8, p3 as int) =~= bytes@.subrange(pos + 8, pprev)
                + bytes@.subrange(pprev, p2 as int) + bytes@.subrange(p2 as int, p3 as int));
            assert(enc_pairs(out@) =~= bytes@.subrange(pos + 8, p3 as int));
            if has_w {
                let fin: int = pos + 8 + enc_pairs(w).len() as int;
                let total: int = bytes@.len() as int;
                let a = enc_bytes(w[k as int].0@);
                let b = enc_bytes(w[k as int].1@);
                let rest = enc_pairs(w.skip(k as int + 1));
                assert(bytes@.subrange(pprev, fin) == a + b + rest);
                assert(a.len() == 8 + w[k as int].0@.len());
                assert(b.len() == 8 + w[k as int].1@.len());
                assert(fin - pprev == a.len() + b.len() + rest.len());
                assert(enc_bytes(val@) + bytes@.subrange(p3 as int, total) =~= bytes@.subrange(
                    p2 as int,
                    total,
                ));
                assert(b + bytes@.subrange(p2 + b.len() as int, total) =~= bytes@.subrange(
                    p2 as int,
                    total,
                ));
                lemma_enc_bytes_prefix(
                    val@,
                    bytes@.subrange(p3 as int, total),
                    w[k as int].1@,
                    bytes@.subrange(p2 + b.len() as int, total),
                );
                assert(val@ == w[k as int].1@);
                assert(p3 == p2 + b.len());
                lemma_enc_pairs_push(w.take(k as int), w[k as int]);
                assert(w.take(k as int).push(w[k as int]) =~= w.take(k as int + 1));
                assert(p3 == pos + 8 + enc_pairs(w.take(k as int + 1)).len());
                assert(enc_pairs(w.skip(k as int)).len() == a.len() + b.len() + rest.len());
                assert(p3 + rest.len() == pos + 8 + enc_pairs(w).len());
                assert forall|i: int| 0 <= i < rest.len() implies bytes@[p3 + i] == rest[i] by {
                    assert(bytes@.subrange(pprev, fin)[a.len() + b.len() + i] == (a + b
                        + rest)[a.len() + b.len() + i]);
                }
                assert(bytes@.subrange(p3 as int, fin) =~= rest);
            }
        }
        p = p3;
        k = k + 1;
    }
    proof {
        if has_w {
            assert(w.skip(w.len() as int) =~= Seq::<(Vec<u8>, Vec<u8>)>::empty());
            assert(w.take(w.len() as int) =~= w);
            assert(p == pos + 8 + enc_pairs(w).len());
            assert(pairs_equiv(out@, w));
        }
        assert forall|l: Seq<(Vec<u8>, Vec<u8>)>|
            enc_pairs_at(bytes@, pos as int, l) implies pairs_equiv(out@, l) && p as int == pos + 8
            + enc_pairs(l).len() by {
            assert(has_w);
            // Two lists encoded at the same position are the same list.
            assert(bytes@.subrange(pos as int, pos + 8) =~= (
            vstd::bytes::spec_u64_to_le_bytes(l.len() as u64) + enc_pairs(l)).subrange(0, 8));
            assert(vstd::bytes::spec_u64_to_le_bytes(l.len() as u64) =~= bytes@.subrange(
                pos as int,
                pos + 8,
            ));
            assert(l.len() as u64 == w.len() as u64);
            assert(l.len() == w.len());
            let total: int = bytes@.len() as int;
            assert forall|i: int|
                0 <= i < enc_pairs(l).len() implies bytes@[pos + 8 + i] == enc_pairs(l)[i] by {
                assert(bytes@.subrange(pos as int, pos + 8 + enc_pairs(l).len() as int)[8 + i] == (
                vstd::bytes::spec_u64_to_le_bytes(l.len() as u64) + enc_pairs(l))[8 + i]);
            }
            assert(enc_pairs(l) + bytes@.subrange(pos + 8 + enc_pairs(l).len() as int, total)
                =~= bytes@.subrange(pos + 8, total));
            assert forall|i: int|
                0 <= i < enc_pairs(w).len() implies bytes@[pos + 8 + i] == enc_pairs(w)[i] by {
                assert(bytes@.subrange(pos as int, pos + 8 + enc_pairs(w).len() as int)[8 + i] == (
                vstd::bytes::spec_u64_to_le_bytes(w.len() as u64) + enc_pairs(w))[8 + i]);
            }
            assert(enc_pairs(w) + bytes@.subrange(pos + 8 + enc_pairs(w).len() as int, total)
                =~= bytes@.subrange(pos + 8, total));
            lemma_enc_pairs_prefix(
                l,
                bytes@.subrange(pos + 8 + enc_pairs(l).len() as int, total),
                w,
                bytes@.subrange(pos + 8 + enc_pairs(w).len() as int, total),
            );
            assert(pairs_equiv(l, w));
            assert(enc_pairs(l) == enc_pairs(w)) by {
                lemma_enc_pairs_congruent(l, w);
            }
            assert forall|j: int|
                0 <= j < out@.len() implies (#[trigger] out@[j]).0@ == l[j].0@ && out@[j].1@
                == l[j].1@ by {
                assert(out@[j].0@ == w[j].0@ && out@[j].1@ == w[j].1@);
                assert(l[j].0@ == w[j].0@ && l[j].1@ == w[j].1@);
            }
        }
    }
    Some((out, p))
}

/// Position-by-position equal pair lists have equal encodings.
proof fn lemma_enc_pairs_congruent(l1: Seq<(Vec<u8>, Vec<u8>)>, l2: Seq<(Vec<u8>, Vec<u8>)>)
    requires
        pairs_equiv(l1, l2),
    ensures
        enc_pairs(l1) == enc_pairs(l2),
    decreases l1.len(),
{
    if l1.len() == 0 {
        assert(enc_pairs(l1) =~= enc_pairs(l2));
    } else {
        assert(l1[0].0@ == l2[0].0@ && l1[0].1@ == l2[0].1@);
        let d1 = l1.drop_first();
        let d2 = l2.drop_first();
        assert(pairs_equiv(d1, d2)) by {
            assert forall|i: int|
                0 <= i < d1.len() implies (#[trigger] d1[i]).0@ == d2[i].0@ && d1[i].1@
                == d2[i].1@ by {
                assert(d1[i] == l1[i + 1]);
                assert(d2[i] == l2[i + 1]);
            }
        }
        lemma_enc_pairs_congruent(d1, d2);
        assert(enc_pairs(l1) =~= enc_pairs(l2));
    }
}

/// Whether the pair list holds each key at most once.
fn pairs_keys_unique(entries: &Vec<(Vec<u8>, Vec<u8>)>) -> (r: bool)
    ensures
        r == (forall|i: int, j: int|
            0 <= i < j < entries@.len() ==> entries@[i].0@ != entries@[j].0@),
{
    let mut i: usize = 0;
    while i < entries.len()
        invariant
            0 <= i <= entries@.len(),
            forall|a: int, b: int| 0 <= a < b < i ==> entries@[a].0@ != entries@[b].0@,
        decreases entries@.len() - i,
    {
        let mut j: usize = 0;
        while j < i
            invariant
                0 <= j <= i < entries@.len(),
                forall|a: int| 0 <= a < j ==> entries@[a].0@ != entries@[i as int].0@,
            decreases i - j,
        {
            if bytes_eq(entries[j].0.as_slice(), entries[i].0.as_slice()) {
                return false;
            }
            j = j + 1;
        }
        i = i + 1;
    }
    true
}

/// A faithful encoding of the well-formed pair map `m` sits at `pos`.
pub open spec fn enc_bytes_map_at(bytes: Seq<u8>, pos: int, m: BytesMap) -> bool {
    &&& m.wf()
    &&& bytes_map_enc_ok(m)
    &&& 0 <= pos
    &&& pos + enc_bytes_map(m).len() <= bytes.len()
    &&& bytes.subrange(pos, pos + enc_bytes_map(m).len()) == enc_bytes_map(m)
}

/// Read a whole pair map at `pos`, rejecting duplicate keys.
fn decode_bytes_map(bytes: &[u8], pos: usize) -> (r: Option<(BytesMap, usize)>)
    ensures
        r matches Some((m, p)) ==> pos <= p <= bytes@.len() && m.wf() && bytes_map_enc_ok(m)
            && enc_bytes_map(m) == bytes@.subrange(pos as int, p as int),
        forall|m: BytesMap|
            enc_bytes_map_at(bytes@, pos as int, m) ==> (r matches Some((m2, p)) && bytes_map_equiv(
                m2,
                m,
            ) && p == pos + enc_bytes_map(m).len()),
{
    proof {
        vstd::bytes::lemma_auto_spec_u64_to_from_le_bytes();
        assert forall|m: BytesMap| enc_bytes_map_at(bytes@, pos as int, m) implies enc_pairs_at(
            bytes@,
            pos as int,
            m.spec_entries(),
        ) by {
            assert(enc_bytes_map(m) == vstd::bytes::spec_u64_to_le_bytes(m.spec_len() as u64)
                + enc_pairs(m.spec_entries()));
            assert(enc_bytes_map(m).len() == 8 + enc_pairs(m.spec_entries()).len());
        }
    }
    let (entries, p) = match decode_pairs(bytes, pos) {
        Some(x) => x,
        None => {
            proof {
                if exists|m: BytesMap| enc_bytes_map_at(bytes@, pos as int, m) {
                    let m = choose|m: BytesMap| enc_bytes_map_at(bytes@, pos as int, m);
                    assert(enc_pairs_at(bytes@, pos as int, m.spec_entries()));
                    assert(false);
                }
            }
            return None;
        },
    };
    let unique = pairs_keys_unique(&entries);
    proof {
        if exists|m: BytesMap| enc_bytes_map_at(bytes@, pos as int, m) {
            let m = choose|m: BytesMap| enc_bytes_map_at(bytes@, pos as int, m);
            assert(enc_pairs_at(bytes@, pos as int, m.spec_entries()));
            assert(pairs_equiv(entries@, m.spec_entries()));
            assert forall|i: int, j: int|
                0 <= i < j < entries@.len() implies entries@[i].0@ != entries@[j].0@ by {
                assert(entries@[i].0@ == m.spec_entries()[i].0@);
                assert(entries@[j].0@ == m.spec_entries()[j].0@);
            }
            assert(unique);
        }
    }
    if !unique {
        return None;
    }
    let m = BytesMap { entries };
    proof {
        assert(m.spec_entries() == m.entries@);
        assert(enc_bytes_map(m) == bytes@.subrange(pos as int, p as int));
        assert forall|m0: BytesMap| enc_bytes_map_at(bytes@, pos as int, m0) implies bytes_map_equiv(
            m,
            m0,
        ) && p == pos + enc_bytes_map(m0).len() by {
            assert(enc_pairs_at(bytes@, pos as int, m0.spec_entries()));
            assert(pairs_equiv(m.spec_entries(), m0.spec_entries()));
            assert(enc_bytes_map(m0).len() == 8 + enc_pairs(m0.spec_entries()).len());
        }
    }
    Some((m, p))
}

/// Position-by-position equal pair maps have equal encodings.
proof fn lemma_enc_bytes_map_congruent(m1: BytesMap, m2: BytesMap)
    requires
        bytes_map_equiv(m1, m2),
    ensures
        enc_bytes_map(m1) == enc_bytes_map(m2),
{
    lemma_enc_pairs_congruent(m1.spec_entries(), m2.spec_entries());
    assert(enc_bytes_map(m1) =~= enc_bytes_map(m2));
}

/// Equivalent records have equal encodings.
proof fn lemma_enc_record_congruent(r1: PublicGroupState, r2: PublicGroupState)
    requires
        record_equiv(r1, r2),
    ensures
        enc_record(r1) == enc_record(r2),
{
    lemma_enc_bytes_map_congruent(r1.proposal_queue, r2.proposal_queue);
    assert(enc_record(r1) =~= enc_record(r2));
}

/// Record equivalence carries over between records equivalent to a common
/// third.
proof fn lemma_record_equiv_join(a: PublicGroupState, b: PublicGroupState, c: PublicGroupState)
    requires
        record_equiv(a, c),
        record_equiv(b, c),
    ensures
        record_equiv(a, b),
{
    assert(pairs_equiv(a.proposal_queue.spec_entries(), b.proposal_queue.spec_entries())) by {
        assert forall|i: int|
            0 <= i < a.proposal_queue.spec_entries().len() implies (
        #[trigger] a.proposal_queue.spec_entries()[i]).0@ == b.proposal_queue.spec_entries()[i].0@
            && a.proposal_queue.spec_entries()[i].1@ == b.proposal_queue.spec_entries()[i].1@ by {
            assert(a.proposal_queue.spec_entries()[i].0@ == c.proposal_queue.spec_entries()[i].0@);
            assert(b.proposal_queue.spec_entries()[i].0@ == c.proposal_queue.spec_entries()[i].0@);
            assert(a.proposal_queue.spec_entries()[i].1@ == c.proposal_queue.spec_entries()[i].1@);
            assert(b.proposal_queue.spec_entries()[i].1@ == c.proposal_queue.spec_entries()[i].1@);
        }
    }
}

/// Two records encoded at the same position of the same byte string are
/// equivalent, with equal encodings.
proof fn lemma_enc_record_at_unique(
    bytes: Seq<u8>,
    pos: int,
    r1: PublicGroupState,
    r2: PublicGroupState,
)
    requires
        enc_record_at(bytes, pos, r1),
        enc_record_at(bytes, pos, r2),
    ensures
        record_equiv(r1, r2),
        enc_record(r1).len() == enc_record(r2).len(),
{
    let total: int = bytes.len() as int;
    assert(enc_record(r1) + bytes.subrange(pos + enc_record(r1).len() as int, total)
        =~= bytes.subrange(pos, total));
    assert(enc_record(r2) + bytes.subrange(pos + enc_record(r2).len() as int, total)
        =~= bytes.subrange(pos, total));
    lemma_enc_record_prefix(
        r1,
        bytes.subrange(pos + enc_record(r1).len() as int, total),
        r2,
        bytes.subrange(pos + enc_record(r2).len() as int, total),
    );
    lemma_enc_record_congruent(r1, r2);
}

/// A faithful encoding of the record `rec` (its queue well-formed) sits at
/// `pos`.
pub open spec fn enc_record_at(bytes: Seq<u8>, pos: int, rec: PublicGroupState) -> bool {
    &&& record_enc_ok(rec)
    &&& rec.proposal_queue.wf()
    &&& 0 <= pos
    &&& pos + enc_record(rec).len() <= bytes.len()
    &&& bytes.subrange(pos, pos + enc_record(rec).len()) == enc_record(rec)
}

/// Read one per-group record at `pos`.
#[verifier::rlimit(100)]
#[verifier::spinoff_prover]
fn decode_record(bytes: &[u8], pos: usize) -> (r: Option<(PublicGroupState, usize)>)
    ensures
        r matches Some((rec, p)) ==> pos <= p <= bytes@.len() && rec.proposal_queue.wf()
            && record_enc_ok(rec) && enc_record(rec) == bytes@.subrange(pos as int, p as int),
        forall|rec: PublicGroupState|
            enc_record_at(bytes@, pos as int, rec) ==> (r matches Some((rec2, p)) && record_equiv(
                rec2,
                rec,
            ) && p == pos + enc_record(rec).len()),
{
    proof {
        vstd::bytes::lemma_auto_spec_u64_to_from_le_bytes();
    }
    let ghost has_w = exists|rec: PublicGroupState| enc_record_at(bytes@, pos as int, rec);
    let ghost w: PublicGroupState = if has_w {
        choose|rec: PublicGroupState| enc_record_at(bytes@, pos as int, rec)
    } else {
        arbitrary()
    };
    let ghost fin: int = pos + enc_record(w).len() as int;
    let ghost total: int = bytes@.len() as int;
    let ghost wa = enc_bytes(w.treesync@);
    let ghost wb = enc_bytes(w.interim_transcript_hash@);
    let ghost wc = enc_bytes(w.context@);
    let ghost wd = enc_bytes(w.confirmation_tag@);
    let ghost wq = enc_bytes_map(w.proposal_queue);
    proof {
        if has_w {
            assert(enc_record_at(bytes@, pos as int, w));
            assert(enc_record(w) == wa + wb + wc + wd + wq);
            assert(fin - pos == wa.len() + wb.len() + wc.len() + wd.len() + wq.len());
            assert forall|i: int| 0 <= i < wa.len() implies bytes@[pos + i] == wa[i] by {
                assert(bytes@.subrange(pos as int, fin)[i] == (wa + wb + wc + wd + wq)[i]);
            }
            assert(bytes@.subrange(pos as int, pos + wa.len() as int) =~= wa);
            assert(enc_bytes_at(bytes@, pos as int, w.treesync@));
        }
    }
    let (treesync, p1) = match decode_bytes_field(bytes, pos) {
        Some(x) => x,
        None => {
            proof {
                if has_w {
                    assert(false);
                }
            }
            return None;
        },
    };
    proof {
        if has_w {
            assert(enc_bytes(treesync@) + bytes@.subrange(p1 as int, total) =~= bytes@.subrange(
                pos as int,
                total,
            ));
            assert(wa + bytes@.subrange(pos + wa.len() as int, total) =~= bytes@.subrange(
                pos as int,
                total,
            ));
            lemma_enc_bytes_prefix(
                treesync@,
                bytes@.subrange(p1 as int, total),
                w.treesync@,
                bytes@.subrange(pos + wa.len() as int, total),
            );
            assert(treesync@ == w.treesync@);
            assert(p1 == pos + wa.len());
            assert forall|i: int| 0 <= i < wb.len() implies bytes@[p1 + i] == wb[i] by {
                assert(bytes@.subrange(pos as int, fin)[wa.len() + i] == (wa + wb + wc + wd
                    + wq)[wa.len() + i]);
            }
            assert(bytes@.subrange(p1 as int, p1 + wb.len() as int) =~= wb);
            assert(enc_bytes_at(bytes@, p1 as int, w.interim_transcript_hash@));
        }
    }
    let (interim_transcript_hash, p2) = match decode_bytes_field(bytes, p1) {
        Some(x) => x,
        None => {
            proof {
                if has_w {
                    assert(false);
                }
            }
            return None;
        },
    };
    proof {
        if has_w {
            assert(enc_bytes(interim_transcript_hash@) + bytes@.subrange(p2 as int, total)
                =~= bytes@.subrange(p1 as int, total));
            assert(wb + bytes@.subrange(p1 + wb.len() as int, total) =~= bytes@.subrange(
                p1 as int,
                total,
            ));
            lemma_enc_bytes_prefix(
                interim_transcript_hash@,
                bytes@.subrange(p2 as int, total),
                w.interim_transcript_hash@,
                bytes@.subrange(p1 + wb.len() as int, total),
            );
            assert(interim_transcript_hash@ == w.interim_transcript_hash@);
            assert(p2 == p1 + wb.len());
            assert forall|i: int| 0 <= i < wc.len() implies bytes@[p2 + i] == wc[i] by {
                assert(bytes@.subrange(pos as int, fin)[wa.len() + wb.len() + i] == (wa + wb + wc
                    + wd + wq)[wa.len() + wb.len() + i]);
            }
            assert(bytes@.subrange(p2 as int, p2 + wc.len() as int) =~= wc);
            assert(enc_bytes_at(bytes@, p2 as int, w.context@));
        }
    }
    let (context, p3) = match decode_bytes_field(bytes, p2) {
        Some(x) => x,
        None => {
            proof {
                if has_w {
                    assert(false);
                }
            }
            return None;
        },
    };
    proof {
        if has_w {
            assert(enc_bytes(context@) + bytes@.subrange(p3 as int, total) =~= bytes@.subrange(
                p2 as int,
                total,
            ));
            assert(wc + bytes@.subrange(p2 + wc.len() as int, total) =~= bytes@.subrange(
                p2 as int,
                total,
            ));
            lemma_enc_bytes_prefix(
                context@,
                bytes@.subrange(p3 as int, total),
                w.context@,
                bytes@.subrange(p2 + wc.len() as int, total),
            );
            assert(context@ == w.context@);
            assert(p3 == p2 + wc.len());
            assert forall|i: int| 0 <= i < wd.len() implies bytes@[p3 + i] == wd[i] by {
                assert(bytes@.subrange(pos as int, fin)[wa.len() + wb.len() + wc.len() + i] == (wa
                    + wb + wc + wd + wq)[wa.len() + wb.len() + wc.len() + i]);
            }
            assert(bytes@.subrange(p3 as int, p3 + wd.len() as int) =~= wd);
            assert(enc_bytes_at(bytes@, p3 as int, w.confirmation_tag@));
        }
    }
    let (confirmation_tag, p4) = match decode_bytes_field(bytes, p3) {
        Some(x) => x,
        None => {
            proof {
                if has_w {
                    assert(false);
                }
            }
            return None;
        },
    };
    proof {
        if has_w {
            assert(enc_bytes(confirmation_tag@) + bytes@.subrange(p4 as int, total)
                =~= bytes@.subrange(p3 as int, total));
            assert(wd + bytes@.subrange(p3 + wd.len() as int, total) =~= bytes@.subrange(
                p3 as int,
                total,
            ));
            lemma_enc_bytes_prefix(
                confirmation_tag@,
                bytes@.subrange(p4 as int, total),
                w.confirmation_tag@,
                bytes@.subrange(p3 + wd.len() as int, total),
            );
            assert(confirmation_tag@ == w.confirmation_tag@);
            assert(p4 == p3 + wd.len());
            assert forall|i: int| 0 <= i < wq.len() implies bytes@[p4 + i] == wq[i] by {
                assert(bytes@.subrange(pos as int, fin)[wa.len() + wb.len() + wc.len() + wd.len()
                    + i] == (wa + wb + wc + wd + wq)[wa.len() + wb.len() + wc.len() + wd.len()
                    + i]);
            }
            assert(bytes@.subrange(p4 as int, p4 + wq.len() as int) =~= wq);
            assert(enc_bytes_map_at(bytes@, p4 as int, w.proposal_queue));
        }
    }
    let (proposal_queue, p5) = match decode_bytes_map(bytes, p4) {
        Some(x) => x,
        None => {
            proof {
                if has_w {
                    assert(false);
                }
            }
            return None;
        },
    };
    let rec = PublicGroupState {
        treesync,
        interim_transcript_hash,
        context,
        confirmation_tag,
        proposal_queue,
    };
    proof {
        assert(bytes@.subrange(pos as int, p5 as int) =~= bytes@.subrange(pos as int, p1 as int)
            + bytes@.subrange(p1 as int, p2 as int) + bytes@.subrange(p2 as int, p3 as int)
            + bytes@.subrange(p3 as int, p4 as int) + bytes@.subrange(p4 as int, p5 as int));
        assert(enc_record(rec) =~= bytes@.subrange(pos as int, p5 as int));
        if has_w {
            assert(p5 == p4 + enc_bytes_map(w.proposal_queue).len());
            assert(p5 == fin);
            assert(record_equiv(rec, w));
        }
        assert forall|rec0: PublicGroupState|
            enc_record_at(bytes@, pos as int, rec0) implies record_equiv(rec, rec0) && p5 as int
            == pos + enc_record(rec0).len() by {
            assert(has_w);
            assert(enc_record_at(bytes@, pos as int, w));
            lemma_enc_record_at_unique(bytes@, pos as int, rec0, w);
            lemma_record_equiv_join(rec, rec0, w);
        }
    }
    Some((rec, p5))
}

/// Whether the record list holds each group id at most once.
fn record_keys_unique(entries: &Vec<(Vec<u8>, PublicGroupState)>) -> (r: bool)
    ensures
        r == (forall|i: int, j: int|
            0 <= i < j < entries@.len() ==> entries@[i].0@ != entries@[j].0@),
{
    let mut i: usize = 0;
    while i < entries.len()
        invariant
            0 <= i <= entries@.len(),
            forall|a: int, b: int| 0 <= a < b < i ==> entries@[a].0@ != entries@[b].0@,
        decreases entries@.len() - i,
    {
        let mut j: usize = 0;
        while j < i
            invariant
                0 <= j <= i < entries@.len(),
                forall|a: int| 0 <= a < j ==> entries@[a].0@ != entries@[i as int].0@,
            decreases i - j,
        {
            if bytes_eq(entries[j].0.as_slice(), entries[i].0.as_slice()) {
                return false;
            }
            j = j + 1;
        }
        i = i + 1;
    }
    true
}

/// Position-by-position equivalent record lists have equal encodings.
proof fn lemma_enc_record_pairs_congruent(
    l1: Seq<(Vec<u8>, PublicGroupState)>,
    l2: Seq<(Vec<u8>, PublicGroupState)>,
)
    requires
        record_pairs_equiv(l1, l2),
    ensures
        enc_record_pairs(l1) == enc_record_pairs(l2),
    decreases l1.len(),
{
    if l1.len() == 0 {
        assert(enc_record_pairs(l1) =~= enc_record_pairs(l2));
    } else {
        assert(l1[0].0@ == l2[0].0@ && record_equiv(l1[0].1, l2[0].1));
        lemma_enc_record_congruent(l1[0].1, l2[0].1);
        let d1 = l1.drop_first();
        let d2 = l2.drop_first();
        assert(record_pairs_equiv(d1, d2)) by {
            assert forall|i: int|
                0 <= i < d1.len() implies (#[trigger] d1[i]).0@ == d2[i].0@ && record_equiv(
                d1[i].1,
                d2[i].1,
            ) by {
                assert(d1[i] == l1[i + 1]);
                assert(d2[i] == l2[i + 1]);
            }
        }
        lemma_enc_record_pairs_congruent(d1, d2);
        assert(enc_record_pairs(l1) =~= enc_record_pairs(l2));
    }
}

/// A faithful encoding of the well-formed record map `g` sits at `pos`.
pub open spec fn enc_record_map_at(bytes: Seq<u8>, pos: int, g: GroupStateMap) -> bool {
    &&& g.wf()
    &&& record_map_enc_ok(g)
    &&& 0 <= pos
    &&& pos + enc_record_map(g).len() <= bytes.len()
    &&& bytes.subrange(pos, pos + enc_record_map(g).len()) == enc_record_map(g)
}

/// Read a whole record map at `pos`, rejecting duplicate group ids.
#[verifier::rlimit(100)]
#[verifier::spinoff_prover]
fn decode_record_map(bytes: &[u8], pos: usize) -> (r: Option<(GroupStateMap, usize)>)
    ensures
        r matches Some((m, p)) ==> pos <= p <= bytes@.len() && m.wf() && record_map_enc_ok(m)
            && enc_record_map(m) == bytes@.subrange(pos as int, p as int),
        forall|g: GroupStateMap|
            enc_record_map_at(bytes@, pos as int, g) ==> (r matches Some((m, p))
                && record_map_equiv(m, g) && p == pos + enc_record_map(g).len()),
{
    proof {
        vstd::bytes::lemma_auto_spec_u64_to_from_le_bytes();
    }
    let ghost has_w = exists|g: GroupStateMap| enc_record_map_at(bytes@, pos as int, g);
    let ghost wg: GroupStateMap = if has_w {
        choose|g: GroupStateMap| enc_record_map_at(bytes@, pos as int, g)
    } else {
        arbitrary()
    };
    let ghost w: Seq<(Vec<u8>, PublicGroupState)> = wg.spec_entries();
    let ghost fin: int = pos + 8 + enc_record_pairs(w).len() as int;
    let (count, count_end) = match decode_u64(bytes, pos) {
        Some(x) => x,
        None => {
            proof {
                if has_w {
                    assert(enc_record_map_at(bytes@, pos as int, wg));
                    assert(enc_record_map(wg).len() >= 8);
                    assert(pos + 8 <= bytes@.len());
                    assert(false);
                }
            }
            return None;
        },
    };
    proof {
        if has_w {
            assert(enc_record_map_at(bytes@, pos as int, wg));
            assert(enc_record_map(wg) == vstd::bytes::spec_u64_to_le_bytes(w.len() as u64)
                + enc_record_pairs(w));
            assert(vstd::bytes::spec_u64_to_le_bytes(w.len() as u64) =~= bytes@.subrange(
                pos as int,
                pos + 8,
            ));
            assert(vstd::bytes::spec_u64_to_le_bytes(count) == vstd::bytes::spec_u64_to_le_bytes(
                w.len() as u64,
            ));
            assert(vstd::bytes::spec_u64_from_le_bytes(vstd::bytes::spec_u64_to_le_bytes(count))
                == count);
            assert(count == w.len() as u64);
            assert(count == w.len());
        }
    }
    let mut p = count_end;
    let mut entries: Vec<(Vec<u8>, PublicGroupState)> = Vec::new();
    let mut k: u64 = 0;
    proof {
        if has_w {
            assert(w.take(0) =~= Seq::<(Vec<u8>, PublicGroupState)>::empty());
            assert(enc_record_pairs(w.take(0)) =~= Seq::<u8>::empty());
            assert(w.skip(0) =~= w);
            assert(bytes@.subrange(pos + 8, fin) =~= bytes@.subrange(pos as int, fin).subrange(
                8,
                8 + enc_record_pairs(w).len() as int,
            ));
            assert(bytes@.subrange(pos + 8, fin) =~= enc_record_pairs(w));
            assert(count_end + enc_record_pairs(w.skip(0)).len() == fin);
        }
    }
    while k < count
        invariant
            pos + 8 <= p <= bytes@.len(),
            entries@.len() == k <= count,
            vstd::bytes::spec_u64_to_le_bytes(count) == bytes@.subrange(pos as int, pos + 8),
            enc_record_pairs(entries@) == bytes@.subrange(pos + 8, p as int),
            forall|i: int|
                0 <= i < entries@.len() ==> (#[trigger] entries@[i].1).proposal_queue.wf(),
            forall|i: int|
                0 <= i < entries@.len() ==> seq_len_ok((#[trigger] entries@[i]).0@)
                    && record_enc_ok(entries@[i].1),
            has_w == exists|g: GroupStateMap| enc_record_map_at(bytes@, pos as int, g),
            has_w ==> enc_record_map_at(bytes@, pos as int, wg) && w == wg.spec_entries() && fin
                == pos + 8 + enc_record_pairs(w).len() && count == w.len() && {
                &&& forall|j: int|
                    0 <= j < entries@.len() ==> (#[trigger] entries@[j]).0@ == w[j].0@
                        && record_equiv(entries@[j].1, w[j].1)
                &&& p == pos + 8 + enc_record_pairs(w.take(k as int)).len()
                &&& p + enc_record_pairs(w.skip(k as int)).len() == fin
                &&& bytes@.subrange(p as int, fin) == enc_record_pairs(w.skip(k as int))
            },
        decreases count - k,
    {
        proof {
            vstd::bytes::lemma_auto_spec_u64_to_from_le_bytes();
            if has_w {
                let tail = w.skip(k as int);
                assert(tail.len() > 0);
                assert(tail[0] == w[k as int]);
                assert(tail.drop_first() =~= w.skip(k as int + 1));
                let a = enc_bytes(w[k as int].0@);
                let b = enc_record(w[k as int].1);
                let rest = enc_record_pairs(w.skip(k as int + 1));
                assert(enc_record_pairs(tail) == a + b + rest);
                assert(seq_len_ok(w[k as int].0@) && record_enc_ok(w[k as int].1));
                assert(a.len() == 8 + w[k as int].0@.len());
                assert(bytes@.subrange(p as int, fin) == a + b + rest);
                assert(fin - p == a.len() + b.len() + rest.len());
                assert forall|i: int| 0 <= i < a.len() implies bytes@[p + i] == a[i] by {
                    assert(bytes@.subrange(p as int, fin)[i] == (a + b + rest)[i]);
                }
                assert(bytes@.subrange(p as int, p + a.len() as int) =~= a);
                assert(enc_bytes_at(bytes@, p as int, w[k as int].0@));
            }
        }
        let (key, p2) = match decode_bytes_field(bytes, p) {
            Some(x) => x,
            None => {
                proof {
                    if has_w {
                        assert(false);
                    }
                }
                return None;
            },
        };
        proof {
            vstd::bytes::lemma_auto_spec_u64_to_from_le_bytes();
            if has_w {
                let total: int = bytes@.len() as int;
                let a = enc_bytes(w[k as int].0@);
                let b = enc_record(w[k as int].1);
                let rest = enc_record_pairs(w.skip(k as int + 1));
                assert(bytes@.subrange(p as int, fin) == a + b + rest);
                assert(a.len() == 8 + w[k as int].0@.len());
                assert(fin - p == a.len() + b.len() + rest.len());
                assert(enc_bytes(key@) + bytes@.subrange(p2 as int, total) =~= bytes@.subrange(
                    p as int,
                    total,
                ));
                assert(a + bytes@.subrange(p + a.len() as int, total) =~= bytes@.subrange(
                    p as int,
                    total,
                ));
                lemma_enc_bytes_prefix(
                    key@,
                    bytes@.subrange(p2 as int, total),
                    w[k as int].0@,
                    bytes@.subrange(p + a.len() as int, total),
                );
                assert(key@ == w[k as int].0@);
                assert(p2 == p + a.len());
                assert forall|i: int| 0 <= i < b.len() implies bytes@[p2 + i] == b[i] by {
                    assert(bytes@.subrange(p as int, fin)[a.len() + i] == (a + b + rest)[a.len()
                        + i]);
                }
                assert(bytes@.subrange(p2 as int, p2 + b.len() as int) =~= b);
                assert((w[k as int].1).proposal_queue.wf()) by {
                    assert(wg.wf());
                    let idx = k as int;
                    assert(wg.spec_entries()[idx].1.proposal_queue.wf());
                }
                assert(enc_record_at(bytes@, p2 as int, w[k as int].1));
            }
        }
        let (rec, p3) = match decode_record(bytes, p2) {
            Some(x) => x,
            None => {
                proof {
                    if has_w {
                        assert(false);
                    }
                }
                return None;
            },
        };
        let ghost entries0 = entries@;
        let ghost pprev: int = p as int;
        let entry = (key, rec);
        entries.push(entry);
        proof {
            vstd::bytes::lemma_auto_spec_u64_to_from_le_bytes();
            lemma_enc_record_pairs_push(entries0, entry);
            assert(bytes@.subrange(pos + 8, p3 as int) =~= bytes@.subrange(pos + 8, pprev)
                + bytes@.subrange(pprev, p2 as int) + bytes@.subrange(p2 as int, p3 as int));
            assert(enc_record_pairs(entries@) =~= bytes@.subrange(pos + 8, p3 as int));
            if has_w {
                let a = enc_bytes(w[k as int].0@);
                let b = enc_record(w[k as int].1);
                let rest = enc_record_pairs(w.skip(k as int + 1));
                assert(bytes@.subrange(pprev, fin) == a + b + rest);
                assert(record_equiv(rec, w[k as int].1));
                assert(p3 == p2 + enc_record(w[k as int].1).len());
                assert(p3 == pprev + a.len() + b.len());
                lemma_enc_record_pairs_push(w.take(k as int), w[k as int]);
                assert(w.take(k as int).push(w[k as int]) =~= w.take(k as int + 1));
                assert(p3 == pos + 8 + enc_record_pairs(w.take(k as int + 1)).len());
                assert(enc_record_pairs(w.skip(k as int)).len() == a.len() + b.len() + rest.len());
                assert(p3 + rest.len() == fin);
                assert forall|i: int| 0 <= i < rest.len() implies bytes@[p3 + i] == rest[i] by {
                    assert(bytes@.subrange(pprev, fin)[a.len() + b.len() + i] == (a + b
                        + rest)[a.len() + b.len() + i]);
                }
                assert(bytes@.subrange(p3 as int, fin) =~= rest);
            }
        }
        p = p3;
        k = k + 1;
    }
    let unique = record_keys_unique(&entries);
    proof {
        if has_w {
            assert(w.skip(w.len() as int) =~= Seq::<(Vec<u8>, PublicGroupState)>::empty());
            assert(w.take(w.len() as int) =~= w);
            assert(p == fin);
            assert(record_pairs_equiv(entries@, w));
            assert forall|i: int, j: int|
                0 <= i < j < entries@.len() implies entries@[i].0@ != entries@[j].0@ by {
                assert(entries@[i].0@ == w[i].0@);
                assert(entries@[j].0@ == w[j].0@);
                assert(wg.spec_entries()[i].0@ != wg.spec_entries()[j].0@);
            }
            assert(unique);
        }
    }
    if !unique {
        return None;
    }
    let m = GroupStateMap { entries };
    proof {
        assert(m.spec_entries() == m.entries@);
        assert(bytes@.subrange(pos as int, p as int) =~= bytes@.subrange(pos as int, pos + 8)
            + bytes@.subrange(pos + 8, p as int));
        assert(enc_record_map(m) =~= bytes@.subrange(pos as int, p as int));
        assert forall|g: GroupStateMap|
            enc_record_map_at(bytes@, pos as int, g) implies record_map_equiv(m, g) && p as int
            == pos + enc_record_map(g).len() by {
            assert(has_w);
            assert(vstd::bytes::spec_u64_to_le_bytes(g.spec_len() as u64) =~= bytes@.subrange(
                pos as int,
                pos + 8,
            ));
            assert(g.spec_len() as u64 == wg.spec_len() as u64);
            assert(g.spec_entries().len() == w.len());
            let total: int = bytes@.len() as int;
            assert forall|i: int|
                0 <= i < enc_record_pairs(g.spec_entries()).len() implies bytes@[pos + 8 + i]
                == enc_record_pairs(g.spec_entries())[i] by {
                assert(bytes@.subrange(pos as int, pos + 8 + enc_record_pairs(
                    g.spec_entries(),
                ).len() as int)[8 + i] == (vstd::bytes::spec_u64_to_le_bytes(g.spec_len() as u64)
                    + enc_record_pairs(g.spec_entries()))[8 + i]);
            }
            assert(enc_record_pairs(g.spec_entries()) + bytes@.subrange(
                pos + 8 + enc_record_pairs(g.spec_entries()).len() as int,
                total,
            ) =~= bytes@.subrange(pos + 8, total));
            assert(enc_record_pairs(w) + bytes@.subrange(
                pos + 8 + enc_record_pairs(w).len() as int,
                total,
            ) =~= bytes@.subrange(pos + 8, total));
            lemma_enc_record_pairs_prefix(
                g.spec_entries(),
                bytes@.subrange(pos + 8 + enc_record_pairs(g.spec_entries()).len() as int, total),
                w,
                bytes@.subrange(pos + 8 + enc_record_pairs(w).len() as int, total),
            );
            assert(record_pairs_equiv(g.spec_entries(), w));
            lemma_enc_record_pairs_congruent(g.spec_entries(), w);
            assert forall|j: int|
                0 <= j < m.spec_entries().len() implies (#[trigger] m.spec_entries()[j]).0@
                == g.spec_entries()[j].0@ && record_equiv(
                m.spec_entries()[j].1,
                g.spec_entries()[j].1,
            ) by {
                assert(entries@[j].0@ == w[j].0@ && record_equiv(entries@[j].1, w[j].1));
                assert(g.spec_entries()[j].0@ == w[j].0@ && record_equiv(
                    g.spec_entries()[j].1,
                    w[j].1,
                ));
                lemma_enc_record_congruent(g.spec_entries()[j].1, w[j].1);
                assert(bytes_map_equiv(entries@[j].1.proposal_queue, w[j].1.proposal_queue));
                assert(bytes_map_equiv(
                    g.spec_entries()[j].1.proposal_queue,
                    w[j].1.proposal_queue,
                ));
            }
        }
    }
    Some((m, p))
}

/// Decode a whole store from one byte blob, rejecting trailing bytes,
/// duplicate keys and truncated input. A successful decode re-encodes to
/// exactly the input; and on the encoding of any well-formed store the decode
/// succeeds and restores that store's maps entry for entry — the
/// serialize/deserialize round trip.
#[verifier::rlimit(100)]
#[verifier::spinoff_prover]
pub fn deserialize_store(bytes: &[u8]) -> (r: Option<(GroupStateMap, BytesMap, BytesMap)>)
    ensures
        r matches Some((gs, pgs, gi)) ==> gs.wf() && pgs.wf() && gi.wf() && record_map_enc_ok(gs)
            && bytes_map_enc_ok(pgs) && bytes_map_enc_ok(gi) && enc_store(gs, pgs, gi) == bytes@,
        forall|gs0: GroupStateMap, pgs0: BytesMap, gi0: BytesMap|
            (gs0.wf() && pgs0.wf() && gi0.wf() && record_map_enc_ok(gs0) && bytes_map_enc_ok(pgs0)
                && bytes_map_enc_ok(gi0) && bytes@ == enc_store(gs0, pgs0, gi0)) ==> (r matches Some(
                (gs, pgs, gi),
            ) && record_map_equiv(gs, gs0) && bytes_map_equiv(pgs, pgs0) && bytes_map_equiv(
                gi,
                gi0,
            )),
{
    let ghost has_w = exists|gs0: GroupStateMap, pgs0: BytesMap, gi0: BytesMap|
        gs0.wf() && pgs0.wf() && gi0.wf() && record_map_enc_ok(gs0) && bytes_map_enc_ok(pgs0)
            && bytes_map_enc_ok(gi0) && bytes@ == enc_store(gs0, pgs0, gi0);
    let ghost (wgs, wpgs, wgi): (GroupStateMap, BytesMap, BytesMap) = if has_w {
        choose|gs0: GroupStateMap, pgs0: BytesMap, gi0: BytesMap|
            gs0.wf() && pgs0.wf() && gi0.wf() && record_map_enc_ok(gs0) && bytes_map_enc_ok(pgs0)
                && bytes_map_enc_ok(gi0) && bytes@ == enc_store(gs0, pgs0, gi0)
    } else {
        arbitrary()
    };
    let ghost la: int = enc_record_map(wgs).len() as int;
    let ghost lb: int = enc_bytes_map(wpgs).len() as int;
    let ghost lc: int = enc_bytes_map(wgi).len() as int;
    proof {
        if has_w {
            assert(bytes@ == enc_record_map(wgs) + enc_bytes_map(wpgs) + enc_bytes_map(wgi));
            assert(bytes@.len() == la + lb + lc);
            assert forall|i: int|
                0 <= i < la implies bytes@[i] == enc_record_map(wgs)[i] by {
                assert(bytes@[i] == (enc_record_map(wgs) + enc_bytes_map(wpgs) + enc_bytes_map(
                    wgi,
                ))[i]);
            }
            assert(bytes@.subrange(0, la) =~= enc_record_map(wgs));
            assert(enc_record_map_at(bytes@, 0, wgs));
        }
    }
    let (gs, p1) = match decode_record_map(bytes, 0) {
        Some(x) => x,
        None => {
            proof {
                if has_w {
                    assert(false);
                }
            }
            return None;
        },
    };
    proof {
        if has_w {
            assert(p1 == la);
            assert forall|i: int|
                0 <= i < lb implies bytes@[la + i] == enc_bytes_map(wpgs)[i] by {
                assert(bytes@[la + i] == (enc_record_map(wgs) + enc_bytes_map(wpgs)
                    + enc_bytes_map(wgi))[la + i]);
            }
            assert(bytes@.subrange(la, la + lb) =~= enc_bytes_map(wpgs));
            assert(enc_bytes_map_at(bytes@, p1 as int, wpgs));
        }
    }
    let (pgs, p2) = match decode_bytes_map(bytes, p1) {
        Some(x) => x,
        None => {
            proof {
                if has_w {
                    assert(false);
                }
            }
            return None;
        },
    };
    proof {
        if has_w {
            assert(p2 == la + lb);
            assert forall|i: int|
                0 <= i < lc implies bytes@[la + lb + i] == enc_bytes_map(wgi)[i] by {
                assert(bytes@[la + lb + i] == (enc_record_map(wgs) + enc_bytes_map(wpgs)
                    + enc_bytes_map(wgi))[la + lb + i]);
            }
            assert(bytes@.subrange(la + lb, la + lb + lc) =~= enc_bytes_map(wgi));
            assert(enc_bytes_map_at(bytes@, p2 as int, wgi));
        }
    }
    let (gi, p3) = match decode_bytes_map(bytes, p2) {
        Some(x) => x,
        None => {
            proof {
                if has_w {
                    assert(false);
                }
            }
            return None;
        },
    };
    if p3 != bytes.len() {
        proof {
            if has_w {
                assert(p3 == la + lb + lc);
                assert(false);
            }
        }
        return None;
    }
    proof {
        assert(bytes@ =~= bytes@.subrange(0, p1 as int) + bytes@.subrange(p1 as int, p2 as int)
            + bytes@.subrange(p2 as int, p3 as int));
        assert(enc_store(gs, pgs, gi) =~= bytes@);
        assert forall|gs0: GroupStateMap, pgs0: BytesMap, gi0: BytesMap|
            (gs0.wf() && pgs0.wf() && gi0.wf() && record_map_enc_ok(gs0) && bytes_map_enc_ok(pgs0)
                && bytes_map_enc_ok(gi0) && bytes@ == enc_store(
                gs0,
                pgs0,
                gi0,
            )) implies record_map_equiv(gs, gs0) && bytes_map_equiv(pgs, pgs0) && bytes_map_equiv(
            gi,
            gi0,
        ) by {
            let la0: int = enc_record_map(gs0).len() as int;
            let lb0: int = enc_bytes_map(pgs0).len() as int;
            let lc0: int = enc_bytes_map(gi0).len() as int;
            assert(bytes@ == enc_record_map(gs0) + enc_bytes_map(pgs0) + enc_bytes_map(gi0));
            assert forall|i: int|
                0 <= i < la0 implies bytes@[i] == enc_record_map(gs0)[i] by {
                assert(bytes@[i] == (enc_record_map(gs0) + enc_bytes_map(pgs0) + enc_bytes_map(
                    gi0,
                ))[i]);
            }
            assert(bytes@.subrange(0, la0) =~= enc_record_map(gs0));
            assert(enc_record_map_at(bytes@, 0, gs0));
            assert(record_map_equiv(gs, gs0) && p1 == la0);
            assert forall|i: int|
                0 <= i < lb0 implies bytes@[la0 + i] == enc_bytes_map(pgs0)[i] by {
                assert(bytes@[la0 + i] == (enc_record_map(gs0) + enc_bytes_map(pgs0)
                    + enc_bytes_map(gi0))[la0 + i]);
            }
            assert(bytes@.subrange(la0, la0 + lb0) =~= enc_bytes_map(pgs0));
            assert(enc_bytes_map_at(bytes@, p1 as int, pgs0));
            assert(bytes_map_equiv(pgs, pgs0) && p2 == la0 + lb0);
            assert forall|i: int|
                0 <= i < lc0 implies bytes@[la0 + lb0 + i] == enc_bytes_map(gi0)[i] by {
                assert(bytes@[la0 + lb0 + i] == (enc_record_map(gs0) + enc_bytes_map(pgs0)
                    + enc_bytes_map(gi0))[la0 + lb0 + i]);
            }
            assert(bytes@.subrange(la0 + lb0, la0 + lb0 + lc0) =~= enc_bytes_map(gi0));
            assert(enc_bytes_map_at(bytes@, p2 as int, gi0));
            assert(bytes_map_equiv(gi, gi0));
        }
    }
    Some((gs, pgs, gi))
}

/// The lock invariant of the record map: well-formedness.
pub struct GroupStatesPred {}

impl RwLockPredicate<GroupStateMap> for GroupStatesPred {
    open spec fn inv(self, v: GroupStateMap) -> bool {
        v.wf()
    }
}

/// The lock invariant of a pair map: well-formedness.
pub struct BytesMapPred {}

impl RwLockPredicate<BytesMap> for BytesMapPred {
    open spec fn inv(self, v: BytesMap) -> bool {
        v.wf()
    }
}

/// The thread-safe in-memory store: each of the three maps sits behind its
/// own reader-writer lock, held only for the duration of a single map
/// operation. The exact semantics of each operation are stated on
/// [`GroupStateMap`] and [`BytesMap`]; through the locks, concurrent callers
/// see some interleaving of those operations.
///
/// This store holds the assist layer's artifacts: the current group info and
/// the past group states per group id, plus the five-field public-group-state
/// record surface for embedding hosts. Note that the engine calls made
/// through [`crate::group::Group`] persist the live tree, transcript,
/// context, confirmation tag and proposal queue through the engine provider's
/// own internal storage backend, not through this store; an embedding host
/// that wants the engine to write through this store instead can adapt it to
/// the engine's storage interface outside the verified library.
pub struct MlsAssistMemoryStorage {
    group_states: RwLock<GroupStateMap, GroupStatesPred>,
    past_group_states: RwLock<BytesMap, BytesMapPred>,
    group_infos: RwLock<BytesMap, BytesMapPred>,
}

impl MlsAssistMemoryStorage {
    /// A fresh, empty store.
    pub fn new() -> Self {
        Self {
            group_states: RwLock::new(GroupStateMap::new(), Ghost(GroupStatesPred {  })),
            past_group_states: RwLock::new(BytesMap::new(), Ghost(BytesMapPred {  })),
            group_infos: RwLock::new(BytesMap::new(), Ghost(BytesMapPred {  })),
        }
    }

    fn with_record_write(&self, gid: &[u8], dt: DataType, payload: Vec<u8>) {
        let (mut map, handle) = self.group_states.acquire_write();
        map.set_field_for(gid, dt, payload);
        handle.release_write(map);
    }

    fn with_record_read(&self, gid: &[u8], dt: DataType) -> Option<Vec<u8>> {
        let read_handle = self.group_states.acquire_read();
        let r = read_handle.borrow().get_field_for(gid, dt);
        read_handle.release_read();
        r
    }

    fn with_record_delete(&self, gid: &[u8], dt: DataType) {
        let (mut map, handle) = self.group_states.acquire_write();
        map.delete_field_for(gid, dt);
        handle.release_write(map);
    }

    /// Write the serialized tree.
    pub fn write_tree(&self, group_id: &[u8], tree: Vec<u8>) {
        self.with_record_write(group_id, DataType::TreeSync, tree)
    }

    /// Write the interim transcript hash.
    pub fn write_interim_transcript_hash(&self, group_id: &[u8], interim_transcript_hash: Vec<u8>) {
        self.with_record_write(
            group_id,
            DataType::InterimTranscriptHash,
            interim_transcript_hash,
        )
    }

    /// Write the group context.
    pub fn write_context(&self, group_id: &[u8], group_context: Vec<u8>) {
        self.with_record_write(group_id, DataType::Context, group_context)
    }

    /// Write the confirmation tag.
    pub fn write_confirmation_tag(&self, group_id: &[u8], confirmation_tag: Vec<u8>) {
        self.with_record_write(group_id, DataType::ConfirmationTag, confirmation_tag)
    }

    /// Enqueue a proposal under its reference.
    pub fn queue_proposal(&self, group_id: &[u8], proposal_ref: &[u8], proposal: Vec<u8>) {
        let (mut map, handle) = self.group_states.acquire_write();
        map.queue_proposal_for(group_id, proposal_ref, proposal);
        handle.release_write(map);
    }

    /// All queued proposals for the group, in the order their references were
    /// first queued, or an empty vector if none are stored.
    pub fn queued_proposals(&self, group_id: &[u8]) -> Vec<(Vec<u8>, Vec<u8>)> {
        let read_handle = self.group_states.acquire_read();
        let r = read_handle.borrow().queued_proposals_for(group_id);
        read_handle.release_read();
        r
    }

    /// The serialized tree, if one is stored and non-empty.
    pub fn tree(&self, group_id: &[u8]) -> Option<Vec<u8>> {
        self.with_record_read(group_id, DataType::TreeSync)
    }

    /// The group context, if one is stored and non-empty.
    pub fn group_context(&self, group_id: &[u8]) -> Option<Vec<u8>> {
        self.with_record_read(group_id, DataType::Context)
    }

    /// The interim transcript hash, if one is stored and non-empty.
    pub fn interim_transcript_hash(&self, group_id: &[u8]) -> Option<Vec<u8>> {
        self.with_record_read(group_id, DataType::InterimTranscriptHash)
    }

    /// The confirmation tag, if one is stored and non-empty.
    pub fn confirmation_tag(&self, group_id: &[u8]) -> Option<Vec<u8>> {
        self.with_record_read(group_id, DataType::ConfirmationTag)
    }

    /// Delete the tree; an entirely emptied record is pruned.
    pub fn delete_tree(&self, group_id: &[u8]) {
        self.with_record_delete(group_id, DataType::TreeSync)
    }

    /// Delete the confirmation tag; an entirely emptied record is pruned.
    pub fn delete_confirmation_tag(&self, group_id: &[u8]) {
        self.with_record_delete(group_id, DataType::ConfirmationTag)
    }

    /// Delete the group context; an entirely emptied record is pruned.
    pub fn delete_context(&self, group_id: &[u8]) {
        self.with_record_delete(group_id, DataType::Context)
    }

    /// Delete the interim transcript hash; an entirely emptied record is
    /// pruned.
    pub fn delete_interim_transcript_hash(&self, group_id: &[u8]) {
        self.with_record_delete(group_id, DataType::InterimTranscriptHash)
    }

    /// Remove one queued proposal by its reference; an entirely emptied
    /// record is pruned.
    pub fn remove_proposal(&self, group_id: &[u8], proposal_ref: &[u8]) {
        let (mut map, handle) = self.group_states.acquire_write();
        map.remove_proposal_for(group_id, proposal_ref);
        handle.release_write(map);
    }

    /// Drop every queued proposal; an entirely emptied record is pruned.
    pub fn clear_proposal_queue(&self, group_id: &[u8]) {
        let (mut map, handle) = self.group_states.acquire_write();
        map.clear_proposal_queue_for(group_id);
        handle.release_write(map);
    }

    /// Write the past-group-states payload of a group.
    pub fn write_past_group_states(&self, group_id: &[u8], past_group_states: Vec<u8>) {
        let (mut map, handle) = self.past_group_states.acquire_write();
        map.insert(group_id, past_group_states);
        handle.release_write(map);
    }

    /// Read the past-group-states payload of a group.
    pub fn read_past_group_states(&self, group_id: &[u8]) -> Option<Vec<u8>> {
        let read_handle = self.past_group_states.acquire_read();
        let r = match read_handle.borrow().get(group_id) {
            Some(v) => Some(clone_bytes(v)),
            None => None,
        };
        read_handle.release_read();
        r
    }

    /// Delete the past-group-states payload of a group.
    pub fn delete_past_group_states(&self, group_id: &[u8]) {
        let (mut map, handle) = self.past_group_states.acquire_write();
        map.remove(group_id);
        handle.release_write(map);
    }

    /// Write the current group-info payload of a group.
    pub fn write_group_info(&self, group_id: &[u8], group_info: Vec<u8>) {
        let (mut map, handle) = self.group_infos.acquire_write();
        map.insert(group_id, group_info);
        handle.release_write(map);
    }

    /// Read the current group-info payload of a group.
    pub fn read_group_info(&self, group_id: &[u8]) -> Option<Vec<u8>> {
        let read_handle = self.group_infos.acquire_read();
        let r = match read_handle.borrow().get(group_id) {
            Some(v) => Some(clone_bytes(v)),
            None => None,
        };
        read_handle.release_read();
        r
    }

    /// Delete the current group-info payload of a group.
    pub fn delete_group_info(&self, group_id: &[u8]) {
        let (mut map, handle) = self.group_infos.acquire_write();
        map.remove(group_id);
        handle.release_write(map);
    }

    /// Externalize all three maps into one combined byte blob. The encoding
    /// round-trips: `deserialize` of the blob succeeds and restores the maps
    /// entry for entry (see `serialize_store` and `deserialize_store`).
    pub fn serialize(&self) -> Vec<u8> {
        let gs_handle = self.group_states.acquire_read();
        let pgs_handle = self.past_group_states.acquire_read();
        let gi_handle = self.group_infos.acquire_read();
        let r = serialize_store(gs_handle.borrow(), pgs_handle.borrow(), gi_handle.borrow());
        gi_handle.release_read();
        pgs_handle.release_read();
        gs_handle.release_read();
        r
    }

    /// Restore a store from a combined byte blob produced by `serialize`.
    pub fn deserialize(serialized: &[u8]) -> Option<Self> {
        let (gs, pgs, gi) = match deserialize_store(serialized) {
            Some(x) => x,
            None => {
                return None;
            },
        };
        Some(
            Self {
                group_states: RwLock::new(gs, Ghost(GroupStatesPred {  })),
                past_group_states: RwLock::new(pgs, Ghost(BytesMapPred {  })),
                group_infos: RwLock::new(gi, Ghost(BytesMapPred {  })),
            },
        )
    }
}

/// The byte-string length fits the encoding's 8-byte count field.
pub open spec fn seq_len_ok(b: Seq<u8>) -> bool {
    b.len() <= u64::MAX
}

/// Every key, payload and the count of the pair list fit the count fields.
pub open spec fn pairs_enc_ok(l: Seq<(Vec<u8>, Vec<u8>)>) -> bool {
    &&& l.len() <= u64::MAX
    &&& forall|i: int|
        0 <= i < l.len() ==> seq_len_ok((#[trigger] l[i]).0@) && seq_len_ok(l[i].1@)
}

/// The pair map's encoding is faithful: counts and lengths fit their fields.
pub open spec fn bytes_map_enc_ok(m: BytesMap) -> bool {
    pairs_enc_ok(m.spec_entries())
}

/// The record's encoding is faithful.
pub open spec fn record_enc_ok(r: PublicGroupState) -> bool {
    &&& seq_len_ok(r.treesync@)
    &&& seq_len_ok(r.interim_transcript_hash@)
    &&& seq_len_ok(r.context@)
    &&& seq_len_ok(r.confirmation_tag@)
    &&& bytes_map_enc_ok(r.proposal_queue)
}

/// Every group id, record and the count of the record list fit their fields.
pub open spec fn record_pairs_enc_ok(l: Seq<(Vec<u8>, PublicGroupState)>) -> bool {
    &&& l.len() <= u64::MAX
    &&& forall|i: int|
        0 <= i < l.len() ==> seq_len_ok((#[trigger] l[i]).0@) && record_enc_ok(l[i].1)
}

/// The record map's encoding is faithful.
pub open spec fn record_map_enc_ok(g: GroupStateMap) -> bool {
    record_pairs_enc_ok(g.spec_entries())
}

/// Two pair lists hold the same keys and payloads, position by position.
pub open spec fn pairs_equiv(l1: Seq<(Vec<u8>, Vec<u8>)>, l2: Seq<(Vec<u8>, Vec<u8>)>) -> bool {
    &&& l1.len() == l2.len()
    &&& forall|i: int|
        0 <= i < l1.len() ==> (#[trigger] l1[i]).0@ == l2[i].0@ && l1[i].1@ == l2[i].1@
}

/// Two pair maps hold the same entries, position by position.
pub open spec fn bytes_map_equiv(m1: BytesMap, m2: BytesMap) -> bool {
    pairs_equiv(m1.spec_entries(), m2.spec_entries())
}

/// Two records hold the same field bytes and the same queued proposals.
pub open spec fn record_equiv(r1: PublicGroupState, r2: PublicGroupState) -> bool {
    &&& r1.treesync@ == r2.treesync@
    &&& r1.interim_transcript_hash@ == r2.interim_transcript_hash@
    &&& r1.context@ == r2.context@
    &&& r1.confirmation_tag@ == r2.confirmation_tag@
    &&& bytes_map_equiv(r1.proposal_queue, r2.proposal_queue)
}

/// Two record lists hold the same group ids and records, position by position.
pub open spec fn record_pairs_equiv(
    l1: Seq<(Vec<u8>, PublicGroupState)>,
    l2: Seq<(Vec<u8>, PublicGroupState)>,
) -> bool {
    &&& l1.len() == l2.len()
    &&& forall|i: int|
        0 <= i < l1.len() ==> (#[trigger] l1[i]).0@ == l2[i].0@ && record_equiv(l1[i].1, l2[i].1)
}

/// Two record maps hold the same entries, position by position.
pub open spec fn record_map_equiv(g1: GroupStateMap, g2: GroupStateMap) -> bool {
    record_pairs_equiv(g1.spec_entries(), g2.spec_entries())
}

proof fn lemma_enc_bytes_prefix(a: Seq<u8>, ra: Seq<u8>, b: Seq<u8>, rb: Seq<u8>)
    requires
        seq_len_ok(a),
        seq_len_ok(b),
        enc_bytes(a) + ra == enc_bytes(b) + rb,
    ensures
        a == b,
        ra == rb,
{
    vstd::bytes::lemma_auto_spec_u64_to_from_le_bytes();
    let s = enc_bytes(a) + ra;
    assert(vstd::bytes::spec_u64_to_le_bytes(a.len() as u64).len() == 8);
    assert(vstd::bytes::spec_u64_to_le_bytes(b.len() as u64).len() == 8);
    assert(vstd::bytes::spec_u64_to_le_bytes(a.len() as u64) =~= s.subrange(0, 8));
    assert(vstd::bytes::spec_u64_to_le_bytes(b.len() as u64) =~= (enc_bytes(b) + rb).subrange(
        0,
        8,
    ));
    assert(vstd::bytes::spec_u64_to_le_bytes(a.len() as u64) == vstd::bytes::spec_u64_to_le_bytes(
        b.len() as u64,
    ));
    assert(vstd::bytes::spec_u64_from_le_bytes(
        vstd::bytes::spec_u64_to_le_bytes(a.len() as u64),
    ) == a.len() as u64);
    assert(a.len() as u64 == b.len() as u64);
    assert(a.len() == b.len());
    assert(a =~= s.subrange(8, 8 + a.len() as int));
    assert(b =~= (enc_bytes(b) + rb).subrange(8, 8 + b.len() as int));
    assert(a == b);
    assert(ra =~= s.subrange(8 + a.len() as int, s.len() as int));
    assert(rb =~= (enc_bytes(b) + rb).subrange(8 + b.len() as int, s.len() as int));
    assert(ra == rb);
}


#[verifier::rlimit(50)]
proof fn lemma_enc_pairs_prefix(
    l1: Seq<(Vec<u8>, Vec<u8>)>,
    r1: Seq<u8>,
    l2: Seq<(Vec<u8>, Vec<u8>)>,
    r2: Seq<u8>,
)
    requires
        pairs_enc_ok(l1),
        pairs_enc_ok(l2),
        l1.len() == l2.len(),
        enc_pairs(l1) + r1 == enc_pairs(l2) + r2,
    ensures
        pairs_equiv(l1, l2),
        r1 == r2,
    decreases l1.len(),
{
    if l1.len() == 0 {
        assert(enc_pairs(l1) =~= Seq::<u8>::empty());
        assert(enc_pairs(l2) =~= Seq::<u8>::empty());
        assert(r1 =~= enc_pairs(l1) + r1);
        assert(r2 =~= enc_pairs(l2) + r2);
    } else {
        let k1 = l1[0].0@;
        let v1 = l1[0].1@;
        let d1 = l1.drop_first();
        let k2 = l2[0].0@;
        let v2 = l2[0].1@;
        let d2 = l2.drop_first();
        assert(enc_pairs(l1) == enc_bytes(k1) + enc_bytes(v1) + enc_pairs(d1));
        assert(enc_pairs(l2) == enc_bytes(k2) + enc_bytes(v2) + enc_pairs(d2));
        assert(enc_bytes(k1) + (enc_bytes(v1) + (enc_pairs(d1) + r1)) =~= enc_pairs(l1) + r1);
        assert(enc_bytes(k2) + (enc_bytes(v2) + (enc_pairs(d2) + r2)) =~= enc_pairs(l2) + r2);
        assert(seq_len_ok(k1) && seq_len_ok(v1) && seq_len_ok(k2) && seq_len_ok(v2));
        lemma_enc_bytes_prefix(
            k1,
            enc_bytes(v1) + (enc_pairs(d1) + r1),
            k2,
            enc_bytes(v2) + (enc_pairs(d2) + r2),
        );
        lemma_enc_bytes_prefix(v1, enc_pairs(d1) + r1, v2, enc_pairs(d2) + r2);
        assert(pairs_enc_ok(d1)) by {
            assert forall|i: int|
                0 <= i < d1.len() implies seq_len_ok((#[trigger] d1[i]).0@) && seq_len_ok(
                d1[i].1@,
            ) by {
                assert(d1[i] == l1[i + 1]);
            }
        }
        assert(pairs_enc_ok(d2)) by {
            assert forall|i: int|
                0 <= i < d2.len() implies seq_len_ok((#[trigger] d2[i]).0@) && seq_len_ok(
                d2[i].1@,
            ) by {
                assert(d2[i] == l2[i + 1]);
            }
        }
        lemma_enc_pairs_prefix(d1, r1, d2, r2);
        assert forall|i: int|
            0 <= i < l1.len() implies (#[trigger] l1[i]).0@ == l2[i].0@ && l1[i].1@
            == l2[i].1@ by {
            if i > 0 {
                assert(d1[i - 1] == l1[i]);
                assert(d2[i - 1] == l2[i]);
                assert(d1[i - 1].0@ == d2[i - 1].0@ && d1[i - 1].1@ == d2[i - 1].1@);
            }
        }
    }
}

proof fn lemma_enc_bytes_map_prefix(m1: BytesMap, r1: Seq<u8>, m2: BytesMap, r2: Seq<u8>)
    requires
        bytes_map_enc_ok(m1),
        bytes_map_enc_ok(m2),
        enc_bytes_map(m1) + r1 == enc_bytes_map(m2) + r2,
    ensures
        bytes_map_equiv(m1, m2),
        r1 == r2,
{
    vstd::bytes::lemma_auto_spec_u64_to_from_le_bytes();
    let c1 = vstd::bytes::spec_u64_to_le_bytes(m1.spec_len() as u64);
    let c2 = vstd::bytes::spec_u64_to_le_bytes(m2.spec_len() as u64);
    let s = enc_bytes_map(m1) + r1;
    assert(c1.len() == 8 && c2.len() == 8);
    assert(c1 =~= s.subrange(0, 8));
    assert(c2 =~= (enc_bytes_map(m2) + r2).subrange(0, 8));
    assert(c1 == c2);
    assert(m1.spec_len() as u64 == m2.spec_len() as u64);
    assert(m1.spec_len() == m2.spec_len());
    assert(m1.spec_entries().len() == m2.spec_entries().len());
    assert(c1 + (enc_pairs(m1.spec_entries()) + r1) =~= enc_bytes_map(m1) + r1);
    assert(c2 + (enc_pairs(m2.spec_entries()) + r2) =~= enc_bytes_map(m2) + r2);
    assert(enc_pairs(m1.spec_entries()) + r1 =~= (c1 + (enc_pairs(m1.spec_entries())
        + r1)).subrange(8, s.len() as int));
    assert(enc_pairs(m2.spec_entries()) + r2 =~= (c2 + (enc_pairs(m2.spec_entries())
        + r2)).subrange(8, s.len() as int));
    lemma_enc_pairs_prefix(m1.spec_entries(), r1, m2.spec_entries(), r2);
}


#[verifier::rlimit(50)]
proof fn lemma_enc_record_prefix(
    rec1: PublicGroupState,
    r1: Seq<u8>,
    rec2: PublicGroupState,
    r2: Seq<u8>,
)
    requires
        record_enc_ok(rec1),
        record_enc_ok(rec2),
        enc_record(rec1) + r1 == enc_record(rec2) + r2,
    ensures
        record_equiv(rec1, rec2),
        r1 == r2,
{
    let t1 = rec1.treesync@;
    let h1 = rec1.interim_transcript_hash@;
    let c1 = rec1.context@;
    let g1 = rec1.confirmation_tag@;
    let q1 = rec1.proposal_queue;
    let t2 = rec2.treesync@;
    let h2 = rec2.interim_transcript_hash@;
    let c2 = rec2.context@;
    let g2 = rec2.confirmation_tag@;
    let q2 = rec2.proposal_queue;
    assert(enc_bytes(t1) + (enc_bytes(h1) + (enc_bytes(c1) + (enc_bytes(g1) + (enc_bytes_map(q1)
        + r1)))) =~= enc_record(rec1) + r1);
    assert(enc_bytes(t2) + (enc_bytes(h2) + (enc_bytes(c2) + (enc_bytes(g2) + (enc_bytes_map(q2)
        + r2)))) =~= enc_record(rec2) + r2);
    lemma_enc_bytes_prefix(
        t1,
        enc_bytes(h1) + (enc_bytes(c1) + (enc_bytes(g1) + (enc_bytes_map(q1) + r1))),
        t2,
        enc_bytes(h2) + (enc_bytes(c2) + (enc_bytes(g2) + (enc_bytes_map(q2) + r2))),
    );
    lemma_enc_bytes_prefix(
        h1,
        enc_bytes(c1) + (enc_bytes(g1) + (enc_bytes_map(q1) + r1)),
        h2,
        enc_bytes(c2) + (enc_bytes(g2) + (enc_bytes_map(q2) + r2)),
    );
    lemma_enc_bytes_prefix(
        c1,
        enc_bytes(g1) + (enc_bytes_map(q1) + r1),
        c2,
        enc_bytes(g2) + (enc_bytes_map(q2) + r2),
    );
    lemma_enc_bytes_prefix(g1, enc_bytes_map(q1) + r1, g2, enc_bytes_map(q2) + r2);
    lemma_enc_bytes_map_prefix(q1, r1, q2, r2);
}

#[verifier::rlimit(50)]
proof fn lemma_enc_record_pairs_prefix(
    l1: Seq<(Vec<u8>, PublicGroupState)>,
    r1: Seq<u8>,
    l2: Seq<(Vec<u8>, PublicGroupState)>,
    r2: Seq<u8>,
)
    requires
        record_pairs_enc_ok(l1),
        record_pairs_enc_ok(l2),
        l1.len() == l2.len(),
        enc_record_pairs(l1) + r1 == enc_record_pairs(l2) + r2,
    ensures
        record_pairs_equiv(l1, l2),
        r1 == r2,
    decreases l1.len(),
{
    if l1.len() == 0 {
        assert(enc_record_pairs(l1) =~= Seq::<u8>::empty());
        assert(enc_record_pairs(l2) =~= Seq::<u8>::empty());
        assert(r1 =~= enc_record_pairs(l1) + r1);
        assert(r2 =~= enc_record_pairs(l2) + r2);
    } else {
        let k1 = l1[0].0@;
        let rec1 = l1[0].1;
        let d1 = l1.drop_first();
        let k2 = l2[0].0@;
        let rec2 = l2[0].1;
        let d2 = l2.drop_first();
        assert(enc_record_pairs(l1) == enc_bytes(k1) + enc_record(rec1) + enc_record_pairs(d1));
        assert(enc_record_pairs(l2) == enc_bytes(k2) + enc_record(rec2) + enc_record_pairs(d2));
        assert(enc_bytes(k1) + (enc_record(rec1) + (enc_record_pairs(d1) + r1))
            =~= enc_record_pairs(l1) + r1);
        assert(enc_bytes(k2) + (enc_record(rec2) + (enc_record_pairs(d2) + r2))
            =~= enc_record_pairs(l2) + r2);
        lemma_enc_bytes_prefix(
            k1,
            enc_record(rec1) + (enc_record_pairs(d1) + r1),
            k2,
            enc_record(rec2) + (enc_record_pairs(d2) + r2),
        );
        lemma_enc_record_prefix(rec1, enc_record_pairs(d1) + r1, rec2, enc_record_pairs(d2) + r2);
        assert(record_pairs_enc_ok(d1)) by {
            assert forall|i: int|
                0 <= i < d1.len() implies seq_len_ok((#[trigger] d1[i]).0@) && record_enc_ok(
                d1[i].1,
            ) by {
                assert(d1[i] == l1[i + 1]);
            }
        }
        assert(record_pairs_enc_ok(d2)) by {
            assert forall|i: int|
                0 <= i < d2.len() implies seq_len_ok((#[trigger] d2[i]).0@) && record_enc_ok(
                d2[i].1,
            ) by {
                assert(d2[i] == l2[i + 1]);
            }
        }
        lemma_enc_record_pairs_prefix(d1, r1, d2, r2);
        assert forall|i: int|
            0 <= i < l1.len() implies (#[trigger] l1[i]).0@ == l2[i].0@ && record_equiv(
            l1[i].1,
            l2[i].1,
        ) by {
            if i > 0 {
                assert(d1[i - 1] == l1[i]);
                assert(d2[i - 1] == l2[i]);
                assert(d1[i - 1].0@ == d2[i - 1].0@ && record_equiv(d1[i - 1].1, d2[i - 1].1));
            }
        }
    }
}

proof fn lemma_enc_record_map_prefix(g1: GroupStateMap, r1: Seq<u8>, g2: GroupStateMap, r2: Seq<u8>)
    requires
        record_map_enc_ok(g1),
        record_map_enc_ok(g2),
        enc_record_map(g1) + r1 == enc_record_map(g2) + r2,
    ensures
        record_map_equiv(g1, g2),
        r1 == r2,
{
    vstd::bytes::lemma_auto_spec_u64_to_from_le_bytes();
    let c1 = vstd::bytes::spec_u64_to_le_bytes(g1.spec_len() as u64);
    let c2 = vstd::bytes::spec_u64_to_le_bytes(g2.spec_len() as u64);
    let s = enc_record_map(g1) + r1;
    assert(c1.len() == 8 && c2.len() == 8);
    assert(c1 =~= s.subrange(0, 8));
    assert(c2 =~= (enc_record_map(g2) + r2).subrange(0, 8));
    assert(c1 == c2);
    assert(g1.spec_len() as u64 == g2.spec_len() as u64);
    assert(g1.spec_len() == g2.spec_len());
    assert(g1.spec_entries().len() == g2.spec_entries().len());
    assert(c1 + (enc_record_pairs(g1.spec_entries()) + r1) =~= enc_record_map(g1) + r1);
    assert(c2 + (enc_record_pairs(g2.spec_entries()) + r2) =~= enc_record_map(g2) + r2);
    assert(enc_record_pairs(g1.spec_entries()) + r1 =~= (c1 + (enc_record_pairs(g1.spec_entries())
        + r1)).subrange(8, s.len() as int));
    assert(enc_record_pairs(g2.spec_entries()) + r2 =~= (c2 + (enc_record_pairs(g2.spec_entries())
        + r2)).subrange(8, s.len() as int));
    lemma_enc_record_pairs_prefix(g1.spec_entries(), r1, g2.spec_entries(), r2);
}

/// Law: the bulk export encoding is injective. Two stores with the same
/// encoding hold the same entries, position by position, in all three maps.
/// Together with `serialize_store`'s exact-encoding contract and
/// `deserialize_store`'s re-encoding contract, a successful import of an
/// export holds entry for entry the maps that were exported.
pub proof fn lemma_enc_store_injective(
    gs1: GroupStateMap,
    pgs1: BytesMap,
    gi1: BytesMap,
    gs2: GroupStateMap,
    pgs2: BytesMap,
    gi2: BytesMap,
)
    requires
        record_map_enc_ok(gs1),
        bytes_map_enc_ok(pgs1),
        bytes_map_enc_ok(gi1),
        record_map_enc_ok(gs2),
        bytes_map_enc_ok(pgs2),
        bytes_map_enc_ok(gi2),
        enc_store(gs1, pgs1, gi1) == enc_store(gs2, pgs2, gi2),
    ensures
        record_map_equiv(gs1, gs2),
        bytes_map_equiv(pgs1, pgs2),
        bytes_map_equiv(gi1, gi2),
{
    assert(enc_record_map(gs1) + (enc_bytes_map(pgs1) + enc_bytes_map(gi1)) =~= enc_store(
        gs1,
        pgs1,
        gi1,
    ));
    assert(enc_record_map(gs2) + (enc_bytes_map(pgs2) + enc_bytes_map(gi2)) =~= enc_store(
        gs2,
        pgs2,
        gi2,
    ));
    lemma_enc_record_map_prefix(
        gs1,
        enc_bytes_map(pgs1) + enc_bytes_map(gi1),
        gs2,
        enc_bytes_map(pgs2) + enc_bytes_map(gi2),
    );
    lemma_enc_bytes_map_prefix(pgs1, enc_bytes_map(gi1), pgs2, enc_bytes_map(gi2));
    lemma_enc_bytes_map_prefix(gi1, Seq::<u8>::empty(), gi2, Seq::<u8>::empty());
    assert(enc_bytes_map(gi1) + Seq::<u8>::empty() =~= enc_bytes_map(gi1));
    assert(enc_bytes_map(gi2) + Seq::<u8>::empty() =~= enc_bytes_map(gi2));
}

} // verus!
