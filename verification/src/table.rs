//! The reassembly table: a mapping from message id to the partially
//! collected chunked message under that id, with age-based eviction.
//!
//! The table is keyed by the 64-bit message id; ids are unique across
//! entries. Entries are held in a plain vector, in insertion order, and
//! eviction keeps the surviving entries in that order.

use vstd::prelude::*;

use crate::gelf::{GelfChunkedMessage, GelfPacket};

verus! {

/// The well-formedness of a sequence of table entries: ids are pairwise
/// distinct and every entry is itself well-formed.
pub open spec fn table_entries_ok(s: Seq<GelfChunkedMessage>) -> bool {
    &&& forall|i: int, j: int| 0 <= i < j < s.len() ==> s[i].id != s[j].id
    &&& forall|i: int| 0 <= i < s.len() ==> (#[trigger] s[i]).wf()
}

/// Removing one element from a sequence of well-formed table entries
/// leaves a sequence of well-formed table entries.
proof fn lemma_remove_middle_keeps_ok(
    a: Seq<GelfChunkedMessage>,
    e: GelfChunkedMessage,
    b: Seq<GelfChunkedMessage>,
)
    requires
        table_entries_ok(a + seq![e] + b),
    ensures
        table_entries_ok(a + b),
{
    let s = a + seq![e] + b;
    let t = a + b;
    assert forall|i: int| 0 <= i < t.len() implies (#[trigger] t[i]).wf() by {
        if i < a.len() {
            assert(t[i] == s[i]);
        } else {
            assert(t[i] == s[i + 1]);
        }
    }
    assert forall|i: int, j: int| 0 <= i < j < t.len() implies t[i].id != t[j].id by {
        let si = if i < a.len() { i } else { i + 1 };
        let sj = if j < a.len() { j } else { j + 1 };
        assert(t[i] == s[si]);
        assert(t[j] == s[sj]);
    }
}

/// The predicate on which eviction keeps an entry: its first chunk
/// arrived strictly after the threshold instant.
pub open spec fn spec_kept_after(threshold: i64) -> spec_fn(GelfChunkedMessage) -> bool {
    |m: GelfChunkedMessage| m.arrival_time > threshold
}

/// An in-memory index of partial chunked messages awaiting completion.
pub struct ReassemblyTable {
    pub entries: Vec<GelfChunkedMessage>,
}

impl ReassemblyTable {
    /// Table invariant: entry ids are pairwise distinct and every entry
    /// is well-formed.
    pub open spec fn wf(&self) -> bool {
        table_entries_ok(self.entries@)
    }

    /// Whether an entry with this id is present.
    pub open spec fn spec_has_entry(&self, id: u64) -> bool {
        exists|i: int| 0 <= i < self.entries@.len() && (#[trigger] self.entries@[i]).id == id
    }

    /// The index of the entry with this id.
    pub open spec fn spec_entry_index(&self, id: u64) -> int {
        choose|i: int| 0 <= i < self.entries@.len() && (#[trigger] self.entries@[i]).id == id
    }

    /// The entry with this id.
    pub open spec fn spec_entry_for(&self, id: u64) -> GelfChunkedMessage {
        self.entries@[self.spec_entry_index(id)]
    }

    /// In a well-formed table, the entry index of the id held at position
    /// `i` is `i` itself.
    pub proof fn lemma_entry_index(&self, i: int)
        requires
            self.wf(),
            0 <= i < self.entries@.len(),
        ensures
            self.spec_has_entry(self.entries@[i].id),
            self.spec_entry_index(self.entries@[i].id) == i,
            self.spec_entry_for(self.entries@[i].id) == self.entries@[i],
    {
        let id = self.entries@[i].id;
        assert(0 <= i < self.entries@.len() && self.entries@[i].id == id);
        let k = self.spec_entry_index(id);
        assert(0 <= k < self.entries@.len() && self.entries@[k].id == id);
        if k < i {
            assert(self.entries@[k].id != self.entries@[i].id);
        } else if i < k {
            assert(self.entries@[i].id != self.entries@[k].id);
        }
    }

    pub fn new() -> (r: ReassemblyTable)
        ensures
            r.wf(),
            r.entries@.len() == 0,
    {
        ReassemblyTable { entries: Vec::new() }
    }

    /// The number of partial messages currently held.
    pub fn len(&self) -> (r: usize)
        ensures
            r == self.entries@.len(),
    {
        self.entries.len()
    }

    fn find_index(&self, id: u64) -> (r: Option<usize>)
        ensures
            match r {
                Some(i) => i < self.entries@.len() && self.entries@[i as int].id == id
                    && self.spec_has_entry(id),
                None => !self.spec_has_entry(id),
            },
    {
        let n = self.entries.len();
        for i in 0..n
            invariant
                n == self.entries@.len(),
                forall|j: int| 0 <= j < i ==> (#[trigger] self.entries@[j]).id != id,
        {
            if self.entries[i].id == id {
                return Some(i);
            }
        }
        None
    }

    /// Whether an entry with this id is present.
    pub fn has_entry(&self, id: u64) -> (r: bool)
        ensures
            r == self.spec_has_entry(id),
    {
        self.find_index(id).is_some()
    }

    /// Place a fresh partial message under its id. The caller must have
    /// checked that no entry with that id exists.
    pub fn insert_first(&mut self, msg: GelfChunkedMessage)
        requires
            old(self).wf(),
            !old(self).spec_has_entry(msg.id),
            msg.wf(),
        ensures
            final(self).wf(),
            final(self).entries@ == old(self).entries@.push(msg),
            final(self).spec_has_entry(msg.id),
            final(self).spec_entry_for(msg.id) == msg,
            forall|id: u64|
                id != msg.id ==> #[trigger] final(self).spec_has_entry(id) == old(self).spec_has_entry(id),
            forall|id: u64|
                id != msg.id && old(self).spec_has_entry(id) ==> #[trigger] final(self).spec_entry_for(id) == old(self).spec_entry_for(id),
    {
        self.entries.push(msg);
        proof {
            let s0 = old(self).entries@;
            let s1 = self.entries@;
            assert forall|i: int, j: int| 0 <= i < j < s1.len() implies s1[i].id != s1[j].id by {
                if j == s1.len() - 1 {
                    assert(s1[i] == s0[i]);
                    if s1[i].id == msg.id {
                        assert(old(self).spec_has_entry(msg.id));
                    }
                } else {
                    assert(s1[i] == s0[i] && s1[j] == s0[j]);
                }
            }
            assert forall|i: int| 0 <= i < s1.len() implies (#[trigger] s1[i]).wf() by {
                if i < s0.len() {
                    assert(s1[i] == s0[i]);
                }
            }
            self.lemma_entry_index(s1.len() - 1);
            assert forall|id: u64| id != msg.id implies #[trigger] self.spec_has_entry(id) == old(
                self,
            ).spec_has_entry(id) by {
                if old(self).spec_has_entry(id) {
                    let i = old(self).spec_entry_index(id);
                    assert(s1[i].id == id);
                    assert(self.spec_has_entry(id));
                }
                if self.spec_has_entry(id) {
                    let k = self.spec_entry_index(id);
                    assert(0 <= k < s1.len() && s1[k].id == id);
                    assert(k < s0.len());
                    assert(s0[k].id == id);
                    assert(old(self).spec_has_entry(id));
                }
            }
            assert forall|id: u64| id != msg.id && old(self).spec_has_entry(id) implies (
            #[trigger] self.spec_entry_for(id)) == old(self).spec_entry_for(id) by {
                let i = old(self).spec_entry_index(id);
                assert(0 <= i < s0.len() && s0[i].id == id);
                old(self).lemma_entry_index(i);
                assert(s1[i] == s0[i]);
                self.lemma_entry_index(i);
            }
        }
    }

    /// Add a chunk to the existing entry under `id`; the chunk must carry
    /// that id. Returns whether the entry is complete after the append,
    /// that is, whether it now holds at least as many chunks as its first
    /// chunk declared.
    pub fn append_chunk(&mut self, id: u64, chunk: GelfPacket) -> (complete: bool)
        requires
            old(self).wf(),
            old(self).spec_has_entry(id),
            chunk.message_id == id,
        ensures
            final(self).wf(),
            final(self).spec_has_entry(id),
            final(self).entries@ == old(self).entries@.update(
                old(self).spec_entry_index(id),
                final(self).spec_entry_for(id),
            ),
            final(self).spec_entry_for(id).chunks@ == old(self).spec_entry_for(
                id,
            ).chunks@.push(chunk),
            final(self).spec_entry_for(id).id == old(self).spec_entry_for(id).id,
            final(self).spec_entry_for(id).arrival_time == old(self).spec_entry_for(
                id,
            ).arrival_time,
            final(self).spec_entry_for(id).expected_max_chunks == old(self).spec_entry_for(
                id,
            ).expected_max_chunks,
            complete == final(self).spec_entry_for(id).spec_is_complete(),
            forall|o: u64|
                o != id ==> #[trigger] final(self).spec_has_entry(o) == old(self).spec_has_entry(
                    o,
                ),
            forall|o: u64|
                o != id && old(self).spec_has_entry(o) ==> #[trigger] final(self).spec_entry_for(o) == old(self).spec_entry_for(o),
    {
        let idx = match self.find_index(id) {
            Some(i) => i,
            None => {
                proof {
                    assert(false);
                }
                0
            },
        };
        let ghost old_idx = old(self).spec_entry_index(id);
        proof {
            assert(self.entries@[old_idx].id == id);
            assert(old_idx == idx);
        }
        self.entries[idx].chunks.push(chunk);
        let complete = self.entries[idx].is_complete();
        proof {
            let s0 = old(self).entries@;
            let s1 = self.entries@;
            let e1 = s1[idx as int];
            assert(s1 =~= s0.update(idx as int, e1));
            assert(e1.id == id);
            assert forall|i: int, j: int| 0 <= i < j < s1.len() implies s1[i].id != s1[j].id by {
                assert(s1[i].id == s0[i].id && s1[j].id == s0[j].id);
            }
            assert forall|i: int| 0 <= i < s1.len() implies (#[trigger] s1[i]).wf() by {
                if i != idx {
                    assert(s1[i] == s0[i]);
                } else {
                    assert forall|c: int| 0 <= c < e1.chunks@.len() implies e1.chunks@[c].message_id
                        == e1.id by {
                        if c < e1.chunks@.len() - 1 {
                            assert(e1.chunks@[c] == s0[idx as int].chunks@[c]);
                        }
                    }
                }
            }
            self.lemma_entry_index(idx as int);
            old(self).lemma_entry_index(idx as int);
            assert forall|o: u64| o != id implies #[trigger] self.spec_has_entry(o) == old(
                self,
            ).spec_has_entry(o) by {
                if old(self).spec_has_entry(o) {
                    let i = old(self).spec_entry_index(o);
                    assert(s0[i].id == o);
                    assert(s1[i].id == o);
                }
                if self.spec_has_entry(o) {
                    let m = self.spec_entry_index(o);
                    assert(s1[m].id == o);
                    assert(s0[m].id == o);
                }
            }
            assert forall|o: u64| o != id && old(self).spec_has_entry(o) implies (
            #[trigger] self.spec_entry_for(o)) == old(self).spec_entry_for(o) by {
                let i = old(self).spec_entry_index(o);
                assert(0 <= i < s0.len() && s0[i].id == o);
                old(self).lemma_entry_index(i);
                assert(i != idx);
                assert(s1[i] == s0[i]);
                self.lemma_entry_index(i);
            }
        }
        complete
    }

    /// Take the entry under `id` out of the table and return it.
    pub fn remove(&mut self, id: u64) -> (r: GelfChunkedMessage)
        requires
            old(self).wf(),
            old(self).spec_has_entry(id),
        ensures
            final(self).wf(),
            r == old(self).spec_entry_for(id),
            final(self).entries@ == old(self).entries@.remove(old(self).spec_entry_index(id)),
            !final(self).spec_has_entry(id),
            forall|o: u64|
                o != id ==> #[trigger] final(self).spec_has_entry(o) == old(self).spec_has_entry(
                    o,
                ),
            forall|o: u64|
                o != id && old(self).spec_has_entry(o) ==> #[trigger] final(self).spec_entry_for(o) == old(self).spec_entry_for(o),
    {
        let idx = match self.find_index(id) {
            Some(i) => i,
            None => {
                proof {
                    assert(false);
                }
                0
            },
        };
        proof {
            let old_idx = old(self).spec_entry_index(id);
            assert(self.entries@[old_idx].id == id);
            assert(old_idx == idx);
        }
        let r = self.entries.remove(idx);
        proof {
            let s0 = old(self).entries@;
            let s1 = self.entries@;
            assert(s0 =~= s0.subrange(0, idx as int) + seq![s0[idx as int]] + s0.subrange(
                idx + 1,
                s0.len() as int,
            ));
            assert(s1 =~= s0.subrange(0, idx as int) + s0.subrange(idx + 1, s0.len() as int));
            lemma_remove_middle_keeps_ok(
                s0.subrange(0, idx as int),
                s0[idx as int],
                s0.subrange(idx + 1, s0.len() as int),
            );
            assert forall|i: int| 0 <= i < s1.len() implies s1[i].id != id by {
                if i < idx {
                    assert(s1[i] == s0[i]);
                } else {
                    assert(s1[i] == s0[i + 1]);
                }
            }
            assert forall|o: u64| o != id implies #[trigger] self.spec_has_entry(o) == old(
                self,
            ).spec_has_entry(o) by {
                if old(self).spec_has_entry(o) {
                    let i = old(self).spec_entry_index(o);
                    assert(0 <= i < s0.len() && s0[i].id == o);
                    old(self).lemma_entry_index(i);
                    assert(i != idx);
                    let i1 = if i < idx { i } else { i - 1 };
                    assert(s1[i1] == s0[i]);
                    assert(s1[i1].id == o);
                }
                if self.spec_has_entry(o) {
                    let m = self.spec_entry_index(o);
                    assert(0 <= m < s1.len() && s1[m].id == o);
                    let i = if m < idx { m } else { m + 1 };
                    assert(s0[i] == s1[m]);
                    assert(s0[i].id == o);
                }
            }
            assert forall|o: u64| o != id && old(self).spec_has_entry(o) implies (
            #[trigger] self.spec_entry_for(o)) == old(self).spec_entry_for(o) by {
                let i = old(self).spec_entry_index(o);
                assert(0 <= i < s0.len() && s0[i].id == o);
                old(self).lemma_entry_index(i);
                assert(i != idx);
                let i1 = if i < idx { i } else { i - 1 };
                assert(s1[i1] == s0[i]);
                assert(s1[i1].id == o);
                self.lemma_entry_index(i1);
            }
        }
        r
    }

    /// Drop every entry whose first chunk arrived at or before the
    /// threshold instant, keeping the rest in order; returns the number
    /// of entries dropped.
    pub fn evict_older_than(&mut self, threshold: i64) -> (removed: usize)
        requires
            old(self).wf(),
        ensures
            final(self).wf(),
            final(self).entries@ == old(self).entries@.filter(spec_kept_after(threshold)),
            removed == old(self).entries@.len() - final(self).entries@.len(),
    {
        let ghost s0 = self.entries@;
                let before = self.entries.len();
        let mut kept: Vec<GelfChunkedMessage> = Vec::new();
        proof {
            reveal(Seq::filter);
        }
        while self.entries.len() > 0
            invariant
                table_entries_ok(self.entries@ + kept@),
                s0.filter(spec_kept_after(threshold)) =~= self.entries@.filter(spec_kept_after(threshold)) + kept@,
            decreases self.entries@.len(),
        {
            let ghost sc = self.entries@;
            let ghost kept0 = kept@;
            let e = match self.entries.pop() {
                Some(e) => e,
                None => {
                    proof {
                        assert(false);
                    }
                    vstd::pervasive::unreached()
                },
            };
            if e.arrival_time > threshold {
                kept.insert(0, e);
                proof {
                    reveal(Seq::filter);
                    assert(sc.drop_last() =~= self.entries@);
                    assert(spec_kept_after(threshold)(e));
                    assert(sc.filter(spec_kept_after(threshold)) == self.entries@.filter(spec_kept_after(threshold)).push(e));
                    assert(kept@ =~= seq![e] + kept0);
                    assert(self.entries@ + kept@ =~= sc + kept0);
                    assert(self.entries@.filter(spec_kept_after(threshold)).push(e) + kept0 =~= self.entries@.filter(spec_kept_after(threshold)) + kept@);
                    assert(s0.filter(spec_kept_after(threshold)) =~= self.entries@.filter(spec_kept_after(threshold)) + kept@);
                }
            } else {
                proof {
                    reveal(Seq::filter);
                    assert(sc.drop_last() =~= self.entries@);
                    assert(!spec_kept_after(threshold)(e));
                    assert(sc.filter(spec_kept_after(threshold)) == self.entries@.filter(spec_kept_after(threshold)));
                    assert(sc + kept@ =~= self.entries@ + seq![e] + kept@);
                    lemma_remove_middle_keeps_ok(self.entries@, e, kept@);
                    assert(s0.filter(spec_kept_after(threshold)) =~= self.entries@.filter(spec_kept_after(threshold)) + kept@);
                }
            }
        }
        proof {
            reveal(Seq::filter);
            assert(self.entries@ + kept@ =~= kept@);
            assert(self.entries@.filter(spec_kept_after(threshold)) =~= Seq::<GelfChunkedMessage>::empty());
            assert(s0.filter(spec_kept_after(threshold)) =~= kept@);
        }
        let after = kept.len();
        self.entries = kept;
        proof {
            s0.lemma_filter_len(spec_kept_after(threshold));
        }
        before - after
    }
}

} // verus!
