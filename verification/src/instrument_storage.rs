//! The instrument registry: the set of instruments the engine has seen,
//! plus a write-behind queue of those still pending a durable insert.
//! Durable rows live under one fixed partition, keyed by the instrument id.

use vstd::prelude::*;

use crate::split::str_eq;

verus! {

/// The name of the registry's durable table.
pub fn table_name() -> (r: &'static str)
    ensures
        r@ == ("instrumentstorage")@,
{
    "instrumentstorage"
}

/// The fixed partition key of every registry row.
pub fn partition_key() -> (r: &'static str)
    ensures
        r@ == ("INSTRUMENTSTORAGE")@,
{
    "INSTRUMENTSTORAGE"
}

/// One durable registry row: the fixed partition key and the instrument id
/// as the row key.
#[derive(Clone, Debug)]
pub struct InstrumentStorageEntity {
    pub partition_key: String,
    pub instrument: String,
}

/// No two strings of the sequence read the same.
pub open spec fn strs_unique(s: Seq<String>) -> bool {
    forall|i: int, j: int| 0 <= i < j < s.len() ==> (#[trigger] s[i])@ != (#[trigger] s[j])@
}

/// Some string of the sequence reads `id`.
pub open spec fn contains_str(s: Seq<String>, id: Seq<char>) -> bool {
    exists|i: int| 0 <= i < s.len() && (#[trigger] s[i])@ == id
}

/// The registry: the known instruments and the queue of ids not yet
/// durably written.
pub struct InstrumentStorage {
    pub instruments: Vec<String>,
    pub persist_queue: Vec<String>,
}

impl InstrumentStorage {
    /// The known instruments name no instrument twice.
    pub open spec fn wf(self) -> bool {
        strs_unique(self.instruments@)
    }

    /// An empty registry.
    pub fn new() -> (r: InstrumentStorage)
        ensures
            r.wf(),
            r.instruments@.len() == 0,
            r.persist_queue@.len() == 0,
    {
        InstrumentStorage { instruments: Vec::new(), persist_queue: Vec::new() }
    }

    /// Whether the instrument is already known.
    pub fn contains(&self, instrument: &str) -> (r: bool)
        ensures
            r == contains_str(self.instruments@, instrument@),
    {
        let mut i: usize = 0;
        while i < self.instruments.len()
            invariant
                0 <= i <= self.instruments@.len(),
                forall|j: int| 0 <= j < i ==> (#[trigger] self.instruments@[j])@ != instrument@,
            decreases self.instruments@.len() - i,
        {
            if str_eq(self.instruments[i].as_str(), instrument) {
                return true;
            }
            i = i + 1;
        }
        false
    }

    /// Registers an instrument: a known id changes nothing; a fresh one
    /// joins the set and the write-behind queue.
    pub fn add(&mut self, instrument: String)
        requires
            old(self).wf(),
        ensures
            final(self).wf(),
            contains_str(old(self).instruments@, instrument@) ==> *final(self) == *old(self),
            !contains_str(old(self).instruments@, instrument@) ==> final(self).instruments@ == old(
                self,
            ).instruments@.push(instrument) && final(self).persist_queue@ == old(
                self,
            ).persist_queue@.push(instrument),
            contains_str(final(self).instruments@, instrument@),
    {
        if self.contains(instrument.as_str()) {
            return ;
        }
        let ghost pre = self.instruments@;
        self.persist_queue.push(instrument.clone());
        self.instruments.push(instrument);
        proof {
            assert(self.instruments@.last()@ == self.instruments@[self.instruments@.len() - 1]@);
            assert forall|x: int, y: int|
                0 <= x < y < self.instruments@.len() implies (#[trigger] self.instruments@[x])@
                != (#[trigger] self.instruments@[y])@ by {
                if y < self.instruments@.len() - 1 {
                    assert(pre[x]@ != pre[y]@);
                } else {
                    assert(self.instruments@[x] == pre[x]);
                }
            }
        }
    }

    /// Drains the write-behind queue, newest first, into the durable rows
    /// an upsert pass must write.  The known set stays as it is.
    pub fn take_pending(&mut self) -> (r: Vec<InstrumentStorageEntity>)
        ensures
            final(self).instruments == old(self).instruments,
            final(self).persist_queue@.len() == 0,
            r@.len() == old(self).persist_queue@.len(),
            forall|i: int|
                0 <= i < r@.len() ==> (#[trigger] r@[i]).partition_key@ == (
                "INSTRUMENTSTORAGE")@ && r@[i].instrument@ == old(self).persist_queue@[old(
                    self,
                ).persist_queue@.len() - 1 - i]@,
    {
        let ghost q = self.persist_queue@;
        let mut r: Vec<InstrumentStorageEntity> = Vec::new();
        loop
            invariant
                r@.len() + self.persist_queue@.len() == q.len(),
                self.persist_queue@ == q.subrange(0, self.persist_queue@.len() as int),
                self.instruments == old(self).instruments,
                forall|i: int|
                    0 <= i < r@.len() ==> (#[trigger] r@[i]).partition_key@ == (
                    "INSTRUMENTSTORAGE")@ && r@[i].instrument@ == q[q.len() - 1 - i]@,
            ensures
                self.persist_queue@.len() == 0,
                self.instruments == old(self).instruments,
                r@.len() == q.len(),
                forall|i: int|
                    0 <= i < r@.len() ==> (#[trigger] r@[i]).partition_key@ == (
                    "INSTRUMENTSTORAGE")@ && r@[i].instrument@ == q[q.len() - 1 - i]@,
            decreases self.persist_queue@.len(),
        {
            let ghost cur = self.persist_queue@;
            match self.persist_queue.pop() {
                Some(instrument) => {
                    proof {
                        assert(instrument == cur[cur.len() - 1]);
                        assert(cur[cur.len() - 1] == q[cur.len() - 1]);
                        assert(self.persist_queue@ =~= q.subrange(
                            0,
                            self.persist_queue@.len() as int,
                        ));
                    }
                    let entity = InstrumentStorageEntity {
                        partition_key: partition_key().to_owned(),
                        instrument,
                    };
                    r.push(entity);
                },
                None => {
                    break ;
                },
            }
        }
        r
    }

    /// Absorbs instrument ids read back from the durable table: every id
    /// becomes known, nothing already known is lost, and nothing else
    /// appears.  Restored ids are not queued for writing back.
    pub fn absorb_restored(&mut self, ids: Vec<String>)
        requires
            old(self).wf(),
        ensures
            final(self).wf(),
            final(self).persist_queue == old(self).persist_queue,
            forall|j: int|
                0 <= j < ids@.len() ==> contains_str(
                    final(self).instruments@,
                    (#[trigger] ids@[j])@,
                ),
            forall|id: Seq<char>|
                contains_str(old(self).instruments@, id) ==> contains_str(
                    final(self).instruments@,
                    id,
                ),
            forall|id: Seq<char>|
                #[trigger] contains_str(final(self).instruments@, id) ==> contains_str(
                    old(self).instruments@,
                    id,
                ) || exists|j: int| 0 <= j < ids@.len() && (#[trigger] ids@[j])@ == id,
    {
        let ghost pre = self.instruments@;
        let mut i: usize = 0;
        while i < ids.len()
            invariant
                0 <= i <= ids@.len(),
                self.wf(),
                self.persist_queue == old(self).persist_queue,
                forall|j: int|
                    0 <= j < i ==> contains_str(self.instruments@, (#[trigger] ids@[j])@),
                forall|id: Seq<char>|
                    contains_str(pre, id) ==> contains_str(self.instruments@, id),
                forall|id: Seq<char>|
                    #[trigger] contains_str(self.instruments@, id) ==> contains_str(pre, id)
                        || exists|j: int| 0 <= j < i && (#[trigger] ids@[j])@ == id,
            decreases ids@.len() - i,
        {
            let ghost snap = self.instruments@;
            let id = ids[i].clone();
            proof {
                assert(id@ == ids@[i as int]@);
            }
            if !self.contains(id.as_str()) {
                self.instruments.push(id);
                proof {
                    assert(self.instruments@[self.instruments@.len() - 1]@ == ids@[i as int]@);
                    assert forall|x: int, y: int|
                        0 <= x < y < self.instruments@.len() implies (
                        #[trigger] self.instruments@[x])@ != (#[trigger] self.instruments@[y])@ by {
                        if y < self.instruments@.len() - 1 {
                            assert(snap[x]@ != snap[y]@);
                        } else {
                            assert(self.instruments@[x] == snap[x]);
                            assert(self.instruments@[y]@ == ids@[i as int]@);
                        }
                    }
                    assert forall|id2: Seq<char>| #[trigger]
                        contains_str(self.instruments@, id2) implies contains_str(snap, id2)
                        || ids@[i as int]@ == id2 by {
                        let w = choose|w: int|
                            0 <= w < self.instruments@.len() && (#[trigger] self.instruments@[w])@
                                == id2;
                        if w < self.instruments@.len() - 1 {
                            assert(snap[w]@ == id2);
                        }
                    }
                }
            }
            proof {
                assert(contains_str(self.instruments@, ids@[i as int]@));
                assert forall|j: int|
                    0 <= j < i + 1 implies contains_str(
                    self.instruments@,
                    (#[trigger] ids@[j])@,
                ) by {
                    if j < i {
                        assert(contains_str(snap, ids@[j]@));
                        let w = choose|w: int| 0 <= w < snap.len() && (#[trigger] snap[w])@ == ids@[j]@;
                        assert(self.instruments@[w]@ == ids@[j]@);
                    }
                }
                assert forall|id2: Seq<char>|
                    contains_str(pre, id2) implies contains_str(self.instruments@, id2) by {
                    assert(contains_str(snap, id2));
                    let w = choose|w: int| 0 <= w < snap.len() && (#[trigger] snap[w])@ == id2;
                    assert(self.instruments@[w]@ == id2);
                }
            }
            i = i + 1;
        }
    }
}

} // verus!
