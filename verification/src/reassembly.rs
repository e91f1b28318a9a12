//! Ordered-chunk accumulator shared by icon transfers and statistics
//! uploads: chunks arrive in any order, completion is reached exactly when
//! every distinct index has been seen, and assembly joins the slots in
//! index order.

use vstd::prelude::*;

verus! {

/// The bytes a slot contributes to assembly: its data, or nothing while it
/// is still empty.
pub open spec fn slot_bytes(o: Option<Seq<u8>>) -> Seq<u8> {
    match o {
        Some(d) => d,
        None => Seq::empty(),
    }
}

/// How many slots are filled.
pub open spec fn count_filled(s: Seq<Option<Seq<u8>>>) -> nat
    decreases s.len(),
{
    if s.len() == 0 {
        0
    } else {
        count_filled(s.drop_last()) + (if s.last() is Some {
            1nat
        } else {
            0nat
        })
    }
}

/// No more slots are filled than exist.
pub proof fn lemma_count_filled_le(s: Seq<Option<Seq<u8>>>)
    ensures
        count_filled(s) <= s.len(),
    decreases s.len(),
{
    if s.len() > 0 {
        lemma_count_filled_le(s.drop_last());
    }
}

/// Every slot is filled exactly when the filled count reaches the length.
pub proof fn lemma_count_filled_full(s: Seq<Option<Seq<u8>>>)
    ensures
        count_filled(s) == s.len() <==> (forall|i: int| 0 <= i < s.len() ==> s[i] is Some),
    decreases s.len(),
{
    if s.len() > 0 {
        let t = s.drop_last();
        lemma_count_filled_full(t);
        lemma_count_filled_le(t);
        if count_filled(s) == s.len() {
            assert(forall|i: int| 0 <= i < t.len() ==> t[i] == s[i]);
        } else if forall|i: int| 0 <= i < s.len() ==> s[i] is Some {
            assert(forall|i: int| 0 <= i < t.len() ==> t[i] == s[i]);
            assert(count_filled(t) == t.len());
        }
    }
}

/// Updating a filled slot keeps the filled count; filling an empty slot
/// raises it by one.
pub proof fn lemma_count_filled_update(s: Seq<Option<Seq<u8>>>, i: int, d: Seq<u8>)
    requires
        0 <= i < s.len(),
    ensures
        s[i] is Some ==> count_filled(s.update(i, Some(d))) == count_filled(s),
        s[i] is None ==> count_filled(s.update(i, Some(d))) == count_filled(s) + 1,
    decreases s.len(),
{
    let u = s.update(i, Some(d));
    if s.len() > 0 {
        if i == s.len() - 1 {
            assert(u.drop_last() =~= s.drop_last());
        } else {
            lemma_count_filled_update(s.drop_last(), i, d);
            assert(u.drop_last() =~= s.drop_last().update(i, Some(d)));
            assert(u.last() == s.last());
        }
    }
}

/// The assembled payload of a slot sequence: the filled slots joined in
/// index order, empty slots silently skipped.
pub open spec fn spec_assembled(s: Seq<Option<Seq<u8>>>) -> Seq<u8>
    decreases s.len(),
{
    if s.len() == 0 {
        Seq::empty()
    } else {
        spec_assembled(s.drop_last()) + slot_bytes(s.last())
    }
}

/// Accumulator for one chunked transfer.
pub struct ReassemblyBuffer {
    /// One slot per expected chunk, in index order.
    pub slots: Vec<Option<Vec<u8>>>,
    /// How many distinct chunk indices have been filled.
    pub received_count: u16,
    /// How many chunks the transfer declared.
    pub total_chunks: u16,
}

impl View for ReassemblyBuffer {
    type V = Seq<Option<Seq<u8>>>;

    /// The slots, each reduced to the bytes it holds.
    open spec fn view(&self) -> Seq<Option<Seq<u8>>> {
        self.slots@.map_values(
            |o: Option<Vec<u8>>|
                match o {
                    Some(d) => Some(d@),
                    None => None,
                },
        )
    }
}

impl ReassemblyBuffer {
    /// The buffer's internal invariant: one slot per declared chunk, and
    /// the received count tracks exactly the filled slots.
    pub open spec fn wf(self) -> bool {
        &&& self@.len() == self.total_chunks
        &&& self.received_count as nat == count_filled(self@)
    }

    /// Whether the transfer is complete: every declared chunk has arrived.
    /// A transfer declared with zero chunks is complete at once.
    pub open spec fn complete(self) -> bool {
        self.received_count == self.total_chunks
    }

    /// A fresh buffer expecting `total_chunks` chunks, all slots empty.
    pub fn new(total_chunks: u16) -> (r: ReassemblyBuffer)
        ensures
            r.wf(),
            r.total_chunks == total_chunks,
            r.received_count == 0,
            r@ =~= Seq::new(total_chunks as nat, |i: int| Option::<Seq<u8>>::None),
    {
        let mut slots: Vec<Option<Vec<u8>>> = Vec::new();
        let mut i: usize = 0;
        while i < total_chunks as usize
            invariant
                i <= total_chunks as usize,
                slots@.len() == i,
                forall|k: int| 0 <= k < i ==> slots@[k] is None,
            decreases total_chunks as usize - i,
        {
            slots.push(None);
            i += 1;
        }
        let r = ReassemblyBuffer { slots, received_count: 0, total_chunks };
        proof {
            assert(forall|k: int| 0 <= k < r@.len() ==> r@[k] is None);
            lemma_count_filled_none(r@);
        }
        r
    }

    /// Stores one chunk and reports whether the transfer is now complete.
    /// A repeated index overwrites the slot without raising the count; an
    /// index at or past the declared total is ignored.
    pub fn insert(&mut self, chunk_index: u16, data: Vec<u8>) -> (complete: bool)
        requires
            old(self).wf(),
        ensures
            final(self).wf(),
            final(self).total_chunks == old(self).total_chunks,
            complete == final(self).complete(),
            chunk_index < old(self).total_chunks ==> {
                &&& final(self)@ == old(self)@.update(chunk_index as int, Some(data@))
                &&& (old(self)@[chunk_index as int] is None ==> final(self).received_count
                    == old(self).received_count + 1)
                &&& (old(self)@[chunk_index as int] is Some ==> final(self).received_count
                    == old(self).received_count)
            },
            chunk_index >= old(self).total_chunks ==> final(self)@ == old(self)@
                && final(self).received_count == old(self).received_count,
    {
        if (chunk_index as usize) < self.slots.len() {
            proof {
                lemma_count_filled_update(self@, chunk_index as int, data@);
                lemma_count_filled_le(self@);
                lemma_count_filled_full(self@);
            }
            let ghost before = self@;
            if self.slots[chunk_index as usize].is_none() {
                self.received_count = self.received_count + 1;
            }
            self.slots[chunk_index as usize] = Some(data);
            proof {
                assert(self@ =~= before.update(chunk_index as int, Some(data@)));
            }
        }
        proof {
            lemma_count_filled_le(self@);
        }
        self.received_count >= self.total_chunks
    }

    /// Joins the filled slots in index order.  Empty slots are silently
    /// skipped, so the result of an incomplete buffer can be shorter than
    /// the original payload; callers gate on completion or on a checksum.
    pub fn assemble(&self) -> (r: Vec<u8>)
        ensures
            r@ == spec_assembled(self@),
    {
        let mut out: Vec<u8> = Vec::new();
        let mut i: usize = 0;
        while i < self.slots.len()
            invariant
                i <= self.slots@.len(),
                self@.len() == self.slots@.len(),
                out@ == spec_assembled(self@.take(i as int)),
            decreases self.slots@.len() - i,
        {
            proof {
                assert(self@.take(i + 1).drop_last() =~= self@.take(i as int));
                assert(self@.take(i + 1).last() == self@[i as int]);
            }
            match &self.slots[i] {
                Some(d) => {
                    let mut part = d.clone();
                    proof {
                        assert(self@[i as int] == Some(part@));
                    }
                    out.append(&mut part);
                },
                None => {
                },
            }
            i += 1;
        }
        proof {
            assert(self@.take(self@.len() as int) =~= self@);
        }
        out
    }

    /// Reports whether the transfer is complete.
    pub fn is_complete(&self) -> (r: bool)
        requires
            self.wf(),
        ensures
            r == self.complete(),
    {
        proof {
            lemma_count_filled_le(self@);
        }
        self.received_count >= self.total_chunks
    }
}

/// A slot sequence with nothing in it has a filled count of zero.
pub proof fn lemma_count_filled_none(s: Seq<Option<Seq<u8>>>)
    requires
        forall|i: int| 0 <= i < s.len() ==> s[i] is None,
    ensures
        count_filled(s) == 0,
    decreases s.len(),
{
    if s.len() > 0 {
        lemma_count_filled_none(s.drop_last());
    }
}

/// Completion holds exactly when every one of the declared chunk indices
/// has been inserted: the received count reaches the total only when no
/// slot is left empty, however the chunks arrived and however often any
/// one of them was repeated.
pub proof fn lemma_complete_iff_all_present(b: ReassemblyBuffer)
    requires
        b.wf(),
    ensures
        b.complete() <==> (forall|i: int| 0 <= i < b@.len() ==> b@[i] is Some),
{
    lemma_count_filled_full(b@);
}

} // verus!
