//! The aggregation engine: it accumulates projected records, compacts them
//! as they grow, and flushes them when they reach a ceiling or when the
//! stream ends.
use crate::compact::{compact, compacted, covers, kept_over, same_key, views, Compactable};
use vstd::prelude::*;

verus! {

/// `held` stands for `seen`: every held record was seen, and every seen
/// record has a held record with its key that is kept over it.
pub open spec fn represents<T: Compactable>(held: Seq<T::V>, seen: Seq<T::V>) -> bool {
    &&& forall|y: T::V| #[trigger] held.contains(y) ==> seen.contains(y)
    &&& forall|x: T::V| #[trigger] seen.contains(x) ==> covers::<T>(held, x)
}

proof fn lemma_represents_push<T: Compactable>(held: Seq<T::V>, seen: Seq<T::V>, x: T::V)
    requires
        represents::<T>(held, seen),
    ensures
        represents::<T>(held.push(x), seen.push(x)),
{
    let h = held.push(x);
    let s = seen.push(x);
    assert forall|y: T::V| #[trigger] h.contains(y) implies s.contains(y) by {
        let k = choose|k: int| 0 <= k < h.len() && h[k] == y;
        if k == held.len() {
            assert(s[seen.len() as int] == y);
        } else {
            assert(held[k] == y);
            assert(held.contains(y));
            let n = choose|n: int| 0 <= n < seen.len() && seen[n] == y;
            assert(s[n] == y);
        }
    }
    assert forall|z: T::V| #[trigger] s.contains(z) implies covers::<T>(h, z) by {
        let k = choose|k: int| 0 <= k < s.len() && s[k] == z;
        if k == seen.len() {
            T::lemma_precedes_irreflexive(x);
            assert(h[held.len() as int] == x);
        } else {
            assert(seen[k] == z);
            assert(seen.contains(z));
            let w = choose|w: int|
                0 <= w < held.len() && same_key::<T>(#[trigger] held[w], z) && kept_over::<T>(
                    held[w],
                    z,
                );
            assert(h[w] == held[w]);
        }
    }
}

/// Compacting what stands for `seen` gives the compaction of `seen`.
proof fn lemma_represents_compacted<T: Compactable>(held: Seq<T::V>, seen: Seq<T::V>, out: Seq<T::V>)
    requires
        represents::<T>(held, seen),
        compacted::<T>(held, out),
    ensures
        compacted::<T>(seen, out),
        represents::<T>(out, seen),
{
    assert forall|x: T::V| #[trigger] seen.contains(x) implies covers::<T>(out, x) by {
        let w = choose|w: int|
            0 <= w < held.len() && same_key::<T>(#[trigger] held[w], x) && kept_over::<T>(held[w], x);
        assert(held.contains(held[w]));
        let o = choose|o: int|
            0 <= o < out.len() && same_key::<T>(#[trigger] out[o], held[w]) && kept_over::<T>(
                out[o],
                held[w],
            );
        T::lemma_same_key_transitive(out[o], held[w], x);
        if out[o] != held[w] && held[w] != x {
            T::lemma_supersedes_transitive(out[o], held[w], x);
        }
    }
}

/// Records received since the last flush, held in bounded memory.
pub struct Accumulator<T: Compactable> {
    records: Vec<T>,
    compaction_step: usize,
    next_compaction: usize,
    ceiling: usize,
    seen: Ghost<Seq<T::V>>,
}

impl<T: Compactable> Accumulator<T> {
    pub closed spec fn wf(self) -> bool {
        &&& 0 < self.compaction_step
        &&& self.records@.len() < self.ceiling
        &&& represents::<T>(views(self.records@), self.seen@)
    }

    /// The records received since the last flush.
    pub closed spec fn pending(self) -> Seq<T::V> {
        self.seen@
    }

    /// How many records are held in memory.
    pub closed spec fn held(self) -> nat {
        self.records@.len()
    }

    /// The number of held records that forces a flush.
    pub closed spec fn ceiling(self) -> nat {
        self.ceiling as nat
    }

    /// An empty accumulator that compacts each time it has grown by
    /// `compaction_step` records, and flushes when it holds `ceiling`.
    pub fn new(compaction_step: usize, ceiling: usize) -> (r: Self)
        requires
            0 < compaction_step,
            0 < ceiling,
        ensures
            r.wf(),
            r.pending() == Seq::<T::V>::empty(),
            r.held() == 0,
            r.ceiling() == ceiling,
    {
        let r = Accumulator {
            records: Vec::new(),
            compaction_step,
            next_compaction: compaction_step,
            ceiling,
            seen: Ghost(Seq::empty()),
        };
        proof {
            assert(views(r.records@) =~= Seq::<T::V>::empty());
        }
        r
    }

    pub fn len(&self) -> (r: usize)
        ensures
            r == self.held(),
    {
        self.records.len()
    }

    /// Takes one record. When the accumulator reaches its ceiling it flushes:
    /// it returns the compaction of every record received since the last
    /// flush, and starts afresh.
    pub fn accept(&mut self, record: T) -> (r: Option<Vec<T>>)
        requires
            old(self).wf(),
        ensures
            final(self).wf(),
            final(self).ceiling() == old(self).ceiling(),
            final(self).held() < final(self).ceiling(),
            r is Some <==> old(self).held() + 1 == old(self).ceiling(),
            r matches Some(chunk) ==> compacted::<T>(
                old(self).pending().push(record@),
                views(chunk@),
            ) && final(self).pending() == Seq::<T::V>::empty() && final(self).held() == 0,
            r matches Some(chunk) ==> chunk@.len() <= old(self).ceiling(),
            r is None ==> final(self).pending() == old(self).pending().push(record@),
            r is None ==> final(self).held() <= old(self).held() + 1,
    {
        let ghost x = record@;
        let ghost old_held = views(self.records@);
        self.records.push(record);
        proof {
            assert(views(self.records@) =~= old_held.push(x));
            lemma_represents_push::<T>(old_held, self.seen@, x);
            self.seen = Ghost(self.seen@.push(x));
        }
        if self.records.len() == self.ceiling {
            let chunk = self.flush();
            return Some(chunk);
        }
        if self.records.len() >= self.next_compaction {
            let ghost before = views(self.records@);
            compact(&mut self.records);
            proof {
                lemma_represents_compacted::<T>(before, self.seen@, views(self.records@));
            }
            let len = self.records.len();
            self.next_compaction = if self.compaction_step > usize::MAX - len {
                usize::MAX
            } else {
                len + self.compaction_step
            };
        }
        None
    }

    fn flush(&mut self) -> (r: Vec<T>)
        requires
            0 < old(self).compaction_step,
            0 < old(self).ceiling,
            represents::<T>(views(old(self).records@), old(self).seen@),
        ensures
            final(self).wf(),
            final(self).ceiling == old(self).ceiling,
            compacted::<T>(old(self).seen@, views(r@)),
            r@.len() <= old(self).records@.len(),
            final(self).seen@ == Seq::<T::V>::empty(),
            final(self).records@.len() == 0,
    {
        let ghost before = views(self.records@);
        compact(&mut self.records);
        proof {
            lemma_represents_compacted::<T>(before, self.seen@, views(self.records@));
        }
        let ghost compacted_len = self.records@.len();
        let mut chunk: Vec<T> = Vec::new();
        std::mem::swap(&mut chunk, &mut self.records);
        assert(chunk@.len() == compacted_len);
        self.next_compaction = self.compaction_step;
        proof {
            self.seen = Ghost(Seq::empty());
            assert(views(self.records@) =~= Seq::<T::V>::empty());
        }
        chunk
    }

    /// Ends the stream: returns the compaction of every record received since
    /// the last flush, and leaves the accumulator empty.
    pub fn finish(&mut self) -> (r: Vec<T>)
        requires
            old(self).wf(),
        ensures
            final(self).wf(),
            final(self).ceiling() == old(self).ceiling(),
            compacted::<T>(old(self).pending(), views(r@)),
            r@.len() < old(self).ceiling(),
            final(self).pending() == Seq::<T::V>::empty(),
            final(self).held() == 0,
    {
        self.flush()
    }

    /// The accumulator never holds as many records as its ceiling: it
    /// flushes first.
    pub proof fn lemma_memory_bound(&self)
        requires
            self.wf(),
        ensures
            self.held() < self.ceiling(),
    {
    }
}

} // verus!
