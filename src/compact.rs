//! Compaction of accumulated records: sort them by key and keep one record
//! per key, the one that supersedes the others.
use crate::text::{compare_text, lemma_text_lt_asymmetric, lemma_text_lt_irreflexive,
    lemma_text_lt_total, lemma_text_lt_transitive, text_lt};
use crate::timestamp::Timestamp;
use crate::types::{CommitEvent, RepoIdToName};
use std::cmp::Ordering;
use vstd::prelude::*;

verus! {

/// How the keys of two records compare.
pub enum KeyOrder {
    Before,
    Same,
    After,
}

/// A record that compaction can sort and deduplicate. Keys are ordered by a
/// strict weak order; among records with the same key, `supersedes` is a
/// strict total order that picks the one to keep.
pub trait Compactable: View + Sized {
    spec fn precedes(a: Self::V, b: Self::V) -> bool;

    spec fn supersedes(a: Self::V, b: Self::V) -> bool;

    proof fn lemma_precedes_irreflexive(a: Self::V)
        ensures
            !Self::precedes(a, a),
    ;

    proof fn lemma_precedes_transitive(a: Self::V, b: Self::V, c: Self::V)
        requires
            Self::precedes(a, b),
            Self::precedes(b, c),
        ensures
            Self::precedes(a, c),
    ;

    /// Records with the same key stand in the same place of the order.
    proof fn lemma_same_key_transitive(a: Self::V, b: Self::V, c: Self::V)
        requires
            !Self::precedes(a, b) && !Self::precedes(b, a),
            !Self::precedes(b, c) && !Self::precedes(c, b),
        ensures
            !Self::precedes(a, c) && !Self::precedes(c, a),
    ;

    proof fn lemma_supersedes_same_key(a: Self::V, b: Self::V)
        requires
            Self::supersedes(a, b),
        ensures
            !Self::precedes(a, b) && !Self::precedes(b, a),
    ;

    proof fn lemma_supersedes_irreflexive(a: Self::V)
        ensures
            !Self::supersedes(a, a),
    ;

    proof fn lemma_supersedes_transitive(a: Self::V, b: Self::V, c: Self::V)
        requires
            Self::supersedes(a, b),
            Self::supersedes(b, c),
        ensures
            Self::supersedes(a, c),
    ;

    proof fn lemma_supersedes_total(a: Self::V, b: Self::V)
        requires
            !Self::precedes(a, b) && !Self::precedes(b, a),
            a != b,
        ensures
            Self::supersedes(a, b) || Self::supersedes(b, a),
    ;

    fn compare_keys(&self, other: &Self) -> (r: KeyOrder)
        ensures
            (r is Before) == Self::precedes(self@, other@),
            (r is After) == Self::precedes(other@, self@),
    ;

    fn supersedes_record(&self, other: &Self) -> (r: bool)
        ensures
            r == Self::supersedes(self@, other@),
    ;

    fn duplicate(&self) -> (r: Self)
        ensures
            r@ == self@,
    ;
}

/// The views of a sequence of records.
pub open spec fn views<T: View>(s: Seq<T>) -> Seq<T::V> {
    s.map_values(|t: T| t@)
}

pub open spec fn same_key<T: Compactable>(a: T::V, b: T::V) -> bool {
    !T::precedes(a, b) && !T::precedes(b, a)
}

/// `y` is `x`, or is kept in its place.
pub open spec fn kept_over<T: Compactable>(y: T::V, x: T::V) -> bool {
    y == x || T::supersedes(y, x)
}

/// Every record precedes every later one: keys ascend and none repeats.
pub open spec fn strictly_ordered<T: Compactable>(s: Seq<T::V>) -> bool {
    forall|i: int, j: int| 0 <= i < j < s.len() ==> T::precedes(#[trigger] s[i], #[trigger] s[j])
}

/// `out` holds a record with the key of `x` that is kept over `x`.
pub open spec fn covers<T: Compactable>(out: Seq<T::V>, x: T::V) -> bool {
    exists|j: int| 0 <= j < out.len() && same_key::<T>(#[trigger] out[j], x) && kept_over::<T>(out[j], x)
}

/// `out` is `input` compacted: sorted by key, one record per key, each of
/// them from `input` and kept over every record of `input` with its key.
pub open spec fn compacted<T: Compactable>(input: Seq<T::V>, out: Seq<T::V>) -> bool {
    &&& strictly_ordered::<T>(out)
    &&& forall|y: T::V| #[trigger] out.contains(y) ==> input.contains(y)
    &&& forall|x: T::V| #[trigger] input.contains(x) ==> covers::<T>(out, x)
}

proof fn lemma_kept_over_transitive<T: Compactable>(a: T::V, b: T::V, c: T::V)
    requires
        same_key::<T>(a, b),
        kept_over::<T>(a, b),
        same_key::<T>(b, c),
        kept_over::<T>(b, c),
    ensures
        same_key::<T>(a, c),
        kept_over::<T>(a, c),
{
    T::lemma_same_key_transitive(a, b, c);
    if a != b && b != c {
        T::lemma_supersedes_transitive(a, b, c);
    }
}

/// Merging two compacted runs that came from `xa` and `xb` gives the
/// compaction of `xa + xb`.
proof fn lemma_merge_compacts<T: Compactable>(
    xa: Seq<T::V>,
    xb: Seq<T::V>,
    a: Seq<T::V>,
    b: Seq<T::V>,
    out: Seq<T::V>,
)
    requires
        compacted::<T>(xa, a),
        compacted::<T>(xb, b),
        strictly_ordered::<T>(out),
        forall|k: int| 0 <= k < out.len() ==> a.contains(#[trigger] out[k]) || b.contains(out[k]),
        forall|k: int| 0 <= k < a.len() ==> covers::<T>(out, #[trigger] a[k]),
        forall|k: int| 0 <= k < b.len() ==> covers::<T>(out, #[trigger] b[k]),
    ensures
        compacted::<T>(xa + xb, out),
{
    let x = xa + xb;
    assert forall|y: T::V| #[trigger] out.contains(y) implies x.contains(y) by {
        let k = choose|k: int| 0 <= k < out.len() && out[k] == y;
        if a.contains(out[k]) {
            assert(xa.contains(y));
            let m = choose|m: int| 0 <= m < xa.len() && xa[m] == y;
            assert(x[m] == y);
        } else {
            assert(xb.contains(y));
            let m = choose|m: int| 0 <= m < xb.len() && xb[m] == y;
            assert(x[xa.len() + m] == y);
        }
    }
    assert forall|x0: T::V| #[trigger] x.contains(x0) implies covers::<T>(out, x0) by {
        let k = choose|k: int| 0 <= k < x.len() && x[k] == x0;
        let run = if k < xa.len() {
            a
        } else {
            b
        };
        if k < xa.len() {
            assert(xa[k] == x0);
            assert(xa.contains(x0));
        } else {
            assert(xb[k - xa.len()] == x0);
            assert(xb.contains(x0));
        }
        assert(covers::<T>(run, x0));
        let j = choose|j: int|
            0 <= j < run.len() && same_key::<T>(#[trigger] run[j], x0) && kept_over::<T>(
                run[j],
                x0,
            );
        assert(covers::<T>(out, run[j]));
        let o = choose|o: int|
            0 <= o < out.len() && same_key::<T>(#[trigger] out[o], run[j]) && kept_over::<T>(
                out[o],
                run[j],
            );
        lemma_kept_over_transitive::<T>(out[o], run[j], x0);
    }
}

proof fn lemma_precedes_left<T: Compactable>(p: T::V, a: T::V, c: T::V)
    requires
        same_key::<T>(p, a),
        T::precedes(a, c),
    ensures
        T::precedes(p, c),
{
    if !T::precedes(p, c) {
        if T::precedes(c, p) {
            T::lemma_precedes_transitive(a, c, p);
        } else {
            T::lemma_same_key_transitive(a, p, c);
        }
    }
}

proof fn lemma_precedes_right<T: Compactable>(c: T::V, a: T::V, p: T::V)
    requires
        T::precedes(c, a),
        same_key::<T>(a, p),
    ensures
        T::precedes(c, p),
{
    if !T::precedes(c, p) {
        if T::precedes(p, c) {
            T::lemma_precedes_transitive(p, c, a);
        } else {
            T::lemma_same_key_transitive(c, p, a);
        }
    }
}

proof fn lemma_covers_push<T: Compactable>(s: Seq<T::V>, y: T::V, x: T::V)
    requires
        covers::<T>(s, x) || (same_key::<T>(y, x) && kept_over::<T>(y, x)),
    ensures
        covers::<T>(s.push(y), x),
{
    if covers::<T>(s, x) {
        let w = choose|w: int|
            0 <= w < s.len() && same_key::<T>(#[trigger] s[w], x) && kept_over::<T>(s[w], x);
        assert(s.push(y)[w] == s[w]);
    } else {
        assert(s.push(y)[s.len() as int] == y);
    }
}

fn merge<T: Compactable>(
    a: Vec<T>,
    b: Vec<T>,
    Ghost(xa): Ghost<Seq<T::V>>,
    Ghost(xb): Ghost<Seq<T::V>>,
) -> (r: Vec<T>)
    requires
        compacted::<T>(xa, views(a@)),
        compacted::<T>(xb, views(b@)),
    ensures
        compacted::<T>(xa + xb, views(r@)),
{
    let ghost va = views(a@);
    let ghost vb = views(b@);
    let mut out: Vec<T> = Vec::new();
    let mut i: usize = 0;
    let mut j: usize = 0;
    while i < a.len() || j < b.len()
        invariant
            va == views(a@),
            vb == views(b@),
            compacted::<T>(xa, va),
            compacted::<T>(xb, vb),
            i <= a.len(),
            j <= b.len(),
            strictly_ordered::<T>(views(out@)),
            forall|k: int|
                0 <= k < out.len() ==> va.contains(#[trigger] views(out@)[k]) || vb.contains(
                    views(out@)[k],
                ),
            forall|k: int| 0 <= k < i ==> covers::<T>(views(out@), #[trigger] va[k]),
            forall|k: int| 0 <= k < j ==> covers::<T>(views(out@), #[trigger] vb[k]),
            out.len() > 0 && i < a.len() ==> T::precedes(views(out@).last(), va[i as int]),
            out.len() > 0 && j < b.len() ==> T::precedes(views(out@).last(), vb[j as int]),
        decreases a.len() + b.len() - i - j,
    {
        let ghost old_out = views(out@);
        let ghost old_i = i as int;
        let ghost old_j = j as int;
        let order = if i >= a.len() {
            KeyOrder::After
        } else if j >= b.len() {
            KeyOrder::Before
        } else {
            a[i].compare_keys(&b[j])
        };
        let ghost pushed: T::V;
        match order {
            KeyOrder::Before => {
                out.push(a[i].duplicate());
                proof {
                    pushed = va[old_i];
                    T::lemma_precedes_irreflexive(pushed);
                }
                i = i + 1;
            },
            KeyOrder::After => {
                out.push(b[j].duplicate());
                proof {
                    pushed = vb[old_j];
                    T::lemma_precedes_irreflexive(pushed);
                }
                j = j + 1;
            },
            KeyOrder::Same => {
                if b[j].supersedes_record(&a[i]) {
                    out.push(b[j].duplicate());
                    proof {
                        pushed = vb[old_j];
                        T::lemma_precedes_irreflexive(pushed);
                    }
                } else {
                    out.push(a[i].duplicate());
                    proof {
                        pushed = va[old_i];
                        T::lemma_precedes_irreflexive(pushed);
                        if va[old_i] != vb[old_j] {
                            T::lemma_supersedes_total(va[old_i], vb[old_j]);
                        }
                    }
                }
                i = i + 1;
                j = j + 1;
            },
        }
        proof {
            let vo = views(out@);
            assert(vo =~= old_out.push(pushed));
            // the new record follows every earlier one
            if old_out.len() > 0 {
                if old_i < a.len() && pushed != va[old_i] {
                    if old_j < b.len() && pushed == vb[old_j] && same_key::<T>(va[old_i], pushed) {
                        lemma_precedes_right::<T>(old_out.last(), va[old_i], pushed);
                    }
                }
                assert(T::precedes(old_out.last(), pushed));
            }
            assert forall|p: int, q: int| 0 <= p < q < vo.len() implies T::precedes(
                #[trigger] vo[p],
                #[trigger] vo[q],
            ) by {
                if q == vo.len() - 1 && p < old_out.len() - 1 {
                    T::lemma_precedes_transitive(vo[p], old_out.last(), pushed);
                }
            }
            assert forall|k: int| 0 <= k < out.len() implies va.contains(#[trigger] vo[k])
                || vb.contains(vo[k]) by {
                if k == vo.len() - 1 {
                    if pushed == va[old_i] {
                        assert(va[old_i] == vo[k]);
                    } else {
                        assert(vb[old_j] == vo[k]);
                    }
                }
            }
            assert forall|k: int| 0 <= k < i implies covers::<T>(vo, #[trigger] va[k]) by {
                lemma_covers_push::<T>(old_out, pushed, va[k]);
            }
            assert forall|k: int| 0 <= k < j implies covers::<T>(vo, #[trigger] vb[k]) by {
                lemma_covers_push::<T>(old_out, pushed, vb[k]);
            }
            // the new record precedes what is left of either run
            if i < a.len() {
                if pushed == va[old_i] {
                    assert(T::precedes(va[old_i], va[i as int]));
                } else if i as int == old_i {
                    assert(T::precedes(vb[old_j], va[old_i]));
                } else {
                    assert(T::precedes(va[old_i], va[i as int]));
                    lemma_precedes_left::<T>(pushed, va[old_i], va[i as int]);
                }
            }
            if j < b.len() {
                if pushed == vb[old_j] {
                    assert(T::precedes(vb[old_j], vb[j as int]));
                } else if j as int == old_j {
                    assert(T::precedes(va[old_i], vb[old_j]));
                } else {
                    assert(T::precedes(vb[old_j], vb[j as int]));
                    lemma_precedes_left::<T>(pushed, vb[old_j], vb[j as int]);
                }
            }
        }
    }
    proof {
        lemma_merge_compacts::<T>(xa, xb, va, vb, views(out@));
    }
    out
}

fn compact_range<T: Compactable>(v: &Vec<T>, lo: usize, hi: usize) -> (r: Vec<T>)
    requires
        lo <= hi <= v.len(),
    ensures
        compacted::<T>(views(v@).subrange(lo as int, hi as int), views(r@)),
    decreases hi - lo,
{
    let ghost part = views(v@).subrange(lo as int, hi as int);
    if hi - lo == 0 {
        let r: Vec<T> = Vec::new();
        proof {
            assert(views(r@) =~= Seq::<T::V>::empty());
        }
        r
    } else if hi - lo == 1 {
        let mut r: Vec<T> = Vec::new();
        r.push(v[lo].duplicate());
        proof {
            let vr = views(r@);
            assert(vr =~= part);
            T::lemma_precedes_irreflexive(vr[0]);
            assert(covers::<T>(vr, vr[0]));
        }
        r
    } else {
        let mid = lo + (hi - lo) / 2;
        let left = compact_range(v, lo, mid);
        let right = compact_range(v, mid, hi);
        proof {
            assert(views(v@).subrange(lo as int, mid as int) + views(v@).subrange(
                mid as int,
                hi as int,
            ) =~= part);
        }
        merge(
            left,
            right,
            Ghost(views(v@).subrange(lo as int, mid as int)),
            Ghost(views(v@).subrange(mid as int, hi as int)),
        )
    }
}

/// A compaction is never longer than its input.
pub proof fn lemma_compacted_len<T: Compactable>(input: Seq<T::V>, out: Seq<T::V>)
    requires
        compacted::<T>(input, out),
    ensures
        out.len() <= input.len(),
{
    broadcast use vstd::seq_lib::seq_to_set_is_finite;
    assert(out.no_duplicates()) by {
        assert forall|i: int, j: int| 0 <= i < out.len() && 0 <= j < out.len() && i != j implies out[i]
            != out[j] by {
            T::lemma_precedes_irreflexive(out[i]);
            if i < j {
                assert(T::precedes(out[i], out[j]));
            } else {
                assert(T::precedes(out[j], out[i]));
            }
        }
    }
    out.unique_seq_to_set();
    assert(out.to_set().subset_of(input.to_set())) by {
        assert forall|y: T::V| out.to_set().contains(y) implies input.to_set().contains(y) by {
            assert(out.contains(y));
        }
    }
    vstd::set_lib::lemma_len_subset(out.to_set(), input.to_set());
    input.lemma_cardinality_of_set();
}

/// Sorts `records` by key and keeps, for each key, the record that
/// supersedes all others with that key.
pub fn compact<T: Compactable>(records: &mut Vec<T>)
    ensures
        compacted::<T>(views(old(records)@), views(final(records)@)),
        final(records)@.len() <= old(records)@.len(),
{
    let n = records.len();
    let result = compact_range(records, 0, n);
    proof {
        assert(views(records@).subrange(0, n as int) =~= views(records@));
        lemma_compacted_len::<T>(views(records@), views(result@));
    }
    *records = result;
}

/// Two strictly ordered sequences that hold the same records are equal.
proof fn lemma_ordered_same_records<T: Compactable>(s: Seq<T::V>, t: Seq<T::V>)
    requires
        strictly_ordered::<T>(s),
        strictly_ordered::<T>(t),
        forall|k: int| 0 <= k < s.len() ==> t.contains(#[trigger] s[k]),
        forall|k: int| 0 <= k < t.len() ==> s.contains(#[trigger] t[k]),
    ensures
        s == t,
    decreases s.len(),
{
    if s.len() == 0 {
        if t.len() > 0 {
            assert(s.contains(t[0]));
        }
        assert(s =~= t);
    } else {
        assert(t.contains(s[0]));
        assert(t.len() > 0);
        assert(s.contains(t[0]));
        let p = choose|p: int| 0 <= p < t.len() && t[p] == s[0];
        let q = choose|q: int| 0 <= q < s.len() && s[q] == t[0];
        T::lemma_precedes_irreflexive(s[0]);
        if p > 0 {
            assert(T::precedes(t[0], t[p]));
            if q > 0 {
                assert(T::precedes(s[0], s[q]));
                T::lemma_precedes_transitive(s[0], s[q], s[0]);
            }
        }
        let s1 = s.drop_first();
        let t1 = t.drop_first();
        assert forall|k: int| 0 <= k < s1.len() implies t1.contains(#[trigger] s1[k]) by {
            assert(s[k + 1] == s1[k]);
            assert(t.contains(s[k + 1]));
            let m = choose|m: int| 0 <= m < t.len() && t[m] == s[k + 1];
            assert(T::precedes(s[0], s[k + 1]));
            assert(m != 0);
            assert(t1[m - 1] == s1[k]);
        }
        assert forall|k: int| 0 <= k < t1.len() implies s1.contains(#[trigger] t1[k]) by {
            assert(t[k + 1] == t1[k]);
            assert(s.contains(t[k + 1]));
            let m = choose|m: int| 0 <= m < s.len() && s[m] == t[k + 1];
            assert(T::precedes(t[0], t[k + 1]));
            assert(m != 0);
            assert(s1[m - 1] == t1[k]);
        }
        lemma_ordered_same_records::<T>(s1, t1);
        assert(s =~= seq![s[0]] + s1);
        assert(t =~= seq![t[0]] + t1);
    }
}

proof fn lemma_compacted_record_shared<T: Compactable>(
    a: Seq<T::V>,
    b: Seq<T::V>,
    oa: Seq<T::V>,
    ob: Seq<T::V>,
    k: int,
)
    requires
        forall|x: T::V| a.contains(x) <==> b.contains(x),
        compacted::<T>(a, oa),
        compacted::<T>(b, ob),
        0 <= k < oa.len(),
    ensures
        ob.contains(oa[k]),
{
    let y = oa[k];
    assert(oa.contains(y));
    assert(a.contains(y));
    assert(b.contains(y));
    let m = choose|m: int| 0 <= m < b.len() && b[m] == y;
    assert(covers::<T>(ob, b[m]));
    let w = choose|w: int|
        0 <= w < ob.len() && same_key::<T>(#[trigger] ob[w], b[m]) && kept_over::<T>(ob[w], b[m]);
    let z = ob[w];
    assert(ob.contains(z));
    assert(b.contains(z));
    assert(a.contains(z));
    let n = choose|n: int| 0 <= n < a.len() && a[n] == z;
    assert(covers::<T>(oa, a[n]));
    let t = choose|t: int|
        0 <= t < oa.len() && same_key::<T>(#[trigger] oa[t], a[n]) && kept_over::<T>(oa[t], a[n]);
    T::lemma_same_key_transitive(oa[t], z, y);
    if t < k {
        assert(T::precedes(oa[t], oa[k]));
    } else if t > k {
        assert(T::precedes(oa[k], oa[t]));
    }
    assert(oa[t] == y);
    if z != y {
        T::lemma_supersedes_transitive(y, z, y);
        T::lemma_supersedes_irreflexive(y);
    }
    assert(ob[w] == y);
}

proof fn lemma_compacted_records_shared<T: Compactable>(
    a: Seq<T::V>,
    b: Seq<T::V>,
    oa: Seq<T::V>,
    ob: Seq<T::V>,
)
    requires
        forall|x: T::V| a.contains(x) <==> b.contains(x),
        compacted::<T>(a, oa),
        compacted::<T>(b, ob),
    ensures
        forall|k: int| 0 <= k < oa.len() ==> ob.contains(#[trigger] oa[k]),
{
    assert forall|k: int| 0 <= k < oa.len() implies ob.contains(#[trigger] oa[k]) by {
        lemma_compacted_record_shared::<T>(a, b, oa, ob, k);
    }
}

/// The compaction of a sequence depends only on which records it holds:
/// neither their order nor their repetition changes it.
pub proof fn lemma_compact_order_independent<T: Compactable>(
    a: Seq<T::V>,
    b: Seq<T::V>,
    oa: Seq<T::V>,
    ob: Seq<T::V>,
)
    requires
        forall|x: T::V| a.contains(x) <==> b.contains(x),
        compacted::<T>(a, oa),
        compacted::<T>(b, ob),
    ensures
        oa == ob,
{
    lemma_compacted_records_shared::<T>(a, b, oa, ob);
    lemma_compacted_records_shared::<T>(b, a, ob, oa);
    lemma_ordered_same_records::<T>(oa, ob);
}

/// Compacting a compacted sequence again changes nothing.
pub proof fn lemma_compact_idempotent<T: Compactable>(
    input: Seq<T::V>,
    once: Seq<T::V>,
    twice: Seq<T::V>,
)
    requires
        compacted::<T>(input, once),
        compacted::<T>(once, twice),
    ensures
        twice == once,
{
    assert forall|x: T::V| #[trigger] once.contains(x) implies covers::<T>(once, x) by {
        let k = choose|k: int| 0 <= k < once.len() && once[k] == x;
        T::lemma_precedes_irreflexive(once[k]);
    }
    lemma_compact_order_independent::<T>(once, once, twice, once);
}

impl View for CommitEvent {
    type V = (Seq<char>, i64);

    open spec fn view(&self) -> (Seq<char>, i64) {
        (self.actor@, self.repo_id)
    }
}

proof fn lemma_commit_same_key_equal(a: (Seq<char>, i64), b: (Seq<char>, i64))
    requires
        !CommitEvent::precedes(a, b),
        !CommitEvent::precedes(b, a),
    ensures
        a == b,
{
    lemma_text_lt_total(a.0, b.0);
}

/// Contributions are ordered by contributor, then by repository id, and are
/// the same only when both agree.
impl Compactable for CommitEvent {
    open spec fn precedes(a: (Seq<char>, i64), b: (Seq<char>, i64)) -> bool {
        text_lt(a.0, b.0) || (a.0 == b.0 && a.1 < b.1)
    }

    open spec fn supersedes(a: (Seq<char>, i64), b: (Seq<char>, i64)) -> bool {
        false
    }

    proof fn lemma_precedes_irreflexive(a: (Seq<char>, i64)) {
        lemma_text_lt_irreflexive(a.0);
    }

    proof fn lemma_precedes_transitive(
        a: (Seq<char>, i64),
        b: (Seq<char>, i64),
        c: (Seq<char>, i64),
    ) {
        if text_lt(a.0, b.0) && text_lt(b.0, c.0) {
            lemma_text_lt_transitive(a.0, b.0, c.0);
        }
    }

    proof fn lemma_same_key_transitive(
        a: (Seq<char>, i64),
        b: (Seq<char>, i64),
        c: (Seq<char>, i64),
    ) {
        lemma_commit_same_key_equal(a, b);
        lemma_commit_same_key_equal(b, c);
    }

    proof fn lemma_supersedes_same_key(a: (Seq<char>, i64), b: (Seq<char>, i64)) {
    }

    proof fn lemma_supersedes_irreflexive(a: (Seq<char>, i64)) {
    }

    proof fn lemma_supersedes_transitive(
        a: (Seq<char>, i64),
        b: (Seq<char>, i64),
        c: (Seq<char>, i64),
    ) {
    }

    proof fn lemma_supersedes_total(a: (Seq<char>, i64), b: (Seq<char>, i64)) {
        lemma_commit_same_key_equal(a, b);
    }

    fn compare_keys(&self, other: &Self) -> (r: KeyOrder) {
        match compare_text(self.actor.as_str(), other.actor.as_str()) {
            Ordering::Less => {
                proof {
                    lemma_text_lt_asymmetric(self.actor@, other.actor@);
                }
                KeyOrder::Before
            },
            Ordering::Greater => {
                proof {
                    lemma_text_lt_asymmetric(other.actor@, self.actor@);
                }
                KeyOrder::After
            },
            Ordering::Equal => {
                proof {
                    lemma_text_lt_irreflexive(self.actor@);
                }
                if self.repo_id < other.repo_id {
                    KeyOrder::Before
                } else if self.repo_id > other.repo_id {
                    KeyOrder::After
                } else {
                    KeyOrder::Same
                }
            },
        }
    }

    fn supersedes_record(&self, other: &Self) -> (r: bool) {
        false
    }

    fn duplicate(&self) -> (r: Self) {
        CommitEvent { actor: self.actor.clone(), repo_id: self.repo_id }
    }
}

impl View for RepoIdToName {
    /// Repository id, name, and seconds of the timestamp.
    type V = (i64, Seq<char>, int);

    open spec fn view(&self) -> (i64, Seq<char>, int) {
        (self.repo_id, self.repo_name@, self.event_timestamp.seconds())
    }
}

/// Name records are keyed by repository id. Of two records of one
/// repository the later one supersedes the earlier; at the same second, the
/// name that sorts first is kept.
impl Compactable for RepoIdToName {
    open spec fn precedes(a: (i64, Seq<char>, int), b: (i64, Seq<char>, int)) -> bool {
        a.0 < b.0
    }

    open spec fn supersedes(a: (i64, Seq<char>, int), b: (i64, Seq<char>, int)) -> bool {
        a.0 == b.0 && (a.2 > b.2 || (a.2 == b.2 && text_lt(a.1, b.1)))
    }

    proof fn lemma_precedes_irreflexive(a: (i64, Seq<char>, int)) {
    }

    proof fn lemma_precedes_transitive(
        a: (i64, Seq<char>, int),
        b: (i64, Seq<char>, int),
        c: (i64, Seq<char>, int),
    ) {
    }

    proof fn lemma_same_key_transitive(
        a: (i64, Seq<char>, int),
        b: (i64, Seq<char>, int),
        c: (i64, Seq<char>, int),
    ) {
    }

    proof fn lemma_supersedes_same_key(a: (i64, Seq<char>, int), b: (i64, Seq<char>, int)) {
    }

    proof fn lemma_supersedes_irreflexive(a: (i64, Seq<char>, int)) {
        lemma_text_lt_irreflexive(a.1);
    }

    proof fn lemma_supersedes_transitive(
        a: (i64, Seq<char>, int),
        b: (i64, Seq<char>, int),
        c: (i64, Seq<char>, int),
    ) {
        if a.2 == b.2 && b.2 == c.2 {
            lemma_text_lt_transitive(a.1, b.1, c.1);
        }
    }

    proof fn lemma_supersedes_total(a: (i64, Seq<char>, int), b: (i64, Seq<char>, int)) {
        if a.2 == b.2 && !text_lt(a.1, b.1) && !text_lt(b.1, a.1) {
            lemma_text_lt_total(a.1, b.1);
        }
    }

    fn compare_keys(&self, other: &Self) -> (r: KeyOrder) {
        if self.repo_id < other.repo_id {
            KeyOrder::Before
        } else if self.repo_id > other.repo_id {
            KeyOrder::After
        } else {
            KeyOrder::Same
        }
    }

    fn supersedes_record(&self, other: &Self) -> (r: bool) {
        if self.repo_id != other.repo_id {
            false
        } else if self.event_timestamp.is_after(&other.event_timestamp) {
            true
        } else if other.event_timestamp.is_after(&self.event_timestamp) {
            false
        } else {
            match compare_text(self.repo_name.as_str(), other.repo_name.as_str()) {
                Ordering::Less => true,
                _ => false,
            }
        }
    }

    fn duplicate(&self) -> (r: Self) {
        RepoIdToName {
            repo_id: self.repo_id,
            repo_name: self.repo_name.clone(),
            event_timestamp: self.event_timestamp,
        }
    }
}

/// Of name records that all belong to one repository, compaction keeps
/// exactly the record with the latest timestamp, whatever the order of the
/// input.
pub proof fn lemma_latest_wins(input: Seq<(i64, Seq<char>, int)>, out: Seq<(i64, Seq<char>, int)>, m: int)
    requires
        compacted::<RepoIdToName>(input, out),
        0 <= m < input.len(),
        forall|k: int| 0 <= k < input.len() ==> (#[trigger] input[k]).0 == input[m].0,
        forall|k: int| 0 <= k < input.len() && input[k] != input[m] ==> (#[trigger] input[k]).2 < input[m].2,
    ensures
        out == seq![input[m]],
{
    assert(input.contains(input[m]));
    assert(covers::<RepoIdToName>(out, input[m]));
    let j = choose|j: int|
        0 <= j < out.len() && same_key::<RepoIdToName>(#[trigger] out[j], input[m])
            && kept_over::<RepoIdToName>(out[j], input[m]);
    assert(out.contains(out[j]));
    assert(input.contains(out[j]));
    let k = choose|k: int| 0 <= k < input.len() && input[k] == out[j];
    assert(out[j] == input[m]);
    assert forall|i: int| 0 <= i < out.len() implies (#[trigger] out[i]).0 == input[m].0 by {
        assert(out.contains(out[i]));
        assert(input.contains(out[i]));
        let n = choose|n: int| 0 <= n < input.len() && input[n] == out[i];
    }
    if out.len() > 1 {
        assert(RepoIdToName::precedes(out[0], out[1]));
        assert(out[0].0 == input[m].0);
        assert(out[1].0 == input[m].0);
    }
    assert(out =~= seq![input[m]]);
}

} // verus!
