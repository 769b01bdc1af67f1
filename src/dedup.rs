//! Tables that hold each distinct value once, in order of first occurrence.

use vstd::prelude::*;

verus! {

/// The table after `x` is interned: unchanged where `x` is already there,
/// else with `x` appended.
pub open spec fn interned<A>(t: Seq<A>, x: A) -> Seq<A> {
    if t.contains(x) {
        t
    } else {
        t.push(x)
    }
}

/// The table that interning `ss` in order builds from an empty one.
pub open spec fn first_occurrences<A>(ss: Seq<A>) -> Seq<A>
    decreases ss.len(),
{
    if ss.len() == 0 {
        Seq::empty()
    } else {
        interned(first_occurrences(ss.drop_last()), ss.last())
    }
}

/// Interning the values of `ss` in order gives a table that holds each
/// distinct value exactly once, holds no other value, and lists the values
/// in the order of their first occurrence: every prefix of `ss` that
/// holds a later entry of the table holds each earlier entry too. Its length
/// is the number of distinct values.
pub proof fn lemma_first_occurrences<A>(ss: Seq<A>)
    ensures
        first_occurrences(ss).no_duplicates(),
        forall|x: A| first_occurrences(ss).contains(x) <==> ss.contains(x),
        first_occurrences(ss).len() == ss.to_set().len(),
        forall|i: int, j: int, k: int|
            0 <= i < j < first_occurrences(ss).len() && 0 <= k <= ss.len() && ss.take(k).contains(
                first_occurrences(ss)[j],
            ) ==> ss.take(k).contains(first_occurrences(ss)[i]),
    decreases ss.len(),
{
    if ss.len() > 0 {
        let prev = ss.drop_last();
        let x = ss.last();
        lemma_first_occurrences(prev);
        let tp = first_occurrences(prev);
        let t = first_occurrences(ss);
        assert forall|y: A| t.contains(y) <==> ss.contains(y) by {
            if ss.contains(y) {
                let p = choose|p: int| 0 <= p < ss.len() && ss[p] == y;
                if p < prev.len() {
                    assert(prev[p] == y);
                    assert(prev.contains(y));
                    assert(tp.contains(y));
                    let r = choose|r: int| 0 <= r < tp.len() && tp[r] == y;
                    assert(t[r] == y);
                } else {
                    assert(y == x);
                    if !tp.contains(x) {
                        assert(t[tp.len() as int] == x);
                    }
                }
            }
            if t.contains(y) {
                let p = choose|p: int| 0 <= p < t.len() && t[p] == y;
                if p < tp.len() {
                    assert(tp[p] == y);
                    assert(prev.contains(y));
                    let q = choose|q: int| 0 <= q < prev.len() && prev[q] == y;
                    assert(ss[q] == y);
                } else {
                    assert(ss[ss.len() - 1] == y);
                }
            }
        }
        assert forall|i: int, j: int, k: int|
            0 <= i < j < t.len() && 0 <= k <= ss.len() && ss.take(k).contains(t[j]) implies ss.take(
            k,
        ).contains(t[i]) by {
            assert(t[i] == tp[i]);
            assert(prev.contains(tp[i]));
            let q = choose|q: int| 0 <= q < prev.len() && prev[q] == tp[i];
            if k == ss.len() {
                assert(ss.take(k)[q] == t[i]);
            } else {
                assert(ss.take(k) =~= prev.take(k));
                if j == tp.len() {
                    let p = choose|p: int| 0 <= p < k && ss.take(k)[p] == t[j];
                    assert(prev[p] == x);
                    assert(prev.contains(x));
                } else {
                    assert(t[j] == tp[j]);
                }
            }
        }
    }
    let t = first_occurrences(ss);
    if ss.len() == 0 {
        assert(t =~= Seq::<A>::empty());
    } else {
        assert(t.no_duplicates());
    }
    t.unique_seq_to_set();
    assert(t.to_set() =~= ss.to_set());
}

} // verus!
