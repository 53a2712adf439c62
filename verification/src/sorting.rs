//! Stable insertion sorting, specified as a recursive function so
//! that a sorted view is pinned down exactly, ties kept in collector
//! order.

use vstd::prelude::*;
use vstd::relations::sorted_by;

verus! {

/// `s` with `e` placed after every element that `leq`-precedes or
/// ties it: the insertion step of a stable sort.
pub open spec fn insert_sorted<T>(s: Seq<T>, e: T, leq: spec_fn(T, T) -> bool) -> Seq<T>
    decreases s.len(),
{
    if s.len() == 0 {
        seq![e]
    } else if leq(s.last(), e) {
        s.push(e)
    } else {
        insert_sorted(s.drop_last(), e, leq).push(s.last())
    }
}

/// `s` sorted by `leq`, equal elements kept in their input order.
pub open spec fn stable_sorted<T>(s: Seq<T>, leq: spec_fn(T, T) -> bool) -> Seq<T>
    decreases s.len(),
{
    if s.len() == 0 {
        Seq::<T>::empty()
    } else {
        insert_sorted(stable_sorted(s.drop_last(), leq), s.last(), leq)
    }
}

/// Pushing an element extends membership by exactly that element.
pub proof fn lemma_push_contains<T>(s: Seq<T>, e: T, x: T)
    ensures
        s.push(e).contains(x) <==> (s.contains(x) || x == e),
{
    if s.contains(x) {
        let i = choose|i: int| 0 <= i < s.len() && s[i] == x;
        assert(s.push(e)[i] == x);
    }
    if x == e {
        assert(s.push(e)[s.len() as int] == x);
    }
    if s.push(e).contains(x) {
        let i = choose|i: int| 0 <= i < s.push(e).len() && s.push(e)[i] == x;
        if i < s.len() {
            assert(s[i] == x);
        }
    }
}

/// Insertion extends membership by exactly the inserted element.
pub proof fn lemma_insert_sorted_contains<T>(s: Seq<T>, e: T, leq: spec_fn(T, T) -> bool, x: T)
    ensures
        insert_sorted(s, e, leq).contains(x) <==> (s.contains(x) || x == e),
    decreases s.len(),
{
    if s.len() == 0 {
        assert(Seq::<T>::empty().push(e) =~= seq![e]);
        lemma_push_contains(Seq::<T>::empty(), e, x);
    } else if leq(s.last(), e) {
        lemma_push_contains(s, e, x);
    } else {
        lemma_insert_sorted_contains(s.drop_last(), e, leq, x);
        lemma_push_contains(insert_sorted(s.drop_last(), e, leq), s.last(), x);
        assert(s =~= s.drop_last().push(s.last()));
        lemma_push_contains(s.drop_last(), s.last(), x);
    }
}

/// Where the scan of a sorted sequence stops, the insertion lands:
/// with everything from `j` on strictly after `e` and the element
/// before `j` not after it, inserting `e` splices it in at `j`.
pub proof fn lemma_insert_sorted_splice<T>(s: Seq<T>, e: T, leq: spec_fn(T, T) -> bool, j: int)
    requires
        0 <= j <= s.len(),
        forall|k: int| j <= k < s.len() ==> !leq(#[trigger] s[k], e),
        j > 0 ==> leq(s[j - 1], e),
    ensures
        insert_sorted(s, e, leq) =~= s.subrange(0, j).push(e) + s.subrange(j, s.len() as int),
    decreases s.len(),
{
    if j == s.len() {
        if s.len() == 0 {
            assert(insert_sorted(s, e, leq) =~= s.subrange(0, j).push(e) + s.subrange(
                j,
                s.len() as int,
            ));
        } else {
            assert(leq(s.last(), e));
            assert(insert_sorted(s, e, leq) =~= s.subrange(0, j).push(e) + s.subrange(
                j,
                s.len() as int,
            ));
        }
    } else {
        assert(!leq(s[s.len() - 1], e));
        lemma_insert_sorted_splice(s.drop_last(), e, leq, j);
        assert(insert_sorted(s, e, leq) =~= s.subrange(0, j).push(e) + s.subrange(
            j,
            s.len() as int,
        ));
    }
}

/// Insertion keeps a sequence sorted under a total, transitive
/// comparison.
pub proof fn lemma_insert_sorted_sorted<T>(s: Seq<T>, e: T, leq: spec_fn(T, T) -> bool)
    requires
        sorted_by(s, leq),
        forall|a: T, b: T| #[trigger] leq(a, b) || #[trigger] leq(b, a),
        forall|a: T, b: T, c: T|
            #[trigger] leq(a, b) && #[trigger] leq(b, c) ==> leq(a, c),
    ensures
        sorted_by(insert_sorted(s, e, leq), leq),
    decreases s.len(),
{
    if s.len() == 0 {
    } else if leq(s.last(), e) {
        let out = s.push(e);
        assert forall|i: int, j: int| 0 <= i < j < out.len() implies leq(out[i], out[j]) by {
            if j == out.len() - 1 {
                if i < s.len() - 1 {
                    assert(leq(s[i], s.last()));
                }
            }
        }
    } else {
        let body = s.drop_last();
        assert forall|i: int, j: int| 0 <= i < j < body.len() implies leq(body[i], body[j]) by {
            assert(leq(s[i], s[j]));
        }
        lemma_insert_sorted_sorted(body, e, leq);
        let ins = insert_sorted(body, e, leq);
        let out = ins.push(s.last());
        assert forall|i: int, j: int| 0 <= i < j < out.len() implies leq(out[i], out[j]) by {
            if j == out.len() - 1 {
                assert(ins.contains(ins[i]));
                lemma_insert_sorted_contains(body, e, leq, ins[i]);
                if body.contains(ins[i]) {
                    let k = choose|k: int| 0 <= k < body.len() && body[k] == ins[i];
                    assert(leq(s[k], s.last()));
                } else {
                    assert(ins[i] == e);
                    assert(leq(e, s.last()));
                }
            }
        }
    }
}

/// A stable sort sorts, under a total, transitive comparison.
pub proof fn lemma_stable_sorted_sorted<T>(s: Seq<T>, leq: spec_fn(T, T) -> bool)
    requires
        forall|a: T, b: T| #[trigger] leq(a, b) || #[trigger] leq(b, a),
        forall|a: T, b: T, c: T|
            #[trigger] leq(a, b) && #[trigger] leq(b, c) ==> leq(a, c),
    ensures
        sorted_by(stable_sorted(s, leq), leq),
    decreases s.len(),
{
    if s.len() > 0 {
        lemma_stable_sorted_sorted(s.drop_last(), leq);
        lemma_insert_sorted_sorted(stable_sorted(s.drop_last(), leq), s.last(), leq);
    }
}

/// A stable sort keeps exactly the elements it was given.
pub proof fn lemma_stable_sorted_contains<T>(s: Seq<T>, leq: spec_fn(T, T) -> bool, x: T)
    ensures
        stable_sorted(s, leq).contains(x) <==> s.contains(x),
    decreases s.len(),
{
    if s.len() == 0 {
    } else {
        lemma_stable_sorted_contains(s.drop_last(), leq, x);
        lemma_insert_sorted_contains(stable_sorted(s.drop_last(), leq), s.last(), leq, x);
        assert(s =~= s.drop_last().push(s.last()));
        lemma_push_contains(s.drop_last(), s.last(), x);
    }
}

} // verus!
