//! Facts about sequences used across the crate.
use vstd::prelude::*;

verus! {

pub proof fn lemma_push_contains<A>(s: Seq<A>, v: A, x: A)
    ensures
        s.push(v).contains(x) <==> (s.contains(x) || x == v),
{
    if s.push(v).contains(x) {
        let k = choose|k: int| 0 <= k < s.push(v).len() && s.push(v)[k] == x;
        if k < s.len() {
            assert(s[k] == x);
        }
    }
    if s.contains(x) {
        let k = choose|k: int| 0 <= k < s.len() && s[k] == x;
        assert(s.push(v)[k] == x);
    }
    if x == v {
        assert(s.push(v)[s.len() as int] == v);
    }
}

pub proof fn lemma_push_to_set<A>(s: Seq<A>, v: A)
    ensures
        s.push(v).to_set() == s.to_set().insert(v),
{
    assert forall|x: A| s.push(v).to_set().contains(x) <==> s.to_set().insert(v).contains(x) by {
        lemma_push_contains(s, v, x);
    }
    assert(s.push(v).to_set() =~= s.to_set().insert(v));
}

pub proof fn lemma_take_succ_contains<A>(s: Seq<A>, i: int, x: A)
    requires
        0 <= i < s.len(),
    ensures
        s.take(i + 1).contains(x) <==> (s.take(i).contains(x) || x == s[i]),
{
    assert(s.take(i + 1) =~= s.take(i).push(s[i]));
    lemma_push_contains(s.take(i), s[i], x);
}

pub proof fn lemma_take_succ_to_set<A>(s: Seq<A>, i: int)
    requires
        0 <= i < s.len(),
    ensures
        s.take(i + 1).to_set() == s.take(i).to_set().insert(s[i]),
{
    assert(s.take(i + 1) =~= s.take(i).push(s[i]));
    lemma_push_to_set(s.take(i), s[i]);
}

pub proof fn lemma_push_no_duplicates<A>(s: Seq<A>, v: A)
    requires
        s.no_duplicates(),
        !s.contains(v),
    ensures
        s.push(v).no_duplicates(),
{
    assert forall|i: int, j: int| 0 <= i < s.push(v).len() && 0 <= j < s.push(v).len() && i != j implies s.push(v)[i] != s.push(v)[j] by {
        if i < s.len() && j == s.len() {
            assert(s.contains(s[i]));
        }
        if j < s.len() && i == s.len() {
            assert(s.contains(s[j]));
        }
    }
}

/// A sequence without repeats, all of whose elements lie in a finite set, is
/// no longer than the set is large.
pub proof fn lemma_no_dup_len_le<A>(s: Seq<A>, set: Set<A>)
    requires
        s.no_duplicates(),
        set.finite(),
        forall|i: int| 0 <= i < s.len() ==> set.contains(#[trigger] s[i]),
    ensures
        s.len() <= set.len(),
{
    s.unique_seq_to_set();
    assert(s.to_set().subset_of(set));
    vstd::set_lib::lemma_len_subset(s.to_set(), set);
}

pub proof fn lemma_concat_contains<A>(a: Seq<A>, b: Seq<A>, x: A)
    ensures
        (a + b).contains(x) <==> (a.contains(x) || b.contains(x)),
{
    if (a + b).contains(x) {
        let k = choose|k: int| 0 <= k < (a + b).len() && (a + b)[k] == x;
        if k < a.len() {
            assert(a[k] == x);
        } else {
            assert(b[k - a.len()] == x);
        }
    }
    if a.contains(x) {
        let k = choose|k: int| 0 <= k < a.len() && a[k] == x;
        assert((a + b)[k] == x);
    }
    if b.contains(x) {
        let k = choose|k: int| 0 <= k < b.len() && b[k] == x;
        assert((a + b)[a.len() + k] == x);
    }
}

pub proof fn lemma_small_contains<A>(x: A, e: A)
    ensures
        !Seq::<A>::empty().contains(x),
        seq![e].contains(x) <==> x == e,
{
    if seq![e].contains(x) {
        let k = choose|k: int| 0 <= k < 1 && seq![e][k] == x;
    }
    if x == e {
        assert(seq![e][0] == x);
    }
}

} // verus!
