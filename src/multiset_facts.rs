//! Facts on sequences seen as multisets, for the laws on what a rename keeps.
use vstd::prelude::*;

verus! {

/// Two sequences holding the same items, as often, still do after the same map.
pub proof fn lemma_map_keeps_multiset<A, B>(s: Seq<A>, t: Seq<A>, f: spec_fn(A) -> B)
    requires
        s.to_multiset() == t.to_multiset(),
    ensures
        s.map_values(f).to_multiset() == t.map_values(f).to_multiset(),
    decreases s.len(),
{
    broadcast use vstd::seq_lib::group_to_multiset_ensures;
    broadcast use vstd::multiset::group_multiset_axioms;

    assert(s.to_multiset().len() == s.len());
    assert(t.to_multiset().len() == t.len());
    if s.len() == 0 {
        assert(t.len() == 0);
        assert(s.map_values(f) =~= Seq::<B>::empty());
        assert(t.map_values(f) =~= Seq::<B>::empty());
    } else {
        let x = s.last();
        let init = s.drop_last();
        assert(init.push(x) =~= s);
        assert(s.to_multiset().count(x) > 0);
        assert(t.contains(x));
        let k = choose|k: int| 0 <= k < t.len() && t[k] == x;
        let rest = t.remove(k);
        assert(init.to_multiset() =~= s.to_multiset().remove(x));
        assert(rest.to_multiset() =~= t.to_multiset().remove(x));
        lemma_map_keeps_multiset(init, rest, f);
        assert(s.map_values(f) =~= init.map_values(f).push(f(x)));
        assert(t.map_values(f).remove(k) =~= rest.map_values(f));
        let mt = t.map_values(f).to_multiset();
        assert(rest.map_values(f).to_multiset() =~= mt.remove(f(x)));
        assert(mt.count(f(x)) > 0);
        assert(mt.remove(f(x)).insert(f(x)) =~= mt);
    }
}

/// Filtering a sequence without repeats leaves one without repeats.
pub proof fn lemma_filter_no_duplicates<A>(s: Seq<A>, p: spec_fn(A) -> bool)
    requires
        s.no_duplicates(),
    ensures
        s.filter(p).no_duplicates(),
    decreases s.len(),
{
    broadcast use vstd::seq_lib::group_filter_ensures;

    if s.len() == 0 {
        assert(s.filter(p) =~= Seq::<A>::empty()) by {
            reveal(Seq::filter);
        }
    } else {
        let init = s.drop_last();
        let x = s.last();
        assert(init.push(x) =~= s);
        lemma_filter_no_duplicates(init, p);
        init.lemma_filter_push(x, p);
        assert(!init.contains(x)) by {
            if init.contains(x) {
                let k = choose|k: int| 0 <= k < init.len() && init[k] == x;
                assert(s[k] == s[s.len() - 1]);
            }
        }
        assert(!init.filter(p).contains(x)) by {
            if init.filter(p).contains(x) {
                init.lemma_filter_contains_rev(p, x);
            }
        }
        let f = init.filter(p);
        if p(x) {
            assert forall|i: int, j: int| 0 <= i < f.len() + 1 && 0 <= j < f.len() + 1 && i != j
                implies #[trigger] f.push(x)[i] != #[trigger] f.push(x)[j] by {
                if i < f.len() && j == f.len() {
                    assert(f.contains(f[i]));
                } else if j < f.len() && i == f.len() {
                    assert(f.contains(f[j]));
                }
            }
        }
    }
}

/// Two sequences without repeats and with the same items hold them equally often.
pub proof fn lemma_same_set_same_multiset<A>(s: Seq<A>, t: Seq<A>)
    requires
        s.no_duplicates(),
        t.no_duplicates(),
        s.to_set() == t.to_set(),
    ensures
        s.to_multiset() == t.to_multiset(),
{
    broadcast use vstd::seq_lib::group_to_multiset_ensures;

    s.lemma_multiset_has_no_duplicates();
    t.lemma_multiset_has_no_duplicates();
    assert forall|x: A| s.to_multiset().count(x) == t.to_multiset().count(x) by {
        assert(s.to_set().contains(x) <==> s.contains(x));
        assert(t.to_set().contains(x) <==> t.contains(x));
    }
    assert(s.to_multiset() =~= t.to_multiset());
}

/// What a predicate keeps and what it drops make up the sequence, as a multiset.
pub proof fn lemma_filter_partition_multiset<A>(s: Seq<A>, p: spec_fn(A) -> bool, q: spec_fn(A) -> bool)
    requires
        forall|x: A| #[trigger] q(x) == !p(x),
    ensures
        s.filter(p).to_multiset().add(s.filter(q).to_multiset()) == s.to_multiset(),
    decreases s.len(),
{
    broadcast use vstd::seq_lib::group_to_multiset_ensures;
    broadcast use vstd::multiset::group_multiset_axioms;

    if s.len() == 0 {
        assert(s.filter(p) =~= Seq::<A>::empty()) by {
            reveal(Seq::filter);
        }
        assert(s.filter(q) =~= Seq::<A>::empty()) by {
            reveal(Seq::filter);
        }
        assert(s.filter(p).to_multiset().add(s.filter(q).to_multiset()) =~= s.to_multiset());
    } else {
        let init = s.drop_last();
        let x = s.last();
        assert(init.push(x) =~= s);
        lemma_filter_partition_multiset(init, p, q);
        init.lemma_filter_push(x, p);
        init.lemma_filter_push(x, q);
        assert(s.filter(p).to_multiset().add(s.filter(q).to_multiset()) =~= s.to_multiset());
    }
}

} // verus!
