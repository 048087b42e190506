//! Splitting two directory listings into the names they share and the names only one holds.
use vstd::prelude::*;

verus! {

/// The listing as a sequence of names.
pub open spec fn names_of(v: Seq<String>) -> Seq<Seq<char>> {
    v.map_values(|s: String| s@)
}

/// The names of `a` that `b` also holds, in the order of `a`.
pub open spec fn shared(a: Seq<Seq<char>>, b: Seq<Seq<char>>) -> Seq<Seq<char>> {
    a.filter(|n: Seq<char>| b.contains(n))
}

/// The names of `a` that `b` does not hold, in the order of `a`.
pub open spec fn exclusive(a: Seq<Seq<char>>, b: Seq<Seq<char>>) -> Seq<Seq<char>> {
    a.filter(|n: Seq<char>| !b.contains(n))
}

fn holds_name(files: &Vec<String>, name: &String) -> (r: bool)
    ensures
        r == names_of(files@).contains(name@),
{
    let mut i: usize = 0;
    while i < files.len()
        invariant
            i <= files@.len(),
            forall|j: int| 0 <= j < i ==> files@[j]@ != name@,
        decreases files@.len() - i,
    {
        if files[i] == *name {
            assert(names_of(files@)[i as int] == name@);
            return true;
        }
        i = i + 1;
    }
    assert(!names_of(files@).contains(name@)) by {
        if names_of(files@).contains(name@) {
            let k = choose|k: int| 0 <= k < names_of(files@).len() && names_of(files@)[k] == name@;
            assert(files@[k]@ == name@);
        }
    }
    false
}

/// Keeps the names of `files1` that are (`keep_shared`) or are not in `files2`.
fn select(files1: &Vec<String>, files2: &Vec<String>, keep_shared: bool) -> (r: Vec<String>)
    ensures
        keep_shared ==> names_of(r@) == shared(names_of(files1@), names_of(files2@)),
        !keep_shared ==> names_of(r@) == exclusive(names_of(files1@), names_of(files2@)),
{
    let ghost a = names_of(files1@);
    let ghost b = names_of(files2@);
    let ghost p = |n: Seq<char>| b.contains(n) == keep_shared;
    let mut r: Vec<String> = Vec::new();
    let mut i: usize = 0;
    while i < files1.len()
        invariant
            i <= files1@.len(),
            a == names_of(files1@),
            b == names_of(files2@),
            p == (|n: Seq<char>| b.contains(n) == keep_shared),
            names_of(r@) == a.take(i as int).filter(p),
        decreases files1@.len() - i,
    {
        let found = holds_name(files2, &files1[i]);
        proof {
            assert(a.take(i + 1) =~= a.take(i as int).push(a[i as int]));
            a.take(i as int).lemma_filter_push(a[i as int], p);
        }
        if found == keep_shared {
            let ghost old_r = r@;
            r.push(files1[i].clone());
            assert(names_of(r@) =~= names_of(old_r).push(a[i as int]));
        }
        i = i + 1;
    }
    assert(a.take(i as int) =~= a);
    if keep_shared {
        assert(p =~= (|n: Seq<char>| b.contains(n)));
    } else {
        assert(p =~= (|n: Seq<char>| !b.contains(n)));
    }
    r
}

/// The files of `files1` whose name `files2` also holds, in the order of `files1`.
pub fn get_paired_files(files1: Vec<String>, files2: Vec<String>) -> (r: Vec<String>)
    ensures
        names_of(r@) == shared(names_of(files1@), names_of(files2@)),
{
    select(&files1, &files2, true)
}

/// The files of `files1` whose name `files2` does not hold, in the order of `files1`.
pub fn get_unpaired_files(files1: Vec<String>, files2: Vec<String>) -> (r: Vec<String>)
    ensures
        names_of(r@) == exclusive(names_of(files1@), names_of(files2@)),
{
    select(&files1, &files2, false)
}

/// The names of `a` shared with `b` and those exclusive to `a` are as many as `a` holds.
pub proof fn lemma_partition_len(a: Seq<Seq<char>>, b: Seq<Seq<char>>)
    ensures
        shared(a, b).len() + exclusive(a, b).len() == a.len(),
    decreases a.len(),
{
    if a.len() > 0 {
        let p = |n: Seq<char>| b.contains(n);
        let q = |n: Seq<char>| !b.contains(n);
        let init = a.drop_last();
        lemma_partition_len(init, b);
        assert(init.push(a.last()) =~= a);
        init.lemma_filter_push(a.last(), p);
        init.lemma_filter_push(a.last(), q);
    }
}

/// Every name of `a` is either shared with `b` or exclusive to `a`, never both; the
/// names shared seen from `a` are those shared seen from `b`; so the paired names with the
/// names exclusive to each side give back both listings.
pub proof fn lemma_pairing_complete(a: Seq<Seq<char>>, b: Seq<Seq<char>>)
    ensures
        shared(a, b).to_set() + exclusive(a, b).to_set() == a.to_set(),
        shared(a, b).to_set() + exclusive(b, a).to_set() == b.to_set(),
        shared(a, b).to_set() == shared(b, a).to_set(),
        shared(a, b).to_set().disjoint(exclusive(a, b).to_set()),
        shared(a, b).to_set().disjoint(exclusive(b, a).to_set()),
        exclusive(a, b).to_set().disjoint(exclusive(b, a).to_set()),
{
    broadcast use vstd::seq_lib::group_filter_ensures;
    broadcast use Seq::lemma_filter_contains_rev;

    let pa = |n: Seq<char>| b.contains(n);
    let qa = |n: Seq<char>| !b.contains(n);
    let pb = |n: Seq<char>| a.contains(n);
    let qb = |n: Seq<char>| !a.contains(n);
    assert forall|n: Seq<char>| shared(a, b).contains(n) <==> (a.contains(n) && b.contains(n)) by {
        if a.contains(n) && b.contains(n) {
            a.lemma_filter_contains_rev(pa, n);
        }
    }
    assert forall|n: Seq<char>| shared(b, a).contains(n) <==> (a.contains(n) && b.contains(n)) by {
        if a.contains(n) && b.contains(n) {
            b.lemma_filter_contains_rev(pb, n);
        }
    }
    assert forall|n: Seq<char>| exclusive(a, b).contains(n) <==> (a.contains(n) && !b.contains(n)) by {
        if a.contains(n) && !b.contains(n) {
            a.lemma_filter_contains_rev(qa, n);
        }
    }
    assert forall|n: Seq<char>| exclusive(b, a).contains(n) <==> (b.contains(n) && !a.contains(n)) by {
        if b.contains(n) && !a.contains(n) {
            b.lemma_filter_contains_rev(qb, n);
        }
    }
    assert(shared(a, b).to_set() + exclusive(a, b).to_set() =~= a.to_set());
    assert(shared(a, b).to_set() + exclusive(b, a).to_set() =~= b.to_set());
    assert(shared(a, b).to_set() =~= shared(b, a).to_set());
}

} // verus!
