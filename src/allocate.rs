//! Numeric identities: a shuffled run of consecutive integers for each batch of files.
use vstd::prelude::*;
use rand::rngs::StdRng;
use rand::seq::SliceRandom;

verus! {

/// rand's `StdRng`, passed in by the caller as the source of every random choice, so that
/// a seeded generator replays a run. Opaque here: it is only handed on to rand.
#[verifier::external_type_specification]
#[verifier::external_body]
pub struct ExStdRng(StdRng);

/// Relies on rand's `SliceRandom::shuffle` (0.8): a Fisher-Yates pass made of swaps
/// only, so the vector holds the same values afterwards, in some order.
#[verifier::external_body]
fn shuffle_ids(v: &mut Vec<u32>, rng: &mut StdRng)
    ensures
        final(v)@.to_multiset() == old(v)@.to_multiset(),
{
    v.shuffle(rng);
}

/// `ids` holds each of `start, ..., start + count - 1` once and nothing else.
pub open spec fn is_range_permutation(ids: Seq<u32>, start: int, count: int) -> bool {
    &&& ids.len() == count
    &&& ids.no_duplicates()
    &&& forall|x: u32| ids.contains(x) <==> start <= x < start + count
}

/// A permutation of `start, ..., start + count - 1`, every order possible.
pub fn allocate(start: u32, count: u32, rng: &mut StdRng) -> (r: Vec<u32>)
    requires
        start + count <= u32::MAX + 1,
    ensures
        is_range_permutation(r@, start as int, count as int),
{
    broadcast use vstd::seq_lib::group_to_multiset_ensures;

    let mut ids: Vec<u32> = Vec::new();
    let mut k: u32 = 0;
    while k < count
        invariant
            k <= count,
            start + count <= u32::MAX + 1,
            ids@.len() == k,
            forall|j: int| 0 <= j < k ==> ids@[j] == start + j,
        decreases count - k,
    {
        ids.push(start + k);
        k = k + 1;
    }
    let ghost before = ids@;
    assert(is_range_permutation(before, start as int, count as int)) by {
        assert forall|x: u32| before.contains(x) implies start <= x < start + count by {
            let j = choose|j: int| 0 <= j < before.len() && before[j] == x;
        }
        assert forall|x: u32| start <= x < start + count implies before.contains(x) by {
            assert(before[x - start] == x);
        }
    }
    shuffle_ids(&mut ids, rng);
    proof {
        before.lemma_multiset_has_no_duplicates();
        ids@.lemma_multiset_has_no_duplicates_conv();
        assert forall|x: u32| ids@.contains(x) <==> before.contains(x) by {
            assert(ids@.to_multiset().count(x) == before.to_multiset().count(x));
        }
        assert(ids@.len() == ids@.to_multiset().len());
        assert(before.len() == before.to_multiset().len());
        assert(ids@.no_duplicates());
        assert forall|x: u32| ids@.contains(x) <==> start <= x < start + count by {
            assert(ids@.contains(x) <==> before.contains(x));
        }
    }
    ids
}

} // verus!
