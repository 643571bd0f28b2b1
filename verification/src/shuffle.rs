//! Random ordering of a result set: a uniform permutation built from a
//! trusted random index source.

use vstd::prelude::*;
use rand::Rng;

verus! {

broadcast use {
    vstd::seq_lib::group_seq_properties,
    vstd::seq_lib::group_to_multiset_ensures,
    vstd::multiset::group_multiset_axioms,
};

use crate::record::WordRecord;
use crate::record::views_of;

/// Relies on `rand::Rng::random_range` over `0..n` (rand crate): the
/// result is drawn from the range, so it lies below `n`.  The empty range,
/// which that method refuses, is excluded by the precondition.  Nothing
/// more is assumed of the draw: two calls may differ.
#[verifier::external_body]
fn random_index_below(n: usize) -> (r: usize)
    requires
        0 < n,
    ensures
        r < n,
{
    rand::rng().random_range(0..n)
}

/// Reorders records at random: the result holds exactly the given
/// records, each as often as it was given, in some order.  Drawing the
/// element of each position uniformly from what remains makes every
/// permutation equally likely when the underlying draws are uniform.
#[verifier::loop_isolation(false)]
pub fn shuffle_words(words: Vec<WordRecord>) -> (out: Vec<WordRecord>)
    ensures
        out@.len() == words@.len(),
        views_of(out@).to_multiset() == views_of(words@).to_multiset(),
{
    let ghost orig = views_of(words@);
    let mut rest = words;
    let mut out: Vec<WordRecord> = Vec::new();
    proof {
        assert(views_of(out@) =~= Seq::<crate::record::WordView>::empty());
        assert(views_of(out@).to_multiset().add(views_of(rest@).to_multiset())
            =~= orig.to_multiset());
    }
    while rest.len() > 0
        invariant
            views_of(out@).to_multiset().add(views_of(rest@).to_multiset())
                == orig.to_multiset(),
            out@.len() + rest@.len() == orig.len(),
        decreases rest.len(),
    {
        let i = random_index_below(rest.len());
        let ghost prev_rest = views_of(rest@);
        let ghost prev_out = views_of(out@);
        let w = rest.remove(i);
        out.push(w);
        proof {
            assert(prev_rest[i as int] == w@);
            assert(views_of(rest@) =~= prev_rest.remove(i as int));
            assert(views_of(out@) =~= prev_out.push(w@));
            assert(views_of(out@).to_multiset() =~= prev_out.to_multiset().insert(w@));
            assert(views_of(rest@).to_multiset() =~= prev_rest.to_multiset().remove(w@));
            assert(prev_rest.to_multiset().count(w@) > 0);
            assert(views_of(out@).to_multiset().add(views_of(rest@).to_multiset())
                =~= prev_out.to_multiset().add(prev_rest.to_multiset()));
        }
    }
    out
}

} // verus!
