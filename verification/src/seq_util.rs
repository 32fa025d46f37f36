//! Facts about sequences that the proofs of the tracker share, and what
//! the workers do to vectors besides.

use vstd::prelude::*;

verus! {

/// The sequence read from position `start` to its end and then from its
/// beginning up to `start`.
pub open spec fn rotate<A>(s: Seq<A>, start: int) -> Seq<A> {
    s.subrange(start, s.len() as int) + s.subrange(0, start)
}

/// Element of `rotate(s, start)` at position `k`.
pub proof fn lemma_rotate_index<A>(s: Seq<A>, start: int, k: int)
    requires
        0 <= start <= s.len(),
        0 <= k < s.len(),
    ensures
        rotate(s, start).len() == s.len(),
        rotate(s, start)[k] == s[if start + k < s.len() {
            start + k
        } else {
            start + k - s.len()
        }],
{
}

/// Filtering one element more either appends that element or changes nothing.
pub proof fn lemma_filter_step<A>(s: Seq<A>, pred: spec_fn(A) -> bool, i: int)
    requires
        0 <= i < s.len(),
    ensures
        s.take(i + 1).filter(pred) == if pred(s[i]) {
            s.take(i).filter(pred).push(s[i])
        } else {
            s.take(i).filter(pred)
        },
{
    reveal(Seq::filter);
    assert(s.take(i + 1).drop_last() =~= s.take(i));
    assert(s.take(i + 1).last() == s[i]);
}

pub proof fn lemma_filter_empty<A>(pred: spec_fn(A) -> bool)
    ensures
        Seq::<A>::empty().filter(pred) == Seq::<A>::empty(),
{
    reveal(Seq::filter);
}

/// Every element that a filter keeps is an element of the sequence and meets
/// the predicate.
pub proof fn lemma_filter_member<A>(s: Seq<A>, pred: spec_fn(A) -> bool, k: int)
    requires
        0 <= k < s.filter(pred).len(),
    ensures
        pred(s.filter(pred)[k]),
        exists|i: int| 0 <= i < s.len() && s[i] == s.filter(pred)[k],
    decreases s.len(),
{
    reveal(Seq::filter);
    if s.len() > 0 {
        let rest = s.drop_last().filter(pred);
        if k < rest.len() {
            lemma_filter_member(s.drop_last(), pred, k);
            let i = choose|i: int| 0 <= i < s.drop_last().len() && s.drop_last()[i] == rest[k];
            assert(s[i] == s.filter(pred)[k]);
        } else {
            assert(s[s.len() - 1] == s.filter(pred)[k]);
        }
    }
}

/// What a filter keeps of a prefix is a prefix of what it keeps of the whole.
pub proof fn lemma_filter_prefix<A>(s: Seq<A>, pred: spec_fn(A) -> bool, k: int, j: int)
    requires
        0 <= k <= j <= s.len(),
    ensures
        s.take(k).filter(pred).len() <= s.take(j).filter(pred).len(),
        s.take(k).filter(pred) == s.take(j).filter(pred).take(
            s.take(k).filter(pred).len() as int,
        ),
    decreases j - k,
{
    if k == j {
        assert(s.take(j).filter(pred).take(s.take(k).filter(pred).len() as int) =~= s.take(
            k,
        ).filter(pred));
    } else {
        lemma_filter_prefix(s, pred, k, j - 1);
        lemma_filter_step(s, pred, j - 1);
        let short = s.take(k).filter(pred);
        let mid = s.take(j - 1).filter(pred);
        let long = s.take(j).filter(pred);
        assert(long.take(short.len() as int) =~= mid.take(short.len() as int));
    }
}

/// `Vec::shrink_to_fit`: gives back memory that the vector does not need,
/// and leaves its elements as they are.
#[verifier::external_body]
pub(crate) fn shrink_to_fit<T>(v: &mut Vec<T>)
    ensures
        final(v)@ == old(v)@,
{
    v.shrink_to_fit()
}

} // verus!
