//! Filtering sequences: the facts the tables use, and removal from a vector.
use vstd::prelude::*;

verus! {

/// A filtered sequence is an ordered selection of the source sequence: each
/// of its elements sits at some position of the source, in increasing order.
pub proof fn lemma_filter_embedding<A>(s: Seq<A>, p: spec_fn(A) -> bool) -> (f: spec_fn(int) -> int)
    ensures
        forall|k: int|
            0 <= k < s.filter(p).len() ==> 0 <= #[trigger] f(k) < s.len() && s.filter(p)[k] == s[f(k)]
                && p(s[f(k)]),
        forall|k1: int, k2: int|
            0 <= k1 < k2 < s.filter(p).len() ==> #[trigger] f(k1) < #[trigger] f(k2),
    decreases s.len(),
{
    reveal(Seq::filter);
    if s.len() == 0 {
        |k: int| 0int
    } else {
        let g = lemma_filter_embedding(s.drop_last(), p);
        let sub = s.drop_last().filter(p);
        assert(forall|k: int| 0 <= k < sub.len() ==> s.drop_last()[#[trigger] g(k)] == s[g(k)]);
        if p(s.last()) {
            let f = |k: int| if k < sub.len() { g(k) } else { s.len() - 1 };
            assert(s.filter(p) == sub.push(s.last()));
            assert forall|k1: int, k2: int| 0 <= k1 < k2 < s.filter(p).len() implies #[trigger] f(k1) < #[trigger] f(k2) by {
                if k2 < sub.len() {
                    assert(g(k1) < g(k2));
                }
            }
            f
        } else {
            assert(s.filter(p) == sub);
            g
        }
    }
}

/// Removes from `v` the elements that `drops` selects, keeping the others in
/// order; `keep` says in the specification which elements stay.
pub fn retain_kept<T, F: Fn(&T) -> bool>(v: &mut Vec<T>, drops: F, Ghost(keep): Ghost<spec_fn(T) -> bool>)
    requires
        forall|x: &T| #[trigger] drops.requires((x,)),
        forall|x: &T, r: bool| drops.ensures((x,), r) ==> r == !keep(*x),
    ensures
        final(v)@ == old(v)@.filter(keep),
{
    let ghost orig = old(v)@;
    let mut i: usize = 0;
    let ghost mut j: int = 0;
    assert(orig.take(0).filter(keep) =~= Seq::<T>::empty()) by {
        reveal(Seq::filter);
    }
    assert(orig.skip(0) =~= orig);
    while i < v.len()
        invariant
            0 <= j <= orig.len(),
            forall|x: &T| #[trigger] drops.requires((x,)),
            forall|x: &T, r: bool| drops.ensures((x,), r) ==> r == !keep(*x),
            v@ == orig.take(j).filter(keep) + orig.skip(j),
            i == orig.take(j).filter(keep).len(),
        decreases v@.len() - i,
    {
        proof {
            assert(orig.take(j).filter(keep).len() <= orig.take(j).len());
            assert(v@[i as int] == orig[j]);
            assert(orig.take(j + 1) =~= orig.take(j).push(orig[j]));
            orig.take(j).lemma_filter_push(orig[j], keep);
        }
        if drops(&v[i]) {
            v.remove(i);
            proof {
                assert(v@ =~= orig.take(j + 1).filter(keep) + orig.skip(j + 1));
            }
        } else {
            i = i + 1;
            proof {
                assert(v@ =~= orig.take(j + 1).filter(keep) + orig.skip(j + 1));
            }
        }
        proof {
            j = j + 1;
        }
    }
    proof {
        assert(orig.take(j).filter(keep).len() <= orig.take(j).len());
        assert(orig.take(j) =~= orig);
        assert(v@ =~= orig.filter(keep));
    }
}

} // verus!
