//! Products over sequences, and why their order does not matter.
use vstd::prelude::*;

verus! {

/// The product of `f` over the items of `s`.
pub open spec fn prod_by<A>(s: Seq<A>, f: spec_fn(A) -> int) -> int
    decreases s.len(),
{
    if s.len() == 0 {
        1
    } else {
        prod_by(s.drop_last(), f) * f(s.last())
    }
}

proof fn lemma_prod_remove<A>(s: Seq<A>, f: spec_fn(A) -> int, j: int)
    requires
        0 <= j < s.len(),
    ensures
        prod_by(s, f) == prod_by(s.remove(j), f) * f(s[j]),
    decreases s.len(),
{
    if j == s.len() - 1 {
        assert(s.remove(j) =~= s.drop_last());
    } else {
        let t = s.remove(j);
        assert(t.drop_last() =~= s.drop_last().remove(j));
        assert(t.last() == s.last());
        lemma_prod_remove(s.drop_last(), f, j);
        let a = prod_by(s.drop_last().remove(j), f);
        let b = f(s[j]);
        let c = f(s.last());
        assert(a * b * c == a * c * b) by (nonlinear_arith);
    }
}

/// The product does not depend on the order of the items: sequences that
/// hold the same items as often give the same product.
pub proof fn lemma_prod_permutation<A>(s1: Seq<A>, s2: Seq<A>, f: spec_fn(A) -> int)
    requires
        s1.to_multiset() == s2.to_multiset(),
    ensures
        prod_by(s1, f) == prod_by(s2, f),
    decreases s1.len(),
{
    broadcast use vstd::seq_lib::group_to_multiset_ensures;

    if s1.len() == 0 {
        assert(s1.to_multiset().len() == 0);
        assert(s2.to_multiset().len() == 0);
        assert(s2.len() == 0);
    } else {
        let x = s1.last();
        let rest = s1.drop_last();
        assert(rest.push(x) =~= s1);
        assert(s1.to_multiset() =~= rest.to_multiset().insert(x));
        assert(s2.to_multiset().count(x) > 0);
        assert(s2.contains(x));
        let j = choose|j: int| 0 <= j < s2.len() && s2[j] == x;
        assert(s2.remove(j).to_multiset() =~= s2.to_multiset().remove(x));
        assert(rest.to_multiset().insert(x).remove(x) =~= rest.to_multiset());
        lemma_prod_permutation(rest, s2.remove(j), f);
        lemma_prod_remove(s2, f, j);
    }
}

} // verus!
