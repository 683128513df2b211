//! Product of a sequence of arbitrary-precision integers by balanced
//! binary splitting.

use vstd::prelude::*;

use crate::big::Big;

verus! {

/// Below this length the product is taken by a plain left-to-right loop.
pub const SPLIT_THRESHOLD: usize = 24;

/// The product of a sequence of integers, folded from the left.
pub open spec fn prod_ints(s: Seq<int>) -> int
    decreases s.len(),
{
    if s.len() == 0 {
        1
    } else {
        prod_ints(s.drop_last()) * s.last()
    }
}

/// The values held by a sequence of arbitrary-precision integers.
pub open spec fn views_of(s: Seq<Big>) -> Seq<int> {
    s.map_values(|b: Big| b@)
}

/// Splitting a product at any midpoint agrees with folding it from the
/// left: the product of a sequence is the product of any front part times
/// the product of the rest.
pub proof fn lemma_prod_split(s: Seq<int>, m: int)
    requires
        0 <= m <= s.len(),
    ensures
        prod_ints(s) == prod_ints(s.subrange(0, m)) * prod_ints(
            s.subrange(m, s.len() as int),
        ),
    decreases s.len() - m,
{
    if m == s.len() {
        assert(s.subrange(0, m) =~= s);
        assert(s.subrange(m, s.len() as int).len() == 0);
    } else {
        let t = s.drop_last();
        lemma_prod_split(t, m);
        assert(s.subrange(0, m) =~= t.subrange(0, m));
        assert(s.subrange(m, s.len() as int).drop_last() =~= t.subrange(m, t.len() as int));
        assert(s.subrange(m, s.len() as int).last() == s.last());
        assert(prod_ints(s.subrange(m, s.len() as int)) == prod_ints(
            t.subrange(m, t.len() as int),
        ) * s.last());
        assert(prod_ints(t.subrange(0, m)) * prod_ints(t.subrange(m, t.len() as int)) * s.last()
            == prod_ints(s.subrange(0, m)) * (prod_ints(t.subrange(m, t.len() as int))
            * s.last())) by (nonlinear_arith)
            requires
                prod_ints(t.subrange(0, m)) == prod_ints(s.subrange(0, m)),
                prod_ints(t.subrange(m, t.len() as int)) == prod_ints(
                    s.subrange(m, s.len() as int).drop_last(),
                ),
        ;
    }
}

/// The product of a slice of big integers, by balanced binary splitting:
/// short slices are folded left to right; longer ones are split at the
/// midpoint and the halves' products are multiplied.
pub fn prod(set: &[Big]) -> (r: Big)
    ensures
        r@ == prod_ints(views_of(set@)),
    decreases set@.len(),
{
    let n = set.len();
    if n < SPLIT_THRESHOLD {
        let mut acc = Big::from_u64(1);
        let mut i: usize = 0;
        while i < n
            invariant
                0 <= i <= n,
                n == set@.len(),
                acc@ == prod_ints(views_of(set@).take(i as int)),
            decreases n - i,
        {
            let next = acc.mul(vstd::slice::slice_index_get(set, i));
            proof {
                assert(views_of(set@).take(i + 1).drop_last() =~= views_of(set@).take(i as int));
                assert(views_of(set@).take(i + 1).last() == set@[i as int]@);
            }
            acc = next;
            i = i + 1;
        }
        proof {
            assert(views_of(set@).take(n as int) =~= views_of(set@));
        }
        acc
    } else {
        let m = n / 2;
        let left = prod(vstd::slice::slice_subrange(set, 0, m));
        let right = prod(vstd::slice::slice_subrange(set, m, n));
        proof {
            assert(views_of(set@.subrange(0, m as int)) =~= views_of(set@).subrange(0, m as int));
            assert(views_of(set@.subrange(m as int, n as int)) =~= views_of(set@).subrange(
                m as int,
                n as int,
            ));
            lemma_prod_split(views_of(set@), m as int);
        }
        left.mul(&right)
    }
}

} // verus!
