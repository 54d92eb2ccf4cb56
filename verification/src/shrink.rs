//! The shrinking of the `quickcheck` crate.

use quickcheck::Arbitrary;
use vstd::prelude::*;

verus! {

/// `x - i`, then `x - i / 2`, `x - i / 4` and so on, while the quotient is
/// positive.
pub open spec fn halvings(x: u8, i: u8) -> Seq<u8>
    decreases i,
{
    if i == 0 {
        Seq::empty()
    } else {
        seq![(x - i) as u8] + halvings(x, i / 2)
    }
}

/// The values to try in place of `x`: nothing in place of zero, else zero and
/// then values that are ever closer to `x`.
pub open spec fn u8_shrinks(x: u8) -> Seq<u8> {
    if x == 0 {
        Seq::empty()
    } else {
        seq![0u8] + halvings(x, x / 2)
    }
}

/// `<u8 as quickcheck::Arbitrary>::shrink`: the values that the iterator
/// yields, which are zero and then `x` less half of it, less a quarter of it,
/// and so on.
#[verifier::external_body]
pub(crate) fn shrink_u8(x: u8) -> (candidates: Vec<u8>)
    ensures
        candidates@ == u8_shrinks(x),
{
    Arbitrary::shrink(&x).collect()
}

/// All values to try in place of `x` are smaller.
pub proof fn law_shrinks_are_smaller(x: u8)
    ensures
        forall|k: int| 0 <= k < u8_shrinks(x).len() ==> #[trigger] u8_shrinks(x)[k] < x,
{
    if x > 0 {
        lemma_halvings_are_smaller(x, x / 2);
    }
}

proof fn lemma_halvings_are_smaller(x: u8, i: u8)
    requires
        i <= x,
    ensures
        forall|k: int| 0 <= k < halvings(x, i).len() ==> #[trigger] halvings(x, i)[k] < x,
    decreases i,
{
    if i > 0 {
        lemma_halvings_are_smaller(x, i / 2);
        assert forall|k: int| 0 <= k < halvings(x, i).len() implies #[trigger] halvings(x, i)[k]
            < x by {
            if k > 0 {
                assert(halvings(x, i)[k] == halvings(x, i / 2)[k - 1]);
            }
        }
    }
}

/// Nothing is tried in place of zero. In place of another number zero is tried
/// first, and then values whose distance to it is half of it, a quarter of it
/// and so on, down to one.
pub proof fn law_shrinks_halve_the_distance(x: u8, k: int)
    ensures
        x == 0 ==> u8_shrinks(x).len() == 0,
        x > 0 ==> u8_shrinks(x).len() > 0 && u8_shrinks(x)[0] == 0,
        x > 0 && 0 <= k < u8_shrinks(x).len() - 1 ==> x - u8_shrinks(x)[k + 1] == (x
            - u8_shrinks(x)[k]) / 2,
        x > 0 ==> x - u8_shrinks(x).last() == 1,
{
    if x > 0 {
        lemma_halvings_halve(x, x / 2, k - 1);
    }
}

proof fn lemma_halvings_halve(x: u8, i: u8, k: int)
    requires
        i <= x,
    ensures
        i > 0 ==> halvings(x, i).len() > 0 && x - halvings(x, i)[0] == i && x - halvings(
            x,
            i,
        ).last() == 1,
        0 <= k < halvings(x, i).len() - 1 ==> x - halvings(x, i)[k + 1] == (x - halvings(x, i)[k])
            / 2,
    decreases i,
{
    if i > 0 {
        lemma_halvings_halve(x, i / 2, k - 1);
        let rest = halvings(x, i / 2);
        assert(forall|j: int| 0 <= j < rest.len() ==> halvings(x, i)[j + 1] == #[trigger] rest[j]);
        if i / 2 > 0 {
            assert(halvings(x, i).last() == rest.last());
        }
        if 0 < k < halvings(x, i).len() - 1 {
            assert(halvings(x, i)[k + 1] == rest[k]);
            assert(halvings(x, i)[k] == rest[k - 1]);
        }
    }
}

} // verus!
