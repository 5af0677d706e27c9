use vstd::prelude::*;

use itertools::Itertools;

use crate::geometry::Vec3;

verus! {

/// The `k`-element sub-sequences of `s`, in lexicographic order of the
/// positions they take: those that take the first element, then those that
/// do not. There is one (empty) sub-sequence of zero elements, and none of
/// more elements than `s` has.
pub open spec fn combinations(s: Seq<Vec3>, k: nat) -> Seq<Seq<Vec3>>
    decreases s.len(),
{
    if k == 0 {
        seq![Seq::empty()]
    } else if s.len() < k {
        Seq::empty()
    } else {
        combinations(s.drop_first(), (k - 1) as nat).map_values(|c: Seq<Vec3>| seq![s[0]] + c)
            + combinations(s.drop_first(), k)
    }
}

/// All `k`-element combinations of `items`, from `Itertools::combinations`
/// on an owning iterator over a copy of `items`, collected in the order the
/// iterator yields them. The contract states what the itertools
/// documentation and source give: the combinations of positions in
/// lexicographic order, one empty combination for `k == 0`, and none when
/// `k` exceeds the number of items.
#[verifier::external_body]
pub fn k_combinations(items: &Vec<Vec3>, k: usize) -> (r: Vec<Vec<Vec3>>)
    ensures
        r@.map_values(|c: Vec<Vec3>| c@) == combinations(items@, k as nat),
{
    items.clone().into_iter().combinations(k).collect()
}

} // verus!
