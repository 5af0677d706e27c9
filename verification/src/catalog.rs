use vstd::prelude::*;

use crate::assembly::blocks_view;
use crate::blocks::{count_true, cube_block_spec, CubeBlock, CubeBlockView};

verus! {

/// A catalog entry: the point mask of a block and its subtype names on large
/// and small grids.
pub type CatalogEntry = ([bool; 20], &'static str, &'static str);

pub open spec fn entry_view(e: CatalogEntry) -> (Seq<bool>, Seq<char>, Seq<char>) {
    (e.0@, e.1@, e.2@)
}

/// The armor block shapes, in their listed order.
pub open spec fn catalog_spec() -> Seq<(Seq<bool>, Seq<char>, Seq<char>)> {
    seq![
        (seq![true, true, true, true, true, true, true, true, true, true, true, true, true, true, true, true, true, true, true, true], "LargeBlockArmorBlock"@, "SmallBlockArmorBlock"@),
        (seq![true, true, true, false, false, false, false, false, true, true, false, false, true, true, true, true, true, true, true, true], "LargeBlockArmorSlope"@, "SmallBlockArmorSlope"@),
        (seq![false, false, true, false, false, false, false, false, false, true, false, false, true, true, true, false, true, false, false, true], "LargeBlockArmorCorner"@, "SmallBlockArmorCorner"@),
        (seq![true, true, true, true, true, true, true, true, true, false, true, true, true, false, false, true, false, true, true, true], "LargeBlockArmorCornerInv"@, "SmallBlockArmorCornerInv"@),
        (seq![true, false, false, false, false, false, false, false, true, false, false, false, true, true, true, true, true, true, true, true], "LargeBlockArmorCornerSquare"@, "SmallBlockArmorCornerSquare"@),
        (seq![true, true, true, true, false, true, false, false, true, true, true, false, true, true, true, true, true, true, true, true], "LargeBlockArmorCornerSquareInverted"@, "SmallBlockArmorCornerSquareInverted"@),
        (seq![true, true, true, false, false, false, false, false, true, true, true, true, true, true, true, true, true, true, true, true], "LargeBlockArmorSlope2Base"@, "SmallBlockArmorSlope2Base"@),
        (seq![false, false, false, false, false, false, false, false, true, true, false, false, true, true, true, true, true, true, true, true], "LargeBlockArmorSlope2Tip"@, "SmallBlockArmorSlope2Tip"@),
        (seq![true, true, true, true, true, false, false, false, true, true, false, false, true, true, true, true, true, false, false, false], "LargeHalfArmorBlock"@, "HalfArmorBlock"@),
        (seq![false, false, false, false, false, false, false, false, true, true, false, false, true, true, true, true, true, false, false, false], "LargeHalfSlopeArmorBlock"@, "HalfSlopeArmorBlock"@),
        (seq![false, false, false, false, false, false, false, false, false, false, false, true, false, false, false, false, true, false, true, true], "LargeBlockArmorHalfSlopeCorner"@, "SmallBlockArmorHalfSlopeCorner"@),
        (seq![false, false, false, false, false, false, false, false, true, true, true, false, true, true, true, true, false, true, false, false], "LargeBlockArmorHalfCorner"@, "SmallBlockArmorHalfCorner"@),
        (seq![true, false, false, false, false, false, false, false, true, true, true, false, true, true, true, true, false, true, false, false], "LargeBlockArmorHalfSlopedCorner"@, "SmallBlockArmorHalfSlopedCorner"@),
        (seq![true, false, false, false, false, false, false, false, true, true, false, false, true, true, true, true, true, true, false, false], "LargeBlockArmorCorner2Base"@, "SmallBlockArmorCorner2Base"@),
        (seq![false, false, false, false, false, false, false, false, false, true, false, false, false, true, true, false, true, false, false, true], "LargeBlockArmorCorner2Tip"@, "SmallBlockArmorCorner2Tip"@),
        (seq![true, true, true, true, true, true, true, true, true, true, true, true, true, true, false, true, false, true, true, true], "LargeBlockArmorInvCorner2Base"@, "SmallBlockArmorInvCorner2Base"@),
        (seq![true, true, true, true, true, true, true, true, true, false, true, true, true, false, false, true, false, true, true, false], "LargeBlockArmorInvCorner2Tip"@, "SmallBlockArmorInvCorner2Tip"@),
        (seq![false, true, true, true, true, true, true, true, true, true, true, true, true, true, true, true, true, true, true, true], "LargeBlockArmorHalfSlopeCornerInverted"@, "SmallBlockArmorHalfSlopeCornerInverted"@),
        (seq![true, true, false, true, false, true, true, false, true, true, true, true, true, true, true, true, true, true, true, true], "LargeBlockArmorHalfSlopeInverted"@, "SmallBlockArmorHalfSlopeInverted"@),
        (seq![false, false, false, false, false, false, false, false, false, false, true, false, true, false, false, true, false, true, true, true], "LargeBlockArmorSlopedCornerTip"@, "SmallBlockArmorSlopedCornerTip"@),
        (seq![true, true, true, false, true, false, false, true, true, true, true, true, true, true, true, true, true, true, true, true], "LargeBlockArmorSlopedCornerBase"@, "SmallBlockArmorSlopedCornerBase"@),
        (seq![true, false, false, false, false, false, false, false, true, true, true, false, true, true, true, true, true, true, true, true], "LargeBlockArmorSlopedCorner"@, "SmallBlockArmorSlopedCorner"@),
        (seq![false, false, false, false, false, false, false, false, true, true, true, false, true, true, true, true, true, true, true, true], "LargeBlockArmorHalfSlopedCornerBase"@, "SmallBlockArmorHalfSlopedCornerBase"@),
    ]
}

/// The entries with exactly `k` points, in their order.
pub open spec fn entries_with_count(
    es: Seq<(Seq<bool>, Seq<char>, Seq<char>)>,
    k: nat,
) -> Seq<(Seq<bool>, Seq<char>, Seq<char>)> {
    es.filter(|e: (Seq<bool>, Seq<char>, Seq<char>)| count_true(e.0, 20) == k)
}

/// The entries ordered by their number of points, largest first, entries
/// with equally many points keeping their order (a stable sort).
pub open spec fn sorted_by_count(es: Seq<(Seq<bool>, Seq<char>, Seq<char>)>) -> Seq<
    (Seq<bool>, Seq<char>, Seq<char>),
> {
    count_groups(es, 21).flatten()
}

/// The groups of entries with 20, 19, ... points, the first `m` of them.
pub open spec fn count_groups(es: Seq<(Seq<bool>, Seq<char>, Seq<char>)>, m: int) -> Seq<
    Seq<(Seq<bool>, Seq<char>, Seq<char>)>,
> {
    Seq::new(m as nat, |i: int| entries_with_count(es, (20 - i) as nat))
}

/// The block catalog: the shapes in order of their number of points, largest
/// first.
pub open spec fn standard_blocks_spec() -> Seq<CubeBlockView> {
    sorted_by_count(catalog_spec()).map_values(
        |e: (Seq<bool>, Seq<char>, Seq<char>)| cube_block_spec(e.0, e.1, e.2),
    )
}

/// The armor block shapes, in their listed order.
pub fn catalog_entries() -> (r: Vec<CatalogEntry>)
    ensures
        r@.map_values(|e: CatalogEntry| entry_view(e)) == catalog_spec(),
{
    let r: Vec<CatalogEntry> = vec![
        ([true, true, true, true, true, true, true, true, true, true, true, true, true, true, true, true, true, true, true, true], "LargeBlockArmorBlock", "SmallBlockArmorBlock"),
        ([true, true, true, false, false, false, false, false, true, true, false, false, true, true, true, true, true, true, true, true], "LargeBlockArmorSlope", "SmallBlockArmorSlope"),
        ([false, false, true, false, false, false, false, false, false, true, false, false, true, true, true, false, true, false, false, true], "LargeBlockArmorCorner", "SmallBlockArmorCorner"),
        ([true, true, true, true, true, true, true, true, true, false, true, true, true, false, false, true, false, true, true, true], "LargeBlockArmorCornerInv", "SmallBlockArmorCornerInv"),
        ([true, false, false, false, false, false, false, false, true, false, false, false, true, true, true, true, true, true, true, true], "LargeBlockArmorCornerSquare", "SmallBlockArmorCornerSquare"),
        ([true, true, true, true, false, true, false, false, true, true, true, false, true, true, true, true, true, true, true, true], "LargeBlockArmorCornerSquareInverted", "SmallBlockArmorCornerSquareInverted"),
        ([true, true, true, false, false, false, false, false, true, true, true, true, true, true, true, true, true, true, true, true], "LargeBlockArmorSlope2Base", "SmallBlockArmorSlope2Base"),
        ([false, false, false, false, false, false, false, false, true, true, false, false, true, true, true, true, true, true, true, true], "LargeBlockArmorSlope2Tip", "SmallBlockArmorSlope2Tip"),
        ([true, true, true, true, true, false, false, false, true, true, false, false, true, true, true, true, true, false, false, false], "LargeHalfArmorBlock", "HalfArmorBlock"),
        ([false, false, false, false, false, false, false, false, true, true, false, false, true, true, true, true, true, false, false, false], "LargeHalfSlopeArmorBlock", "HalfSlopeArmorBlock"),
        ([false, false, false, false, false, false, false, false, false, false, false, true, false, false, false, false, true, false, true, true], "LargeBlockArmorHalfSlopeCorner", "SmallBlockArmorHalfSlopeCorner"),
        ([false, false, false, false, false, false, false, false, true, true, true, false, true, true, true, true, false, true, false, false], "LargeBlockArmorHalfCorner", "SmallBlockArmorHalfCorner"),
        ([true, false, false, false, false, false, false, false, true, true, true, false, true, true, true, true, false, true, false, false], "LargeBlockArmorHalfSlopedCorner", "SmallBlockArmorHalfSlopedCorner"),
        ([true, false, false, false, false, false, false, false, true, true, false, false, true, true, true, true, true, true, false, false], "LargeBlockArmorCorner2Base", "SmallBlockArmorCorner2Base"),
        ([false, false, false, false, false, false, false, false, false, true, false, false, false, true, true, false, true, false, false, true], "LargeBlockArmorCorner2Tip", "SmallBlockArmorCorner2Tip"),
        ([true, true, true, true, true, true, true, true, true, true, true, true, true, true, false, true, false, true, true, true], "LargeBlockArmorInvCorner2Base", "SmallBlockArmorInvCorner2Base"),
        ([true, true, true, true, true, true, true, true, true, false, true, true, true, false, false, true, false, true, true, false], "LargeBlockArmorInvCorner2Tip", "SmallBlockArmorInvCorner2Tip"),
        ([false, true, true, true, true, true, true, true, true, true, true, true, true, true, true, true, true, true, true, true], "LargeBlockArmorHalfSlopeCornerInverted", "SmallBlockArmorHalfSlopeCornerInverted"),
        ([true, true, false, true, false, true, true, false, true, true, true, true, true, true, true, true, true, true, true, true], "LargeBlockArmorHalfSlopeInverted", "SmallBlockArmorHalfSlopeInverted"),
        ([false, false, false, false, false, false, false, false, false, false, true, false, true, false, false, true, false, true, true, true], "LargeBlockArmorSlopedCornerTip", "SmallBlockArmorSlopedCornerTip"),
        ([true, true, true, false, true, false, false, true, true, true, true, true, true, true, true, true, true, true, true, true], "LargeBlockArmorSlopedCornerBase", "SmallBlockArmorSlopedCornerBase"),
        ([true, false, false, false, false, false, false, false, true, true, true, false, true, true, true, true, true, true, true, true], "LargeBlockArmorSlopedCorner", "SmallBlockArmorSlopedCorner"),
        ([false, false, false, false, false, false, false, false, true, true, true, false, true, true, true, true, true, true, true, true], "LargeBlockArmorHalfSlopedCornerBase", "SmallBlockArmorHalfSlopedCornerBase"),
    ];
    proof {
        broadcast use vstd::array::group_array_axioms;
        broadcast use vstd::string::group_string_axioms;

        assert(r@.map_values(|e: CatalogEntry| entry_view(e)) =~= catalog_spec());
    }
    r
}

/// The number of `true` entries of a mask.
pub fn count_mask(mask: &[bool; 20]) -> (r: usize)
    ensures
        r == count_true(mask@, 20),
{
    let mut n: usize = 0;
    for i in 0..20
        invariant
            n == count_true(mask@, i as int),
            n <= i,
    {
        if mask[i] {
            n = n + 1;
        }
    }
    n
}

/// The entries ordered by their number of points, largest first, keeping the
/// order of entries with equally many points.
pub fn sort_by_count(es: &Vec<CatalogEntry>) -> (r: Vec<CatalogEntry>)
    ensures
        r@.map_values(|e: CatalogEntry| entry_view(e)) == sorted_by_count(
            es@.map_values(|e: CatalogEntry| entry_view(e)),
        ),
{
    let ghost ev = es@.map_values(|e: CatalogEntry| entry_view(e));
    let ghost groups = |i: int| entries_with_count(ev, (20 - i) as nat);
    let mut r: Vec<CatalogEntry> = Vec::new();
    for i in 0..21
        invariant
            ev == es@.map_values(|e: CatalogEntry| entry_view(e)),
            groups == (|i: int| entries_with_count(ev, (20 - i) as nat)),
            r@.map_values(|e: CatalogEntry| entry_view(e)) == count_groups(ev, i as int).flatten(),
    {
        let k: usize = 20 - i;
        let ghost before = r@.map_values(|e: CatalogEntry| entry_view(e));
        let ghost pred = |e: (Seq<bool>, Seq<char>, Seq<char>)| count_true(e.0, 20) == k;
        for j in 0..es.len()
            invariant
                ev == es@.map_values(|e: CatalogEntry| entry_view(e)),
                pred == (|e: (Seq<bool>, Seq<char>, Seq<char>)| count_true(e.0, 20) == k),
                r@.map_values(|e: CatalogEntry| entry_view(e)) == before + ev.take(j as int).filter(pred),
        {
            let e = es[j];
            proof {
                reveal_with_fuel(Seq::<_>::filter, 1);
                assert(ev.take(j + 1).drop_last() =~= ev.take(j as int));
                assert(ev.take(j + 1).last() == entry_view(e));
            }
            let ghost prev = r@.map_values(|e: CatalogEntry| entry_view(e));
            if count_mask(&e.0) == k {
                r.push(e);
                proof {
                    assert(r@.map_values(|e: CatalogEntry| entry_view(e)) =~= prev.push(entry_view(e)));
                }
            }
        }
        proof {
            assert(ev.take(ev.len() as int) =~= ev);
            let done = count_groups(ev, i as int);
            assert(count_groups(ev, i + 1) =~= done.push(groups(i as int)));
            done.lemma_flatten_push(groups(i as int));
            assert(groups(i as int) == ev.filter(pred));
        }
    }
    r
}

/// The block catalog: every armor block shape, built with its orientations,
/// in order of the number of points it covers, largest first.
pub fn standard_blocks() -> (r: Vec<CubeBlock<'static>>)
    ensures
        blocks_view(r@) == standard_blocks_spec(),
{
    let entries = catalog_entries();
    let sorted = sort_by_count(&entries);
    let ghost sv = sorted@.map_values(|e: CatalogEntry| entry_view(e));
    let mut r: Vec<CubeBlock<'static>> = Vec::new();
    for i in 0..sorted.len()
        invariant
            sv == sorted@.map_values(|e: CatalogEntry| entry_view(e)),
            sv == sorted_by_count(catalog_spec()),
            blocks_view(r@) == sv.take(i as int).map_values(
                |e: (Seq<bool>, Seq<char>, Seq<char>)| cube_block_spec(e.0, e.1, e.2),
            ),
    {
        let e = sorted[i];
        let b = CubeBlock::new(e.0, e.1, e.2);
        let ghost prev = blocks_view(r@);
        r.push(b);
        proof {
            assert(sv[i as int] == entry_view(e));
            assert(blocks_view(r@) =~= prev.push(b@));
            assert(sv.take(i + 1) =~= sv.take(i as int).push(sv[i as int]));
            assert(blocks_view(r@) =~= sv.take(i + 1).map_values(
                |e: (Seq<bool>, Seq<char>, Seq<char>)| cube_block_spec(e.0, e.1, e.2),
            ));
        }
    }
    proof {
        assert(sv.take(sv.len() as int) =~= sv);
    }
    r
}

} // verus!

verus! {

pub proof fn lemma_count_true_le(mask: Seq<bool>, n: int)
    requires
        0 <= n,
    ensures
        count_true(mask, n) <= n,
    decreases n,
{
    if n > 0 {
        lemma_count_true_le(mask, n - 1);
    }
}

pub open spec fn group_len_sum(es: Seq<(Seq<bool>, Seq<char>, Seq<char>)>, m: int) -> nat
    decreases m,
{
    if m <= 0 {
        0
    } else {
        group_len_sum(es, m - 1) + entries_with_count(es, (20 - (m - 1)) as nat).len()
    }
}

proof fn lemma_group_len_flatten(es: Seq<(Seq<bool>, Seq<char>, Seq<char>)>, m: int)
    requires
        0 <= m <= 21,
    ensures
        count_groups(es, m).flatten().len() == group_len_sum(es, m),
    decreases m,
{
    if m == 0 {
        assert(count_groups(es, 0) =~= Seq::<Seq<(Seq<bool>, Seq<char>, Seq<char>)>>::empty());
    } else {
        lemma_group_len_flatten(es, m - 1);
        let done = count_groups(es, m - 1);
        assert(count_groups(es, m) =~= done.push(entries_with_count(es, (20 - (m - 1)) as nat)));
        done.lemma_flatten_push(entries_with_count(es, (20 - (m - 1)) as nat));
    }
}

proof fn lemma_group_len_push(
    es: Seq<(Seq<bool>, Seq<char>, Seq<char>)>,
    e: (Seq<bool>, Seq<char>, Seq<char>),
    m: int,
)
    requires
        0 <= m <= 21,
        count_true(e.0, 20) <= 20,
    ensures
        group_len_sum(es.push(e), m) == group_len_sum(es, m) + if 21 - m <= count_true(e.0, 20) {
            1nat
        } else {
            0nat
        },
    decreases m,
{
    if m > 0 {
        lemma_group_len_push(es, e, m - 1);
        let k = (20 - (m - 1)) as nat;
        let pred = |x: (Seq<bool>, Seq<char>, Seq<char>)| count_true(x.0, 20) == k;
        reveal_with_fuel(Seq::<_>::filter, 1);
        assert(es.push(e).drop_last() =~= es);
        assert(es.push(e).filter(pred) == if pred(e) {
            es.filter(pred).push(e)
        } else {
            es.filter(pred)
        });
    }
}

proof fn lemma_group_len_total(es: Seq<(Seq<bool>, Seq<char>, Seq<char>)>)
    ensures
        group_len_sum(es, 21) == es.len(),
    decreases es.len(),
{
    if es.len() == 0 {
        assert forall|m: int| 0 <= m <= 21 implies group_len_sum(es, m) == 0 by {
            lemma_group_len_empty(es, m);
        }
    } else {
        let rest = es.drop_last();
        let e = es.last();
        lemma_group_len_total(rest);
        lemma_count_true_le(e.0, 20);
        lemma_group_len_push(rest, e, 21);
        assert(rest.push(e) =~= es);
    }
}

proof fn lemma_group_len_empty(es: Seq<(Seq<bool>, Seq<char>, Seq<char>)>, m: int)
    requires
        es.len() == 0,
        0 <= m,
    ensures
        group_len_sum(es, m) == 0,
    decreases m,
{
    if m > 0 {
        lemma_group_len_empty(es, m - 1);
        reveal_with_fuel(Seq::<_>::filter, 1);
    }
}

/// Sorting by number of points keeps the number of entries.
pub proof fn lemma_sorted_len(es: Seq<(Seq<bool>, Seq<char>, Seq<char>)>)
    ensures
        sorted_by_count(es).len() == es.len(),
{
    lemma_group_len_flatten(es, 21);
    lemma_group_len_total(es);
}

} // verus!
