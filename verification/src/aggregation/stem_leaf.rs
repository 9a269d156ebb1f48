//! Stem-and-leaf displays of whole numbers.

use vstd::prelude::*;
use vstd::multiset::Multiset;
use vstd::seq_lib::to_multiset_insert;

verus! {

/// One row of a stem-and-leaf display: a stem and the leaves under it.
#[derive(Debug, Clone, PartialEq, Eq)]
pub struct StemLeaf {
    pub stem: i64,
    pub leaves: Vec<i64>,
}

/// The stem of a value: how many whole units it holds, counted towards
/// zero.
pub open spec fn stem_of(value: i64, unit: i64) -> int {
    if value >= 0 {
        (value as int) / (unit as int)
    } else {
        -((-(value as int)) / (unit as int))
    }
}

/// The leaf of a value: what is left of its size beyond whole units.
pub open spec fn leaf_of(value: i64, unit: i64) -> int {
    if value >= 0 {
        (value as int) % (unit as int)
    } else {
        (-(value as int)) % (unit as int)
    }
}

/// Splits a value into its stem and its leaf.
pub fn split_value(value: i64, unit: i64) -> (parts: (i64, i64))
    requires
        unit > 0,
    ensures
        parts.0 == stem_of(value, unit),
        parts.1 == leaf_of(value, unit),
{
    (value / unit, if value >= 0 { value % unit } else { -(value % unit) })
}

/// The stem and leaf of each value, in the order of the values.
pub open spec fn value_pairs(values: Seq<i64>, unit: i64) -> Seq<(int, int)> {
    Seq::new(values.len(), |i: int| (stem_of(values[i], unit), leaf_of(values[i], unit)))
}

/// The leaves of one row, each with the row's stem.
pub open spec fn row_pairs(row: StemLeaf) -> Seq<(int, int)> {
    Seq::new(row.leaves.len() as nat, |i: int| (row.stem as int, row.leaves[i] as int))
}

/// Every stem-and-leaf pair that the rows hold, as often as they hold it.
pub open spec fn rows_bag(rows: Seq<StemLeaf>) -> Multiset<(int, int)>
    decreases rows.len(),
{
    if rows.len() == 0 {
        Multiset::empty()
    } else {
        rows_bag(rows.drop_last()).add(row_pairs(rows.last()).to_multiset())
    }
}

/// Whether the leaves stand in ascending order.
pub open spec fn leaves_ascending(leaves: Seq<i64>) -> bool {
    forall|a: int, b: int| 0 <= a <= b < leaves.len() ==> leaves[a] <= leaves[b]
}

/// Whether the rows stand in ascending order of their stems, no stem twice,
/// and each row has at least one leaf and its leaves in ascending order.
pub open spec fn rows_ordered(rows: Seq<StemLeaf>) -> bool {
    &&& forall|i: int, j: int| 0 <= i < j < rows.len() ==> rows[i].stem < rows[j].stem
    &&& forall|i: int|
        0 <= i < rows.len() ==> (#[trigger] rows[i]).leaves.len() > 0 && leaves_ascending(
            rows[i].leaves@,
        )
}

/// A row put in among the rows adds its pairs to theirs.
pub proof fn lemma_rows_bag_insert(rows: Seq<StemLeaf>, at: int, row: StemLeaf)
    requires
        0 <= at <= rows.len(),
    ensures
        rows_bag(rows.insert(at, row)) == rows_bag(rows).add(row_pairs(row).to_multiset()),
    decreases rows.len(),
{
    let grown = rows.insert(at, row);
    if at == rows.len() {
        assert(grown.drop_last() == rows);
    } else {
        lemma_rows_bag_insert(rows.drop_last(), at, row);
        assert(grown.drop_last() == rows.drop_last().insert(at, row));
    }
}

/// A leaf put in among a row's leaves adds one pair to the row's.
pub proof fn lemma_row_pairs_insert(row: StemLeaf, grown: StemLeaf, at: int, leaf: i64)
    requires
        0 <= at <= row.leaves.len(),
        grown.stem == row.stem,
        grown.leaves@ == row.leaves@.insert(at, leaf),
    ensures
        row_pairs(grown).to_multiset() == row_pairs(row).to_multiset().insert(
            (row.stem as int, leaf as int),
        ),
{
    assert(row_pairs(grown) == row_pairs(row).insert(at, (row.stem as int, leaf as int)));
    to_multiset_insert(row_pairs(row), at, (row.stem as int, leaf as int));
}

/// Groups values by their stems: one row for each stem that occurs, the
/// rows in ascending order of the stems, and under each stem the leaves of
/// all values with that stem, in ascending order.
pub fn calculate_stem_leaf_logic(values: &Vec<i64>, unit: i64) -> (rows: Vec<StemLeaf>)
    requires
        unit > 0,
    ensures
        rows_ordered(rows@),
        rows_bag(rows@) == value_pairs(values@, unit).to_multiset(),
{
    let mut rows: Vec<StemLeaf> = Vec::new();
    let mut k: usize = 0;
    assert(value_pairs(values@.take(0), unit).to_multiset() == Multiset::<(int, int)>::empty()) by {
        broadcast use vstd::seq_lib::group_to_multiset_ensures;

    }
    while k < values.len()
        invariant
            k <= values.len(),
            unit > 0,
            rows_ordered(rows@),
            rows_bag(rows@) == value_pairs(values@.take(k as int), unit).to_multiset(),
        decreases values.len() - k,
    {
        let (stem, leaf) = split_value(values[k], unit);
        let ghost held = rows@;
        let mut at: usize = 0;
        while at < rows.len() && rows[at].stem < stem
            invariant
                at <= rows.len(),
                forall|i: int| 0 <= i < at ==> rows[i].stem < stem,
            decreases rows.len() - at,
        {
            at = at + 1;
        }
        if at < rows.len() && rows[at].stem == stem {
            let mut row = rows.remove(at);
            let ghost short = rows@;
            let ghost before = row;
            let mut q: usize = 0;
            while q < row.leaves.len() && row.leaves[q] < leaf
                invariant
                    q <= row.leaves.len(),
                    forall|i: int| 0 <= i < q ==> row.leaves[i] < leaf,
                decreases row.leaves.len() - q,
            {
                q = q + 1;
            }
            row.leaves.insert(q, leaf);
            proof {
                lemma_row_pairs_insert(before, row, q as int, leaf);
                assert(held == short.insert(at as int, before));
                lemma_rows_bag_insert(short, at as int, before);
                lemma_rows_bag_insert(short, at as int, row);
            }
            rows.insert(at, row);
        } else {
            let mut leaves: Vec<i64> = Vec::new();
            leaves.push(leaf);
            let row = StemLeaf { stem, leaves };
            proof {
                lemma_rows_bag_insert(held, at as int, row);
                let none = Seq::<(int, int)>::empty();
                assert(row_pairs(row) == none.push((stem as int, leaf as int)));
                vstd::seq_lib::to_multiset_build(none, (stem as int, leaf as int));
                assert(none.to_multiset() == Multiset::<(int, int)>::empty()) by {
                    broadcast use vstd::seq_lib::group_to_multiset_ensures;

                }
            }
            rows.insert(at, row);
        }
        proof {
            let seen = value_pairs(values@.take(k as int), unit);
            let more = value_pairs(values@.take(k as int + 1), unit);
            assert(more == seen.push((stem as int, leaf as int)));
            vstd::seq_lib::to_multiset_build(seen, (stem as int, leaf as int));
        }
        k = k + 1;
    }
    assert(values@.take(k as int) == values@);
    rows
}

} // verus!
