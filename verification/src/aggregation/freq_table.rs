//! The whole-number part of a frequency table: how many values fall into
//! each class, and the running totals of these counts.

use vstd::prelude::*;

verus! {

/// How often `class` occurs among the classes.
pub open spec fn occurrences(classes: Seq<usize>, class: int) -> nat
    decreases classes.len(),
{
    if classes.len() == 0 {
        0
    } else {
        occurrences(classes.drop_last(), class) + if classes.last() == class {
            1nat
        } else {
            0nat
        }
    }
}

/// A count as a class's frequency holds it: past the largest `u32` it stays
/// at that one.
pub open spec fn capped(count: nat) -> u32 {
    if count > u32::MAX {
        u32::MAX
    } else {
        count as u32
    }
}

/// The frequencies of the first `upto + 1` classes, summed.
pub open spec fn total_through(counts: Seq<u32>, upto: int) -> nat
    decreases upto + 1,
{
    if upto < 0 {
        0
    } else {
        total_through(counts, upto - 1) + counts[upto] as nat
    }
}

/// The absolute frequency of each of `nbins` classes: how many of the
/// values fall into it, where `classes` holds the class of each value.
pub fn count_by_class(classes: &Vec<usize>, nbins: usize) -> (counts: Vec<u32>)
    requires
        forall|i: int| 0 <= i < classes.len() ==> classes[i] < nbins,
    ensures
        counts.len() == nbins,
        forall|b: int| 0 <= b < nbins ==> counts[b] == capped(occurrences(classes@, b)),
{
    let mut counts: Vec<u32> = Vec::new();
    let mut b: usize = 0;
    while b < nbins
        invariant
            b <= nbins,
            counts.len() == b,
            forall|j: int| 0 <= j < b ==> counts[j] == 0,
        decreases nbins - b,
    {
        counts.push(0);
        b = b + 1;
    }
    let mut k: usize = 0;
    while k < classes.len()
        invariant
            k <= classes.len(),
            counts.len() == nbins,
            forall|i: int| 0 <= i < classes.len() ==> classes[i] < nbins,
            forall|j: int|
                0 <= j < nbins ==> counts[j] == capped(occurrences(classes@.take(k as int), j)),
        decreases classes.len() - k,
    {
        let class = classes[k];
        let seen = counts[class];
        counts.set(class, seen.saturating_add(1));
        assert(classes@.take(k as int + 1).drop_last() == classes@.take(k as int));
        k = k + 1;
    }
    assert(classes@.take(k as int) == classes@);
    counts
}

/// The cumulative frequencies: for each class, the frequencies up to and
/// including its own, summed.
pub fn running_totals(counts: &Vec<u32>) -> (totals: Vec<u32>)
    requires
        total_through(counts@, counts.len() - 1) <= u32::MAX,
    ensures
        totals.len() == counts.len(),
        forall|i: int| 0 <= i < counts.len() ==> totals[i] == total_through(counts@, i),
{
    let mut totals: Vec<u32> = Vec::new();
    let mut sum: u32 = 0;
    let mut i: usize = 0;
    while i < counts.len()
        invariant
            i <= counts.len(),
            totals.len() == i,
            sum == total_through(counts@, i - 1),
            total_through(counts@, counts.len() - 1) <= u32::MAX,
            forall|j: int| 0 <= j < i ==> totals[j] == total_through(counts@, j),
        decreases counts.len() - i,
    {
        proof {
            lemma_total_grows(counts@, i as int, counts.len() - 1);
        }
        sum = sum + counts[i];
        totals.push(sum);
        i = i + 1;
    }
    totals
}

/// A sum over more classes is no smaller.
pub proof fn lemma_total_grows(counts: Seq<u32>, upto: int, further: int)
    requires
        upto <= further,
    ensures
        total_through(counts, upto) <= total_through(counts, further),
    decreases further - upto,
{
    if upto < further {
        lemma_total_grows(counts, upto, further - 1);
    }
}

/// Whether the frequencies, summed, can be held as one: what
/// `running_totals` asks for.
pub fn totals_fit(counts: &Vec<u32>) -> (fit: bool)
    ensures
        fit == (total_through(counts@, counts.len() - 1) <= u32::MAX),
{
    let mut sum: u32 = 0;
    let mut i: usize = 0;
    while i < counts.len()
        invariant
            i <= counts.len(),
            sum == total_through(counts@, i - 1),
        decreases counts.len() - i,
    {
        if counts[i] > u32::MAX - sum {
            proof {
                lemma_total_grows(counts@, i as int, counts.len() - 1);
            }
            return false;
        }
        sum = sum + counts[i];
        i = i + 1;
    }
    true
}

} // verus!
