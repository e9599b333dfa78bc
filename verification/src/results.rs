//! Search results, flattened row by row.
use crate::float_bits::{equal, is_equal};
use crate::rows::{lemma_row_fits, row};
use vstd::prelude::*;

verus! {

/// Top-`k` results for a batch of queries.
///
/// `scores` and `indices` hold one row per query: row `qi` occupies
/// `qi * k .. (qi + 1) * k` in both.
#[derive(Debug, Clone)]
pub struct SearchResults {
    /// Score bit patterns, best match first within each row.
    pub scores: Vec<u32>,
    /// Slot indices, aligned with `scores`.
    pub indices: Vec<i64>,
    /// Number of query rows.
    pub nq: usize,
    /// Results per query.
    pub k: usize,
}

fn row_of<T>(flat: &Vec<T>, width: usize, i: usize) -> (r: &[T])
    requires
        i * width + width <= flat@.len(),
    ensures
        r@ == row(flat@, width as int, i as int),
{
    assert(flat.len() == flat@.len());
    proof {
        assert(i * width >= 0) by (nonlinear_arith)
            requires
                i >= 0,
                width >= 0,
        ;
    }
    let start: usize = i * width;
    vstd::slice::slice_subrange(flat.as_slice(), start, start + width)
}

impl SearchResults {
    /// Both buffers hold exactly `nq` rows of `k`.
    pub open spec fn complete(self) -> bool {
        &&& self.scores@.len() == self.nq * self.k
        &&& self.indices@.len() == self.nq * self.k
    }

    /// Equality with the scores compared as numbers: NaN equals nothing, not
    /// even itself, and the two zeros are equal.
    pub open spec fn same(self, other: SearchResults) -> bool {
        &&& self.scores@.len() == other.scores@.len()
        &&& forall|i: int|
            0 <= i < self.scores@.len() ==> equal(#[trigger] self.scores@[i], other.scores@[i])
        &&& self.indices@ == other.indices@
        &&& self.nq == other.nq
        &&& self.k == other.k
    }

    /// Every query row of complete results lies inside both buffers.
    pub proof fn lemma_rows_in_bounds(self, qi: int)
        requires
            self.complete(),
            0 <= qi < self.nq,
        ensures
            qi * self.k + self.k <= self.scores@.len(),
            qi * self.k + self.k <= self.indices@.len(),
    {
        lemma_row_fits(qi, self.nq as int, self.k as int);
    }

    /// The scores of query `qi`.
    pub fn scores_for_query(&self, qi: usize) -> (r: &[u32])
        requires
            qi * self.k + self.k <= self.scores@.len(),
        ensures
            r@ == row(self.scores@, self.k as int, qi as int),
    {
        row_of(&self.scores, self.k, qi)
    }

    /// The slots of query `qi`, aligned with its scores.
    pub fn indices_for_query(&self, qi: usize) -> (r: &[i64])
        requires
            qi * self.k + self.k <= self.indices@.len(),
        ensures
            r@ == row(self.indices@, self.k as int, qi as int),
    {
        row_of(&self.indices, self.k, qi)
    }
}

fn same_scores(a: &Vec<u32>, b: &Vec<u32>) -> (r: bool)
    ensures
        r == (a@.len() == b@.len() && forall|i: int|
            0 <= i < a@.len() ==> equal(#[trigger] a@[i], b@[i])),
{
    if a.len() != b.len() {
        return false;
    }
    let mut i: usize = 0;
    while i < a.len()
        invariant
            i <= a@.len(),
            a@.len() == b@.len(),
            forall|j: int| 0 <= j < i ==> equal(#[trigger] a@[j], b@[j]),
        decreases a@.len() - i,
    {
        if !is_equal(a[i], b[i]) {
            assert(!equal(a@[i as int], b@[i as int]));
            return false;
        }
        i = i + 1;
    }
    true
}

fn same_indices(a: &Vec<i64>, b: &Vec<i64>) -> (r: bool)
    ensures
        r == (a@ == b@),
{
    if a.len() != b.len() {
        return false;
    }
    let mut i: usize = 0;
    while i < a.len()
        invariant
            i <= a@.len(),
            a@.len() == b@.len(),
            forall|j: int| 0 <= j < i ==> a@[j] == b@[j],
        decreases a@.len() - i,
    {
        if a[i] != b[i] {
            return false;
        }
        i = i + 1;
    }
    assert(a@ =~= b@);
    true
}

impl PartialEq for SearchResults {
    fn eq(&self, other: &Self) -> (r: bool) {
        same_scores(&self.scores, &other.scores) && same_indices(&self.indices, &other.indices)
            && self.nq == other.nq && self.k == other.k
    }
}

impl vstd::std_specs::cmp::PartialEqSpecImpl for SearchResults {
    open spec fn obeys_eq_spec() -> bool {
        true
    }

    open spec fn eq_spec(&self, other: &Self) -> bool {
        self.same(*other)
    }
}

} // verus!
