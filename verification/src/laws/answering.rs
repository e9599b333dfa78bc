//! What an accepted search is owed, and which slots it may return, in plain numbers.
use crate::calibration::view_opt;
use crate::mask::{allowed, bit, holds_mask};
use crate::model::IndexView;
use crate::search::{mask_view, CacheNeeds, PendingSearch};
use vstd::prelude::*;

verus! {

/// How many entries of a mask are set.
pub open spec fn set_entries(mask: Seq<bool>) -> int {
    mask.filter(|b: bool| b).len() as int
}

/// The slots a mask allows are its set entries.
pub proof fn law_allowed_slots_are_counted(mask: Seq<bool>)
    ensures
        allowed(mask) == set_entries(mask),
    decreases mask.len(),
{
    reveal(Seq::filter);
    if mask.len() > 0 {
        law_allowed_slots_are_counted(mask.drop_last());
    }
}

/// A packed mask allows slot `i` where the mask does: bit `i % 64` of word `i / 64` is
/// set exactly when entry `i` is. There are no more words than that takes.
pub proof fn law_packed_mask_allows_the_slots(words: Seq<u64>, mask: Seq<bool>, i: int)
    requires
        holds_mask(words, mask),
        0 <= i < mask.len(),
    ensures
        64 * words.len() - 64 < mask.len() <= 64 * words.len(),
        mask[i] <==> (words[i / 64] >> ((i % 64) as u64)) & 1 == 1,
{
    let b = (i % 64) as u64;
    assert(bit(words[i / 64], b) == (64 * (i / 64) + b < mask.len() && mask[64 * (i / 64) + b]));
}

/// A packed mask allows nothing else: every set bit of every word stands for a slot
/// that the mask allows.
pub proof fn law_packed_mask_allows_nothing_else(words: Seq<u64>, mask: Seq<bool>, w: int, b: u64)
    requires
        holds_mask(words, mask),
        0 <= w < words.len(),
        b < 64,
        (words[w] >> b) & 1 == 1,
    ensures
        64 * w + b < mask.len(),
        mask[64 * w + b],
{
    assert(bit(words[w], b));
}

/// The smallest of three numbers.
pub open spec fn smallest(a: int, b: int, c: int) -> int {
    if a <= b && a <= c {
        a
    } else if b <= c {
        b
    } else {
        c
    }
}

/// What an accepted search comes to: a row of results for each query, as many as were
/// asked for, as there are slots, or as the mask allows, whichever is least. Without
/// rows nothing is scanned and nothing owed.
pub proof fn law_results_that_are_owed(
    view: IndexView,
    queries: Seq<u32>,
    rows: int,
    k: int,
    mask: Option<Seq<bool>>,
    pending: PendingSearch,
)
    requires
        view.wf(),
        view.dim is Some,
        0 <= k,
        0 <= rows,
        queries.len() == rows * view.dim->0,
        mask is Some ==> mask->0.len() == view.n,
        pending.answers(view, queries, k, mask),
    ensures
        pending.nq == rows,
        pending.scan <==> view.n > 0,
        pending.k == if mask is Some {
            smallest(k, view.n, set_entries(mask->0))
        } else {
            smallest(k, view.n, view.n)
        },
{
    let d = view.dim->0 as int;
    crate::rows::lemma_row_count(rows, d);
    if let Some(m) = mask {
        law_allowed_slots_are_counted(m);
        crate::mask::lemma_allowed_bound(m);
    }
}

/// The scan of an accepted search is told of every slot whether the mask allows it, and
/// is given a mask exactly when there is one and there are rows.
pub proof fn law_slots_that_may_be_returned(
    view: IndexView,
    queries: Seq<u32>,
    k: int,
    mask: Option<Seq<bool>>,
    pending: PendingSearch,
    slot: int,
)
    requires
        view.wf(),
        mask is Some ==> mask->0.len() == view.n,
        pending.answers(view, queries, k, mask),
        0 <= slot < view.n,
    ensures
        pending.mask is Some <==> mask is Some,
        mask is Some ==> {
            let words = pending.mask->0@;
            &&& 64 * words.len() - 64 < view.n <= 64 * words.len()
            &&& mask->0[slot] <==> (words[slot / 64] >> ((slot % 64) as u64)) & 1 == 1
            &&& forall|w: int, b: u64|
                0 <= w < words.len() && b < 64 && (#[trigger] (words[w] >> b)) & 1 == 1 ==> 64 * w
                    + b < view.n && mask->0[64 * w + b]
        },
{
    if let Some(m) = mask {
        let words = pending.mask->0@;
        law_packed_mask_allows_the_slots(words, m, slot);
        assert forall|w: int, b: u64|
            0 <= w < words.len() && b < 64 && (#[trigger] (words[w] >> b)) & 1 == 1 implies 64 * w
            + b < view.n && m[64 * w + b] by {
            law_packed_mask_allows_nothing_else(words, m, w, b);
        }
    }
}

/// A search of an index without a dim, and one of an index without rows, scans nothing
/// and is owed nothing.
pub proof fn law_nothing_to_scan(
    view: IndexView,
    queries: Seq<u32>,
    k: int,
    mask: Option<Seq<bool>>,
    pending: PendingSearch,
)
    requires
        view.wf(),
        view.n == 0,
        pending.answers(view, queries, k, mask),
    ensures
        !pending.scan,
        pending.k == 0,
        pending.mask is None,
        view.dim is None ==> pending.nq == 0,
{
}

/// A mask is taken as it was given.
pub proof fn law_masks_as_given(mask: &[bool])
    ensures
        mask_view(None) is None,
        mask_view(Some(mask)) == Some(mask@),
{
}

/// A buffer that may be missing is the buffer where it is there.
pub proof fn law_optional_buffers<T>(buffer: Vec<T>)
    ensures
        view_opt(None::<Vec<T>>) is None,
        view_opt(Some(buffer)) == Some(buffer@),
{
}

/// The caches a scan still needs are those that are missing, where there are rows to
/// scan.
pub proof fn law_missing_caches(view: IndexView)
    requires
        view.wf(),
    ensures
        view.cache_needs() == (CacheNeeds {
            rotation: view.n > 0 && view.rotation is None,
            centroids: view.n > 0 && view.centroids is None,
            lanes: view.n > 0 && view.blocked is None,
        }),
{
}

} // verus!
