//! What a search comes to.
use crate::blocked::lane_row;
use crate::laws::contents::{holds, row_width, same_but_caches, LaneForm};
use crate::laws::layout::law_blocked_bytes_determined;
use crate::mask::{allowed, lemma_allowed_bound};
use crate::model::{BlockedView, IndexView};
use crate::results::SearchResults;
use crate::rows::{lemma_row_fits, row};
use crate::search::PendingSearch;
use crate::validate::{bad_coord, invalid_coord, lemma_first_where};
use crate::work::LaneRows;
use vstd::multiset::Multiset;
use vstd::prelude::*;

verus! {

/// No more results per query are owed than were asked for, than there are slots,
/// or than the mask allows, and as many as the tightest of the three.
pub proof fn law_effective_k(view: IndexView, k: int, mask: Option<Seq<bool>>)
    requires
        view.wf(),
        0 <= k,
        mask matches Some(m) ==> m.len() == view.n,
    ensures
        ({
            let e = view.effective_k(k, mask);
            let open_slots = match mask {
                Some(m) => allowed(m) as int,
                None => view.n,
            };
            &&& 0 <= e <= k
            &&& e <= view.n
            &&& e <= open_slots
            &&& e == k || e == open_slots
        }),
{
    if let Some(m) = mask {
        lemma_allowed_bound(m);
    }
}

proof fn lemma_all_allowed(mask: Seq<bool>)
    requires
        forall|i: int| 0 <= i < mask.len() ==> mask[i],
    ensures
        allowed(mask) == mask.len(),
    decreases mask.len(),
{
    if mask.len() > 0 {
        assert(mask.last());
        assert forall|i: int| 0 <= i < mask.drop_last().len() implies mask.drop_last()[i] by {
            assert(mask[i]);
        }
        lemma_all_allowed(mask.drop_last());
    }
}

/// A mask that allows every slot restricts nothing: the same searches are accepted
/// and the same number of results is owed as without one.
pub proof fn law_full_mask_restricts_nothing(
    view: IndexView,
    queries: Seq<u32>,
    k: int,
    mask: Seq<bool>,
)
    requires
        view.wf(),
        mask.len() == view.n,
        forall|i: int| 0 <= i < mask.len() ==> mask[i],
    ensures
        view.search_error(queries, Some(mask)) == view.search_error(queries, None),
        view.effective_k(k, Some(mask)) == view.effective_k(k, None),
{
    lemma_all_allowed(mask);
}

/// A lazy index refuses no search and answers every one with nothing.
pub proof fn law_lazy_index_answers_nothing(
    view: IndexView,
    queries: Seq<u32>,
    mask: Option<Seq<bool>>,
)
    requires
        view.wf(),
        view.dim is None,
    ensures
        view.search_error(queries, mask) is None,
        view.query_rows(queries) == 0,
        view.n == 0,
{
}

proof fn lemma_none_allowed(mask: Seq<bool>)
    requires
        forall|i: int| 0 <= i < mask.len() ==> !mask[i],
    ensures
        allowed(mask) == 0,
    decreases mask.len(),
{
    if mask.len() > 0 {
        assert(!mask.last());
        assert forall|i: int| 0 <= i < mask.drop_last().len() implies !mask.drop_last()[i] by {
            assert(!mask[i]);
        }
        lemma_none_allowed(mask.drop_last());
    }
}

/// A mask that allows no slot is owed no result.
pub proof fn law_empty_mask_is_owed_nothing(view: IndexView, k: int, mask: Seq<bool>)
    requires
        view.wf(),
        0 <= k,
        mask.len() == view.n,
        forall|i: int| 0 <= i < mask.len() ==> !mask[i],
    ensures
        view.effective_k(k, Some(mask)) == 0,
{
    lemma_none_allowed(mask);
}

/// The slots that a mask allows, lowest first.
pub open spec fn allowed_slots(mask: Seq<bool>) -> Seq<int>
    decreases mask.len(),
{
    if mask.len() == 0 {
        Seq::empty()
    } else if mask.last() {
        allowed_slots(mask.drop_last()).push(mask.len() - 1)
    } else {
        allowed_slots(mask.drop_last())
    }
}

/// Each of `slots` with its score.
pub open spec fn scored(slots: Seq<int>, score: spec_fn(int) -> u32) -> Seq<(u32, int)> {
    slots.map_values(|slot: int| (score(slot), slot))
}

/// The results whose slot the mask allows.
pub open spec fn kept(results: Seq<(u32, int)>, mask: Seq<bool>) -> Seq<(u32, int)> {
    results.filter(|r: (u32, int)| 0 <= r.1 < mask.len() && mask[r.1])
}

proof fn lemma_allowed_slots(mask: Seq<bool>)
    ensures
        allowed_slots(mask).len() == allowed(mask),
        forall|i: int|
            0 <= i < allowed_slots(mask).len() ==> 0 <= #[trigger] allowed_slots(mask)[i]
                < mask.len(),
    decreases mask.len(),
{
    if mask.len() > 0 {
        lemma_allowed_slots(mask.drop_last());
        let rest = allowed_slots(mask.drop_last());
        assert forall|i: int| 0 <= i < allowed_slots(mask).len() implies 0
            <= #[trigger] allowed_slots(mask)[i] < mask.len() by {
            if i < rest.len() {
                assert(allowed_slots(mask)[i] == rest[i]);
            }
        }
    }
}

proof fn lemma_kept_scored(mask: Seq<bool>, n: int, score: spec_fn(int) -> u32)
    requires
        0 <= n <= mask.len(),
    ensures
        kept(scored(allowed_slots(Seq::new(n as nat, |i: int| true)), score), mask) == scored(
            allowed_slots(mask.take(n)),
            score,
        ),
    decreases n,
{
    let full = Seq::new(n as nat, |i: int| true);
    let pred = |r: (u32, int)| 0 <= r.1 < mask.len() && mask[r.1];
    if n == 0 {
        assert(scored(allowed_slots(full), score) =~= Seq::<(u32, int)>::empty());
        reveal(Seq::filter);
        assert(mask.take(0) =~= Seq::<bool>::empty());
        assert(kept(scored(allowed_slots(full), score), mask) =~= scored(
            allowed_slots(mask.take(n)),
            score,
        ));
    } else {
        lemma_kept_scored(mask, n - 1, score);
        let less = Seq::new((n - 1) as nat, |i: int| true);
        assert(full.drop_last() =~= less);
        assert(full.last());
        let before = scored(allowed_slots(less), score);
        let here = (score(n - 1), n - 1);
        assert(scored(allowed_slots(full), score) =~= before.push(here));
        assert(mask.take(n).drop_last() =~= mask.take(n - 1));
        assert(mask.take(n).last() == mask[n - 1]);
        let all = before.push(here);
        assert(all.drop_last() =~= before);
        reveal(Seq::filter);
        assert(all.filter(pred) == if pred(here) {
            before.filter(pred).push(here)
        } else {
            before.filter(pred)
        });
        if mask[n - 1] {
            assert(scored(allowed_slots(mask.take(n)), score) =~= scored(
                allowed_slots(mask.take(n - 1)),
                score,
            ).push(here));
        }
    }
}

/// A masked search for everything returns, of the unmasked results for everything,
/// those whose slot the mask allows, as long as the scan returns every slot it is
/// allowed once, with a score that depends on the slot alone. The order is left to
/// the scan.
pub proof fn law_masked_results_are_the_allowed_ones(
    view: IndexView,
    mask: Seq<bool>,
    all: Seq<(u32, int)>,
    masked: Seq<(u32, int)>,
    score: spec_fn(int) -> u32,
)
    requires
        view.wf(),
        mask.len() == view.n,
        all.to_multiset() == scored(
            allowed_slots(Seq::new(view.n as nat, |i: int| true)),
            score,
        ).to_multiset(),
        masked.to_multiset() == scored(allowed_slots(mask), score).to_multiset(),
    ensures
        masked.len() == view.effective_k(view.n, Some(mask)),
        kept(all, mask).to_multiset() == masked.to_multiset(),
{
    let pred = |r: (u32, int)| 0 <= r.1 < mask.len() && mask[r.1];
    let full = Seq::new(view.n as nat, |i: int| true);
    let every = scored(allowed_slots(full), score);
    lemma_allowed_bound(mask);
    lemma_allowed_slots(mask);
    masked.to_multiset_ensures();
    scored(allowed_slots(mask), score).to_multiset_ensures();
    lemma_kept_scored(mask, view.n, score);
    assert(mask.take(view.n) =~= mask);
    lemma_filter_multiset(all, pred);
    lemma_filter_multiset(every, pred);
}

proof fn lemma_filter_multiset(s: Seq<(u32, int)>, pred: spec_fn((u32, int)) -> bool)
    ensures
        s.filter(pred).to_multiset() == s.to_multiset().filter(pred),
    decreases s.len(),
{
    broadcast use vstd::seq_lib::group_to_multiset_ensures;
    broadcast use vstd::multiset::group_multiset_axioms;

    reveal(Seq::filter);
    if s.len() > 0 {
        let rest = s.drop_last();
        lemma_filter_multiset(rest, pred);
        assert(s =~= rest.push(s.last()));
        assert(s.to_multiset() =~= rest.to_multiset().insert(s.last()));
        if pred(s.last()) {
            assert(s.filter(pred) == rest.filter(pred).push(s.last()));
            assert(s.to_multiset().filter(pred) =~= rest.to_multiset().filter(pred).insert(
                s.last(),
            ));
        } else {
            assert(s.to_multiset().filter(pred) =~= rest.to_multiset().filter(pred));
        }
    } else {
        assert(s =~= Seq::empty());
        assert(s.filter(pred).to_multiset() =~= s.to_multiset().filter(pred));
    }
}

/// What a scan reads of an index.
pub struct ScanInput {
    /// Vector dimensionality, once committed.
    pub dim: Option<usize>,
    /// Bits per coordinate.
    pub bit_width: usize,
    /// Number of stored vectors.
    pub n: int,
    /// The blocked layout.
    pub blocked: Option<BlockedView>,
    /// One scale per row.
    pub scales: Seq<u32>,
    /// Calibration shift.
    pub shift: Seq<u32>,
    /// Calibration scale.
    pub scale: Seq<u32>,
    /// The dim for which the rotation has been built.
    pub rotation: Option<usize>,
    /// Reconstruction levels.
    pub centroids: Option<Seq<u32>>,
}

/// What a scan of an index with this state reads.
pub open spec fn scan_input(view: IndexView) -> ScanInput {
    ScanInput {
        dim: view.dim,
        bit_width: view.bit_width,
        n: view.n,
        blocked: view.blocked,
        scales: view.scales,
        shift: view.shift,
        scale: view.scale,
        rotation: view.rotation,
        centroids: view.centroids,
    }
}

/// Every cache a scan reads is filled.
pub open spec fn scan_ready(view: IndexView) -> bool {
    let needs = view.cache_needs();
    !needs.rotation && !needs.centroids && !needs.lanes
}

/// Two indexes that hold the same rows under the same calibration and levels are the
/// same to a scan, whichever way their caches came to be filled.
pub proof fn law_scans_read_the_same(a: IndexView, b: IndexView, packed: Seq<u8>, form: LaneForm)
    requires
        a.wf(),
        b.wf(),
        a.dim is Some,
        a.n > 0,
        same_but_caches(a, b),
        a.centroids == b.centroids,
        holds(a, packed, form),
        holds(b, packed, form),
        scan_ready(a),
        scan_ready(b),
    ensures
        scan_input(a) == scan_input(b),
{
    let x = a.blocked->0;
    let y = b.blocked->0;
    assert forall|slot: int| 0 <= slot < a.n implies #[trigger] lane_row(x.data, x.groups, slot)
        == lane_row(y.data, x.groups, slot) by {
        assert(lane_row(y.data, y.groups, slot) == (form.lane_of)(
            row(packed, row_width(a), slot),
        ));
    }
    law_blocked_bytes_determined(x.data, y.data, x.groups, a.n);
}

/// Preparing fills caches and changes nothing else, and once they are filled it
/// changes nothing at all.
pub proof fn law_preparing_twice_is_preparing_once(
    view: IndexView,
    centroids: Option<Vec<u32>>,
    lanes: Option<LaneRows>,
    other_centroids: Option<Vec<u32>>,
    other_lanes: Option<LaneRows>,
)
    requires
        scan_ready(view.prepared(centroids, lanes)),
    ensures
        same_but_caches(view, view.prepared(centroids, lanes)),
        view.prepared(centroids, lanes).packed == view.packed,
        view.prepared(centroids, lanes).warmup == view.warmup,
        view.prepared(centroids, lanes).calibration_state() == view.calibration_state(),
        view.prepared(centroids, lanes).prepared(other_centroids, other_lanes) == view.prepared(
            centroids,
            lanes,
        ),
{
}

/// The results of query `qi`: each slot with its score.
pub open spec fn results_of(results: SearchResults, qi: int) -> Seq<(u32, i64)> {
    Seq::new(
        results.k as nat,
        |i: int|
            (
                row(results.scores@, results.k as int, qi)[i],
                row(results.indices@, results.k as int, qi)[i],
            ),
    )
}

/// What a scan returns for one query of an index, given how many results are owed and
/// which slots it may return. The order is left to the scan.
pub type Scan = spec_fn(ScanInput, Seq<u32>, int, Option<Seq<bool>>) -> Multiset<(u32, i64)>;

/// A search of `view` that was accepted as `pending`, and whose queries `scan` answered
/// each by itself from `input`, came to `results`.
pub open spec fn answered(
    results: SearchResults,
    pending: PendingSearch,
    view: IndexView,
    input: ScanInput,
    queries: Seq<u32>,
    k: int,
    mask: Option<Seq<bool>>,
    scan: Scan,
) -> bool {
    &&& view.search_error(queries, mask) is None
    &&& pending.answers(view, queries, k, mask)
    &&& results.nq == pending.nq
    &&& results.k == pending.k
    &&& pending.scan ==> forall|qi: int|
        0 <= qi < results.nq ==> #[trigger] results_of(results, qi).to_multiset() == scan(
            input,
            row(queries, view.dim->0 as int, qi),
            results.k as int,
            mask,
        )
}

proof fn lemma_clean_coords(a: Seq<u32>, b: Seq<u32>, dim: int)
    requires
        invalid_coord(a, dim) is None,
        forall|i: int| 0 <= i < b.len() ==> a.contains(#[trigger] b[i]),
    ensures
        invalid_coord(b, dim) is None,
{
    let bad = |v: u32| bad_coord(v);
    lemma_first_where(a, bad);
    lemma_first_where(b, bad);
    assert forall|i: int| 0 <= i < b.len() implies !bad(b[i]) by {
        assert(a.contains(b[i]));
        let j = choose|j: int| 0 <= j < a.len() && a[j] == b[i];
        assert(!bad(a[j]));
    }
}

/// A query gets the results in a batch that it gets alone: a batch that is accepted
/// has none but acceptable queries, and the number of results does not depend on the
/// batch.
pub proof fn law_batched_query_is_answered_as_alone(
    view: IndexView,
    input: ScanInput,
    queries: Seq<u32>,
    qi: int,
    k: int,
    mask: Option<Seq<bool>>,
    pending: PendingSearch,
    results: SearchResults,
    alone: PendingSearch,
    single: SearchResults,
    scan: Scan,
)
    requires
        view.wf(),
        view.dim is Some,
        0 <= qi < view.query_rows(queries),
        answered(results, pending, view, input, queries, k, mask, scan),
        view.search_error(row(queries, view.dim->0 as int, qi), mask) is None ==> answered(
            single,
            alone,
            view,
            input,
            row(queries, view.dim->0 as int, qi),
            k,
            mask,
            scan,
        ),
    ensures
        view.search_error(row(queries, view.dim->0 as int, qi), mask) is None,
        single.nq == 1,
        single.k == results.k,
        results_of(results, qi).to_multiset() == results_of(single, 0).to_multiset(),
{
    let d = view.dim->0 as int;
    let query = row(queries, d, qi);
    let nq = queries.len() as int / d;
    assert(queries.len() == nq * d) by (nonlinear_arith)
        requires
            0 < d,
            nq == queries.len() as int / d,
            queries.len() as int % d == 0,
    ;
    lemma_row_fits(qi, nq, d);
    assert(d % d == 0 && d / d == 1) by (nonlinear_arith)
        requires
            0 < d,
    ;
    assert forall|i: int| 0 <= i < query.len() implies queries.contains(
        #[trigger] query[i],
    ) by {
        assert(queries[qi * d + i] == query[i]);
    }
    lemma_clean_coords(queries, query, d);
    assert(row(query, d, 0) =~= query);
    if view.n > 0 {
        assert(results_of(results, qi).to_multiset() == scan(
            input,
            query,
            results.k as int,
            mask,
        ));
        assert(results_of(single, 0).to_multiset() == scan(
            input,
            query,
            single.k as int,
            mask,
        ));
    } else {
        assert(results_of(results, qi) =~= results_of(single, 0));
    }
}

/// A query is answered alike alone, beside itself in one batch, and again after
/// `prepare`: all three are accepted when one is, each query is owed the same number
/// of results, and the results are the same, as long as the scan answers each query
/// by itself. The first search fills the caches that were still empty. The order of
/// the results is left to the scan.
pub proof fn law_repeated_query_is_answered_alike(
    view: IndexView,
    filling: (Option<Vec<u32>>, Option<LaneRows>),
    query: Seq<u32>,
    k: int,
    mask: Option<Seq<bool>>,
    preparing: (Option<Vec<u32>>, Option<LaneRows>),
    pending: (PendingSearch, PendingSearch, PendingSearch),
    results: (SearchResults, SearchResults, SearchResults),
    scan: Scan,
)
    requires
        view.wf(),
        view.dim is Some,
        query.len() == view.dim->0,
        ({
            let filled = view.prepared(filling.0, filling.1);
            let again = filled.prepared(preparing.0, preparing.1);
            let twice = query + query;
            &&& scan_ready(filled)
            &&& answered(results.0, pending.0, view, scan_input(filled), query, k, mask, scan)
            &&& filled.search_error(twice, mask) is None ==> answered(
                results.1,
                pending.1,
                filled,
                scan_input(filled),
                twice,
                k,
                mask,
                scan,
            )
            &&& again.search_error(query, mask) is None ==> answered(
                results.2,
                pending.2,
                again,
                scan_input(again),
                query,
                k,
                mask,
                scan,
            )
        }),
    ensures
        ({
            let filled = view.prepared(filling.0, filling.1);
            let again = filled.prepared(preparing.0, preparing.1);
            let expected = results_of(results.0, 0).to_multiset();
            &&& filled.search_error(query + query, mask) is None
            &&& again.search_error(query, mask) is None
            &&& results.0.nq == 1
            &&& results.1.nq == 2
            &&& results.2.nq == 1
            &&& results.0.k == results.1.k == results.2.k
            &&& results_of(results.1, 0).to_multiset() == expected
            &&& results_of(results.1, 1).to_multiset() == expected
            &&& results_of(results.2, 0).to_multiset() == expected
        }),
{
    let d = view.dim->0 as int;
    let twice = query + query;
    let filled = view.prepared(filling.0, filling.1);
    let input = scan_input(filled);
    assert((d + d) % d == 0 && (d + d) / d == 2 && d % d == 0 && d / d == 1) by (nonlinear_arith)
        requires
            0 < d,
    ;
    assert forall|i: int| 0 <= i < twice.len() implies query.contains(
        #[trigger] twice[i],
    ) by {
        if i < d {
            assert(query[i] == twice[i]);
        } else {
            assert(query[i - d] == twice[i]);
        }
    }
    lemma_clean_coords(query, twice, d);
    assert(row(query, d, 0) =~= query);
    assert(row(twice, d, 0) =~= query);
    assert(row(twice, d, 1) =~= query);
    law_batched_query_is_answered_as_alone(
        view,
        input,
        twice,
        0,
        k,
        mask,
        pending.1,
        results.1,
        pending.0,
        results.0,
        scan,
    );
    law_batched_query_is_answered_as_alone(
        view,
        input,
        twice,
        1,
        k,
        mask,
        pending.1,
        results.1,
        pending.0,
        results.0,
        scan,
    );
    assert(filled.prepared(preparing.0, preparing.1) =~= filled);
    law_batched_query_is_answered_as_alone(
        view,
        input,
        query,
        0,
        k,
        mask,
        pending.2,
        results.2,
        pending.0,
        results.0,
        scan,
    );
}

} // verus!
