//! When a batch is committed, and what every store holds afterwards, in plain numbers.
use crate::blocked::blocks;
use crate::calibration::CalibrationState;
use crate::laws::numbers::{
    all_usable, law_identity_changes_nothing, usable_factor, usable_scale, usable_shift,
};
use crate::laws::sizes::{
    lane_byte, law_appended_bytes, law_blocked_size, law_codebook_size, law_good_numbers,
    law_packed_size, law_row_width, whole_blocks,
};
use crate::model::IndexView;
use crate::rows::lemma_row_count;
use crate::work::{AddPlan, AddWork, Codebook, EncodeEvent, EncodeRun, EncodedRows};
use vstd::arithmetic::power2::pow2;
use vstd::prelude::*;

verus! {

/// A codebook for so many bits is at hand: cached, or handed over with one level for
/// each code and one boundary between neighbours.
pub open spec fn codebook_at_hand(view: IndexView, book: Option<Codebook>) -> bool {
    ||| view.boundaries is Some && view.centroids is Some
    ||| book is Some && handed_over(view, book->0)
}

/// `book` has the size a codebook of this index has.
pub open spec fn handed_over(view: IndexView, book: Codebook) -> bool {
    &&& book.centroids@.len() == pow2(view.bit_width as nat)
    &&& book.boundaries@.len() + 1 == pow2(view.bit_width as nat)
}

/// `rows` holds `m` encoded rows of `d` coordinates of `bit_width` bits, with accepted
/// numbers, and a calibration of `pair` entries.
pub open spec fn holds_rows(rows: EncodedRows, m: int, d: int, bit_width: int, pair: int) -> bool {
    &&& 8 * rows.codes@.len() == m * d * bit_width
    &&& rows.scales@.len() == m
    &&& all_usable(rows.scales@, |v: u32| usable_scale(v))
    &&& rows.shift@.len() == pair
    &&& rows.scale@.len() == pair
    &&& all_usable(rows.shift@, |v: u32| usable_shift(v))
    &&& all_usable(rows.scale@, |v: u32| usable_factor(v))
}

/// `m` more rows can be counted, and a blocked buffer of all of them addressed.
pub open spec fn addressable(view: IndexView, m: int) -> bool {
    &&& view.n + m <= usize::MAX
    &&& view.blocked is Some ==> 32 * ((view.n + m + 31) / 32) * view.blocked->0.groups
        <= usize::MAX
}

/// The first slot whose lane an append rewrites: the first new one where the rows are
/// there as lanes alone, otherwise the first slot of its block.
pub open spec fn first_lane(view: IndexView) -> int {
    if view.n > 0 && view.packed is None {
        view.n
    } else {
        view.n - view.n % 32
    }
}

/// `lanes` holds one lane row for each slot from the first rewritten one on, where
/// there is a blocked buffer.
pub open spec fn holds_lanes(view: IndexView, m: int, lanes: Seq<u8>) -> bool {
    view.blocked is Some ==> lanes.len() == (view.n + m - first_lane(view))
        * view.blocked->0.groups
}

/// `m` more rows end warm-up.
pub open spec fn ends_warm_up(view: IndexView, m: int) -> bool {
    view.warmup is Some && view.n + m >= 1000
}

/// Entries of the calibration that an encoder of `m` more rows brings: one for each
/// coordinate when none is committed or the batch is to be fitted.
pub open spec fn pair_entries(view: IndexView, m: int) -> int {
    if view.shift.len() == 0 || ends_warm_up(view, m) {
        view.dim->0 as int
    } else {
        0
    }
}

/// The kernels delivered what an add of `m` rows to this index needs, where no stored
/// row has to be encoded again.
pub open spec fn delivered_once(view: IndexView, m: int, work: AddWork) -> bool {
    &&& codebook_at_hand(view, work.codebook)
    &&& addressable(view, m)
    &&& work.run matches EncodeRun::Single(EncodeEvent::Encoded(rows, lanes)) && holds_rows(
        rows,
        m,
        view.dim->0 as int,
        view.bit_width as int,
        pair_entries(view, m),
    ) && holds_lanes(view, m, lanes@)
}

/// The kernels delivered what an add of `m` rows to this index needs, where the stored
/// rows are encoded again under a fitted calibration.
pub open spec fn delivered_again(view: IndexView, m: int, work: AddWork) -> bool {
    let d = view.dim->0 as int;
    let w = view.bit_width as int;
    &&& codebook_at_hand(view, work.codebook)
    &&& view.n + m <= usize::MAX
    &&& work.run matches EncodeRun::Refitted {
        shift,
        scale,
        buffer: EncodeEvent::Encoded(old_rows, _),
        batch: EncodeEvent::Encoded(new_rows, _),
    } && {
        &&& shift@.len() == d
        &&& scale@.len() == d
        &&& all_usable(shift@, |v: u32| usable_shift(v))
        &&& all_usable(scale@, |v: u32| usable_factor(v))
        &&& holds_rows(old_rows, view.n, d, w, 0)
        &&& holds_rows(new_rows, m, d, w, 0)
    }
}

proof fn lemma_batch(view: IndexView, vectors: Seq<u32>, m: int)
    requires
        view.wf(),
        view.dim is Some,
        0 <= m,
        vectors.len() == m * view.dim->0,
    ensures
        vectors.len() as int / view.dim->0 as int == m,
        view.warmup is Some ==> (view.warmup->0.len() == 0 <==> view.n == 0),
{
    let d = view.dim->0 as int;
    lemma_row_count(m, d);
    assert(view.n * d == 0 <==> view.n == 0) by (nonlinear_arith)
        requires
            0 < d,
    ;
}

proof fn lemma_rows_fit(view: IndexView, d: int, m: int, rows: EncodedRows)
    requires
        d % 8 == 0,
    ensures
        view.rows_fit(d, m, rows) <==> holds_rows(
            rows,
            m,
            d,
            view.bit_width as int,
            if view.shift.len() == 0 {
                d
            } else {
                0
            },
        ),
{
    law_good_numbers(rows.scales@, rows.shift@, rows.scale@);
    law_packed_size(m, d, view.bit_width as int);
}

proof fn lemma_room(view: IndexView, m: int)
    ensures
        view.room(m) <==> addressable(view, m),
{
    if let Some(b) = view.blocked {
        law_blocked_size(view.n + m, b.groups, (view.n + m + 31) / 32);
    }
}

proof fn lemma_codebook(view: IndexView, book: Option<Codebook>)
    requires
        2 <= view.bit_width <= 4,
    ensures
        view.has_codebook(book) <==> codebook_at_hand(view, book),
{
    if let Some(b) = book {
        law_codebook_size(b, view.bit_width as int);
    }
}

/// A batch is committed whenever the kernels delivered for it, and only then, as long
/// as no stored row has to be encoded again: rows, lanes and codebook of the right
/// sizes, accepted numbers, and counts and buffers that can be addressed are enough.
pub proof fn law_delivered_batch_is_committed(
    view: IndexView,
    vectors: Seq<u32>,
    m: int,
    work: AddWork,
)
    requires
        view.wf(),
        view.dim is Some,
        0 < m,
        vectors.len() == m * view.dim->0,
        ends_warm_up(view, m) ==> view.n == 0,
    ensures
        view.added(vectors, work).1 <==> delivered_once(view, m, work),
{
    let d = view.dim->0;
    lemma_batch(view, vectors, m);
    lemma_codebook(view, work.codebook);
    lemma_room(view, m);
    let ready = view.seeded(d, work.codebook);
    let bare = IndexView { shift: Seq::empty(), scale: Seq::empty(), ..ready };
    lemma_room(ready, m);
    if let EncodeRun::Single(EncodeEvent::Encoded(rows, lanes)) = work.run {
        lemma_rows_fit(ready, d as int, m, rows);
        lemma_rows_fit(bare, d as int, m, rows);
    }
}

/// A batch that makes stored rows be encoded again is committed whenever the kernels
/// delivered both, and only then.
pub proof fn law_delivered_refit_is_committed(
    view: IndexView,
    vectors: Seq<u32>,
    m: int,
    work: AddWork,
)
    requires
        view.wf(),
        view.dim is Some,
        0 < m,
        vectors.len() == m * view.dim->0,
        ends_warm_up(view, m),
        view.n > 0,
    ensures
        view.added(vectors, work).1 <==> delivered_again(view, m, work),
{
    let d = view.dim->0;
    lemma_batch(view, vectors, m);
    lemma_codebook(view, work.codebook);
    let ready = view.seeded(d, work.codebook);
    if let EncodeRun::Refitted { shift, scale, buffer, batch } = work.run {
        law_good_numbers(Seq::empty(), shift@, scale@);
        let base = ready.refit_base(shift@, scale@);
        let first = base.appended(d as int, view.n, buffer);
        lemma_room(base, view.n);
        lemma_room(first, m);
        if let EncodeEvent::Encoded(rows, _) = buffer {
            lemma_rows_fit(base, d as int, view.n, rows);
        }
        if let EncodeEvent::Encoded(rows, _) = batch {
            lemma_rows_fit(first, d as int, m, rows);
        }
    }
}

/// A batch without rows is committed at once and changes nothing.
pub proof fn law_empty_batch_changes_nothing(
    view: IndexView,
    dim: usize,
    work: AddWork,
)
    requires
        view.wf(),
    ensures
        view.dim is Some ==> view.added(Seq::empty(), work) == (view, true),
        view.added_2d(Seq::empty(), dim, work) == (view, true),
{
    if let Some(d) = view.dim {
        assert(0int / d as int == 0) by (nonlinear_arith)
            requires
                0 < d,
        ;
    }
}

/// What a committed batch leaves, where no stored row was encoded again: its rows and
/// scales stand behind those that were there, nothing that was there has changed, and
/// every count says so.
pub proof fn law_committed_batch(view: IndexView, vectors: Seq<u32>, m: int, work: AddWork)
    requires
        view.wf(),
        view.dim is Some,
        0 < m,
        vectors.len() == m * view.dim->0,
        ends_warm_up(view, m) ==> view.n == 0,
        delivered_once(view, m, work),
    ensures
        ({
            let after = view.added(vectors, work).0;
            let rows = work.run->Single_0->Encoded_0;
            &&& after.dim == view.dim
            &&& after.bit_width == view.bit_width
            &&& after.n == view.n + m
            &&& after.scales == view.scales + rows.scales@
            &&& after.packed == if view.n > 0 && view.packed is None {
                None
            } else if view.packed is None {
                Some(rows.codes@)
            } else {
                Some(view.packed->0 + rows.codes@)
            }
            &&& after.shift == if pair_entries(view, m) > 0 {
                rows.shift@
            } else {
                view.shift
            }
            &&& after.scale == if pair_entries(view, m) > 0 {
                rows.scale@
            } else {
                view.scale
            }
            &&& after.warmup == if view.warmup is None || ends_warm_up(view, m) {
                None
            } else {
                Some(view.warmup->0 + vectors)
            }
            &&& after.blocked is Some == view.blocked is Some
            &&& view.blocked is Some ==> {
                &&& after.blocked->0.groups == view.blocked->0.groups
                &&& whole_blocks(view.n + m, after.blocked->0.n_blocks)
                &&& after.blocked->0.data.len() == 32 * after.blocked->0.n_blocks
                    * view.blocked->0.groups
            }
            &&& after.scratch_demand == vectors.len()
        }),
{
    let d = view.dim->0;
    lemma_batch(view, vectors, m);
    law_delivered_batch_is_committed(view, vectors, m, work);
    let rows = work.run->Single_0->Encoded_0;
    let after = view.added(vectors, work).0;
    if view.packed is None && view.n == 0 {
        assert(after.packed->0 =~= rows.codes@);
    }
    if let Some(b) = view.blocked {
        law_blocked_size(view.n + m, b.groups, blocks(view.n + m));
        assert(0 <= 32 * blocks(view.n + m) * b.groups) by (nonlinear_arith)
            requires
                0 <= blocks(view.n + m),
                0 < b.groups,
        ;
    }
}

/// What a committed batch leaves in the blocked buffer, byte by byte, where no stored
/// row was encoded again: the slots before the first rewritten one keep their bytes,
/// the others hold the lane rows that were handed over, in order, and the last block is
/// filled up with zeros, or with what was there where the lanes alone are kept.
pub proof fn law_committed_lanes(
    view: IndexView,
    vectors: Seq<u32>,
    m: int,
    work: AddWork,
    slot: int,
    j: int,
)
    requires
        view.wf(),
        view.dim is Some,
        0 < m,
        vectors.len() == m * view.dim->0,
        ends_warm_up(view, m) ==> view.n == 0,
        delivered_once(view, m, work),
        view.blocked is Some,
        0 <= j < view.blocked->0.groups,
        0 <= slot < 32 * ((view.n + m + 31) / 32),
    ensures
        ({
            let before = view.blocked->0;
            let after = view.added(vectors, work).0.blocked->0;
            let lanes = work.run->Single_0->Encoded_1@;
            lane_byte(after.data, before.groups, slot, j) == if slot < first_lane(view) {
                lane_byte(before.data, before.groups, slot, j)
            } else if slot < view.n + m {
                lanes[(slot - first_lane(view)) * before.groups + j]
            } else if first_lane(view) == view.n && slot < 32 * ((view.n + 31) / 32) {
                lane_byte(before.data, before.groups, slot, j)
            } else {
                0
            }
        }),
{
    let d = view.dim->0;
    lemma_batch(view, vectors, m);
    law_delivered_batch_is_committed(view, vectors, m, work);
    let b = view.blocked->0;
    let g = b.groups;
    let lanes = work.run->Single_0->Encoded_1@;
    let from = first_lane(view);
    let old_blocks = (view.n + 31) / 32;
    let new_blocks = (view.n + m + 31) / 32;
    law_blocked_size(view.n, g, old_blocks);
    law_blocked_size(view.n + m, g, new_blocks);
    let kept = if view.n > 0 && view.packed is None {
        b.data
    } else {
        b.data.take((view.n / 32) * (32 * g))
    };
    let kept_blocks = (from + 31) / 32;
    assert(kept.len() == 32 * kept_blocks * g && (view.packed is Some || view.n == 0
        ==> 0 <= (view.n / 32) * (32 * g) <= b.data.len())) by {
        assert(view.n / 32 <= old_blocks);
        assert((view.n / 32) * (32 * g) == 32 * (view.n / 32) * g && 0 <= 32 * (view.n / 32) * g
            <= 32 * old_blocks * g) by (nonlinear_arith)
            requires
                0 <= view.n / 32 <= old_blocks,
                0 < g,
        ;
    }
    law_appended_bytes(kept, g, from, lanes, view.n + m - from, kept_blocks, new_blocks, slot, j);
    if slot < 32 * kept_blocks {
        crate::blocked::lemma_lane_inside(g, 32 * kept_blocks, slot, j);
        law_blocked_size(32 * kept_blocks, g, kept_blocks);
    }
}

/// What a committed batch leaves where the stored rows were encoded again: the new
/// encodings of the old rows, then the batch, under the fitted calibration, in packed
/// form alone; warm-up is over.
pub proof fn law_committed_refit(view: IndexView, vectors: Seq<u32>, m: int, work: AddWork)
    requires
        view.wf(),
        view.dim is Some,
        0 < m,
        vectors.len() == m * view.dim->0,
        ends_warm_up(view, m),
        view.n > 0,
        delivered_again(view, m, work),
    ensures
        ({
            let after = view.added(vectors, work).0;
            let old_rows = work.run->buffer->Encoded_0;
            let new_rows = work.run->batch->Encoded_0;
            &&& after.dim == view.dim
            &&& after.bit_width == view.bit_width
            &&& after.n == view.n + m
            &&& after.packed == Some(old_rows.codes@ + new_rows.codes@)
            &&& after.scales == old_rows.scales@ + new_rows.scales@
            &&& after.shift == work.run->shift@
            &&& after.scale == work.run->Refitted_scale@
            &&& after.warmup is None
            &&& after.blocked is None
            &&& after.scratch_demand == vectors.len()
        }),
{
    lemma_batch(view, vectors, m);
    law_delivered_refit_is_committed(view, vectors, m, work);
    let after = view.added(vectors, work).0;
    let old_rows = work.run->buffer->Encoded_0;
    let new_rows = work.run->batch->Encoded_0;
    assert(after.packed->0 =~= old_rows.codes@ + new_rows.codes@);
    assert(after.scales =~= old_rows.scales@ + new_rows.scales@);
}

/// What a batch that is not committed leaves: the rows, scales, lanes and the warm-up
/// buffer as they were, and the calibration too, unless the batch was to be fitted on
/// an index without rows.
pub proof fn law_refused_batch(view: IndexView, vectors: Seq<u32>, m: int, work: AddWork)
    requires
        view.wf(),
        view.dim is Some,
        0 < m,
        vectors.len() == m * view.dim->0,
        !view.added(vectors, work).1,
    ensures
        ({
            let after = view.added(vectors, work).0;
            let forgets = ends_warm_up(view, m) && view.n == 0;
            &&& after.dim == view.dim
            &&& after.bit_width == view.bit_width
            &&& after.n == view.n
            &&& after.scales == view.scales
            &&& after.blocked == view.blocked
            &&& after.warmup == view.warmup
            &&& after.packed == view.packed || (view.n == 0 && view.packed is None
                && after.packed is Some && after.packed->0.len() == 0)
            &&& !forgets ==> after.shift == view.shift && after.scale == view.scale
            &&& forgets ==> after.shift.len() == 0 && after.scale.len() == 0
        }),
{
    lemma_batch(view, vectors, m);
}

/// The demand that is recorded of a batch that is not committed: its own, once its rows
/// had been encoded and only the repack of the blocked buffer failed; that of the stored
/// rows, once those had been encoded again; otherwise the one that stood there.
pub proof fn law_recorded_demand(view: IndexView, vectors: Seq<u32>, m: int, work: AddWork)
    requires
        view.wf(),
        view.dim is Some,
        0 < m,
        vectors.len() == m * view.dim->0,
        !view.added(vectors, work).1,
    ensures
        ({
            let d = view.dim->0 as int;
            let w = view.bit_width as int;
            let again = ends_warm_up(view, m) && view.n > 0;
            let repack = !again && codebook_at_hand(view, work.codebook) && addressable(view, m)
                && view.blocked is Some && (view.n == 0 || view.packed is Some) && (
            work.run matches EncodeRun::Single(EncodeEvent::RepackFailed(rows)) && holds_rows(
                rows,
                m,
                d,
                w,
                pair_entries(view, m),
            ));
            let reencoded = again && codebook_at_hand(view, work.codebook) && (
            work.run matches EncodeRun::Refitted {
                shift,
                scale,
                buffer: EncodeEvent::Encoded(rows, _),
                ..
            } && {
                &&& shift@.len() == d
                &&& scale@.len() == d
                &&& all_usable(shift@, |v: u32| usable_shift(v))
                &&& all_usable(scale@, |v: u32| usable_factor(v))
                &&& holds_rows(rows, view.n, d, w, 0)
                &&& view.n <= usize::MAX
            });
            view.added(vectors, work).0.scratch_demand == if repack {
                m * d
            } else if reencoded {
                view.n * d
            } else {
                view.scratch_demand
            }
        }),
{
    let d = view.dim->0;
    lemma_batch(view, vectors, m);
    lemma_codebook(view, work.codebook);
    lemma_room(view, m);
    let ready = view.seeded(d, work.codebook);
    let bare = IndexView { shift: Seq::empty(), scale: Seq::empty(), ..ready };
    lemma_room(ready, m);
    match work.run {
        EncodeRun::Single(EncodeEvent::RepackFailed(rows)) => {
            lemma_rows_fit(ready, d as int, m, rows);
            lemma_rows_fit(bare, d as int, m, rows);
        },
        EncodeRun::Refitted { shift, scale, buffer, batch } => {
            law_good_numbers(Seq::empty(), shift@, scale@);
            let base = ready.refit_base(shift@, scale@);
            lemma_room(base, view.n);
            if let EncodeEvent::Encoded(rows, _) = buffer {
                lemma_rows_fit(base, d as int, view.n, rows);
            }
        },
        _ => {},
    }
}

/// The rotation and the codebook after a batch with rows, committed or not: the
/// rotation of the dim has been built, and each half of the codebook that was missing
/// has been taken over, where one of the right size was handed over.
pub proof fn law_seeded_caches(view: IndexView, vectors: Seq<u32>, m: int, work: AddWork)
    requires
        view.wf(),
        view.dim is Some,
        0 < m,
        vectors.len() == m * view.dim->0,
    ensures
        ({
            let after = view.added(vectors, work).0;
            let taken = work.codebook is Some && handed_over(view, work.codebook->0);
            &&& after.rotation == view.dim
            &&& after.boundaries == if view.boundaries is None && taken {
                Some(work.codebook->0.boundaries@)
            } else {
                view.boundaries
            }
            &&& after.centroids == if view.centroids is None && taken {
                Some(work.codebook->0.centroids@)
            } else {
                view.centroids
            }
        }),
{
    lemma_batch(view, vectors, m);
    if let Some(b) = work.codebook {
        law_codebook_size(b, view.bit_width as int);
    }
}

/// A first batch commits the dim of a lazy index when the kernels delivered for an
/// index of that dim, and otherwise leaves the index as it was.
pub proof fn law_first_batch(view: IndexView, vectors: Seq<u32>, dim: usize, m: int, work: AddWork)
    requires
        view.wf(),
        view.dim is None,
        8 <= dim <= 16384,
        dim % 8 == 0,
        0 < m,
        vectors.len() == m * dim,
    ensures
        ({
            let eager = IndexView { dim: Some(dim), ..view };
            let (after, done) = view.added_2d(vectors, dim, work);
            &&& view.with_dim(dim) == eager
            &&& done <==> delivered_once(eager, m, work)
            &&& done ==> after == eager.added(vectors, work).0
            &&& !done ==> after == view
        }),
{
    let eager = IndexView { dim: Some(dim), ..view };
    assert(eager =~= view.with_dim(dim));
    assert(0 * dim == 0 && 0 * crate::model::packed_row_bytes(dim as int, view.bit_width as int)
        == 0);
    assert(vectors.len() > 0) by (nonlinear_arith)
        requires
            vectors.len() == m * dim,
            0 < m,
            0 < dim,
    ;
    law_delivered_batch_is_committed(eager, vectors, m, work);
    crate::model::lemma_lazy_rollback(view, vectors, dim, work);
}

/// A batch on an index with a dim does the same whether its dim is named or not.
pub proof fn law_named_dim(view: IndexView, vectors: Seq<u32>, dim: usize, work: AddWork)
    requires
        view.wf(),
        view.dim == Some(dim),
    ensures
        view.with_dim(dim) == view,
        view.added_2d(vectors, dim, work) == view.added(vectors, work),
{
    assert(view.with_dim(dim) =~= view);
    if vectors.len() == 0 {
        assert(vectors =~= Seq::empty());
        law_empty_batch_changes_nothing(view, dim, work);
    }
}

/// What an add has to do: nothing without rows; encode the batch; fit it where it ends
/// warm-up of an index without rows; or fit and encode the stored rows again, on the
/// batch alone when that has a thousand rows.
pub proof fn law_plan_of_an_add(view: IndexView, m: int)
    requires
        view.wf(),
        view.dim is Some,
        0 <= m,
    ensures
        view.add_plan(m) == if m == 0 {
            AddPlan::Nothing
        } else if !ends_warm_up(view, m) {
            AddPlan::Append
        } else if view.n == 0 {
            AddPlan::FreshFit
        } else {
            AddPlan::Refit { fit_on_batch: m >= 1000 }
        },
{
    let d = view.dim->0 as int;
    assert(view.n * d == 0 <==> view.n == 0) by (nonlinear_arith)
        requires
            0 < d,
    ;
}

/// The phase an index is in: it warms up while it buffers rows; past that, it is
/// committed to identity when its calibration changes nothing, and fitted otherwise.
pub proof fn law_phase_of_an_index(view: IndexView)
    ensures
        view.calibration_state() == if view.warmup is Some {
            CalibrationState::WarmingUp
        } else if all_usable(view.shift, |v: u32| v == 0 || v == 0x8000_0000) && all_usable(
            view.scale,
            |v: u32| v == 0x3f80_0000,
        ) {
            CalibrationState::Identity
        } else {
            CalibrationState::Fitted
        },
{
    law_identity_changes_nothing(view.warmup is Some, view.shift, view.scale);
}

/// The rows a calibration is fitted on: a batch of a thousand rows or more alone, a
/// smaller one behind the buffered rows.
pub proof fn law_fitted_sample(view: IndexView, vectors: Seq<u32>, m: int)
    requires
        view.wf(),
        view.dim is Some,
        view.warmup is Some,
        0 <= m,
        vectors.len() == m * view.dim->0,
    ensures
        view.fit_sample(vectors) == if m >= 1000 {
            vectors
        } else {
            view.warmup->0 + vectors
        },
{
    lemma_batch(view, vectors, m);
}

/// The calibration an encoder is given: the committed one for a batch that is encoded
/// as it comes, otherwise none.
pub proof fn law_given_calibration(view: IndexView, plan: AddPlan)
    ensures
        view.pair_for(plan) is Some <==> plan == AddPlan::Append && view.shift.len() > 0,
        view.pair_for(plan) is Some ==> view.pair_for(plan)->0 == (view.shift, view.scale),
{
}

/// The packed rows whose lanes an append has to hand over: with the new codes at their
/// end, and before them the packed rows from the first rewritten slot on. None without
/// a blocked buffer.
pub proof fn law_rows_to_lay_out(view: IndexView, codes: Seq<u8>)
    requires
        view.wf(),
        view.dim is Some,
    ensures
        view.lanes_from() == first_lane(view),
        view.rows_for_lanes(codes) is Some == view.blocked is Some,
        view.blocked is Some && view.packed is None ==> view.rows_for_lanes(codes) == Some(codes),
        view.blocked is Some && view.packed is Some ==> {
            let skipped = first_lane(view) * view.dim->0 * view.bit_width / 8;
            view.rows_for_lanes(codes) == Some(
                view.packed->0.subrange(skipped, view.packed->0.len() as int) + codes,
            )
        },
{
    let d = view.dim->0 as int;
    let w = view.bit_width as int;
    law_packed_size(first_lane(view), d, w);
    law_row_width(d, w);
    let width = crate::model::packed_row_bytes(d, w);
    assert(0 <= first_lane(view) * width <= view.n * width) by (nonlinear_arith)
        requires
            0 <= first_lane(view) <= view.n,
            0 <= width,
    ;
    if view.blocked is Some {
        if view.packed is None {
            assert(view.rows_for_lanes(codes)->0 =~= codes);
        } else {
            let skipped = first_lane(view) * d * w / 8;
            assert(skipped == first_lane(view) * width);
            assert(view.rows_for_lanes(codes)->0 =~= view.packed->0.subrange(
                skipped,
                view.packed->0.len() as int,
            ) + codes);
        }
    }
}

} // verus!
