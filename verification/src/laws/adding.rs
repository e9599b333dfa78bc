//! What adding and removing leave alone.
use crate::calibration::{identity, TQPLUS_MIN_SAMPLES};
use crate::construct::{built, fresh};
use crate::model::{lemma_lazy_rollback, IndexView};
use crate::rows::{lemma_swap_removed_rows, row};
use crate::work::{AddWork, EncodeEvent, EncodeRun};
use vstd::prelude::*;

verus! {

/// The rows and what belongs to them are the same; packed rows may have been
/// materialized where there are none.
pub open spec fn same_rows(a: IndexView, b: IndexView) -> bool {
    &&& a.dim == b.dim
    &&& a.bit_width == b.bit_width
    &&& a.n == b.n
    &&& a.scales == b.scales
    &&& a.blocked == b.blocked
    &&& a.warmup == b.warmup
    &&& b.packed == a.packed || (a.n == 0 && a.packed is None && b.packed == Some(
        Seq::<u8>::empty(),
    ))
}

/// A batch that is not committed leaves every stored row, and the warm-up buffer,
/// as they were.
pub proof fn law_failed_add_keeps_the_rows(view: IndexView, vectors: Seq<u32>, work: AddWork)
    requires
        view.wf(),
        view.dim is Some,
    ensures
        !view.added(vectors, work).1 ==> same_rows(view, view.added(vectors, work).0),
{
}

/// A batch that is not committed leaves the calibration as it was, whether the encoder
/// failed or the repack of the blocked cache after it. One that would have ended
/// warm-up of an index without rows leaves none.
pub proof fn law_failed_add_keeps_the_calibration(
    view: IndexView,
    vectors: Seq<u32>,
    work: AddWork,
)
    requires
        view.wf(),
        view.dim is Some,
        !view.added(vectors, work).1,
    ensures
        ({
            let after = view.added(vectors, work).0;
            if view.add_plan(vectors.len() as int / view.dim->0 as int) is FreshFit {
                after.n == 0 && after.shift.len() == 0 && after.scale.len() == 0
            } else {
                after.shift == view.shift && after.scale == view.scale
            }
        }),
{
    let d = view.dim->0 as int;
    if view.warmup is Some && view.warmup->0.len() == 0 {
        assert(view.n == 0) by (nonlinear_arith)
            requires
                0 <= view.n,
                0 < d,
                view.n * d == 0,
        ;
    }
}

/// A first batch that is not committed leaves a lazy index exactly as it was, so
/// that a batch of another dim is a fresh start.
pub proof fn law_failed_first_batch_leaves_a_lazy_index(
    view: IndexView,
    vectors: Seq<u32>,
    dim: usize,
    work: AddWork,
)
    requires
        view.wf(),
        view.dim is None,
        !view.added_2d(vectors, dim, work).1,
    ensures
        view.added_2d(vectors, dim, work).0 == view,
{
    lemma_lazy_rollback(view, vectors, dim, work);
}

/// The first batch of a lazy index does what it does on an index that was made with
/// its dim: it is committed or not alike, and leaves the same state when it is.
pub proof fn law_first_batch_commits_the_dim(
    bit_width: usize,
    vectors: Seq<u32>,
    dim: usize,
    work: AddWork,
)
    requires
        vectors.len() > 0,
    ensures
        ({
            let lazy = fresh(None, bit_width).added_2d(vectors, dim, work);
            let eager = fresh(Some(dim), bit_width).added(vectors, work);
            &&& lazy.1 == eager.1
            &&& lazy.1 ==> lazy.0 == eager.0 && lazy.0.calibration_state()
                == eager.0.calibration_state()
        }),
{
    assert(fresh(None, bit_width).with_dim(dim) =~= fresh(Some(dim), bit_width));
}

/// An index whose rows are present in blocked form alone stays so: no add and no
/// removal that leaves rows materializes the packed form.
pub proof fn law_blocked_only_rows_stay_blocked(
    view: IndexView,
    vectors: Seq<u32>,
    work: AddWork,
    idx: int,
)
    requires
        view.wf(),
        view.blocked_only(),
        0 <= idx < view.n,
    ensures
        view.added(vectors, work).0.blocked_only(),
        view.n > 1 ==> view.swap_removed(idx).blocked_only(),
{
    let d = view.dim->0;
    assert(0 <= vectors.len() as int / d as int) by (nonlinear_arith)
        requires
            0 < d,
    ;
}

/// Once warm-up is over the calibration is fixed: no batch, committed or not,
/// changes it or is fitted to, and the index never warms up again. So it is with a
/// calibration that an index was seeded with.
pub proof fn law_committed_calibration_never_changes(
    view: IndexView,
    vectors: Seq<u32>,
    work: AddWork,
)
    requires
        view.wf(),
        view.dim is Some,
        view.warmup is None,
    ensures
        view.added(vectors, work).0.shift == view.shift,
        view.added(vectors, work).0.scale == view.scale,
        view.added(vectors, work).0.warmup is None,
        view.added(vectors, work).0.calibration_state() == view.calibration_state(),
        forall|n: int| n > 0 ==> #[trigger] view.add_plan(n) is Append,
{
}

/// An index whose rows are all gone while it warmed up can still be fitted: a
/// committed batch that reaches the threshold alone brings its own calibration,
/// whatever pair was left behind.
pub proof fn law_drained_index_can_still_be_fitted(
    view: IndexView,
    vectors: Seq<u32>,
    work: AddWork,
)
    requires
        view.wf(),
        view.dim is Some,
        view.warmup is Some,
        view.n == 0,
        vectors.len() as int / view.dim->0 as int >= TQPLUS_MIN_SAMPLES,
        view.added(vectors, work).1,
    ensures
        work.run matches EncodeRun::Single(EncodeEvent::Encoded(rows, _)) && {
            let after = view.added(vectors, work).0;
            &&& after.shift == rows.shift@
            &&& after.scale == rows.scale@
            &&& after.shift.len() == view.dim->0
            &&& after.warmup is None
        },
{
    let d = view.dim->0 as int;
    assert(0 * d == 0);
}

/// While an index warms up, its calibration is the identity: what it holds is
/// encoded under it.
pub open spec fn warms_up_under_identity(view: IndexView) -> bool {
    view.warmup is Some ==> identity(view.shift, view.scale)
}

/// Every index starts out under the identity calibration while it warms up: a fresh
/// one, and one built from stored parts.
pub proof fn law_indexes_start_under_identity(
    dim: Option<usize>,
    bit_width: usize,
    n: int,
    packed: Seq<u8>,
    scales: Seq<u32>,
    shift: Seq<u32>,
    scale: Seq<u32>,
)
    requires
        shift.len() == scale.len(),
    ensures
        warms_up_under_identity(fresh(dim, bit_width)),
        warms_up_under_identity(built(dim, bit_width, n, packed, scales, shift, scale)),
{
}

/// An add leaves an index that warms up under the identity calibration, committed or
/// not, as long as the encoder settles on identity for a batch that does not end
/// warm-up. A batch that would have ended it and is not committed leaves no
/// calibration behind.
pub proof fn law_warm_up_stays_under_identity(
    view: IndexView,
    vectors: Seq<u32>,
    dim: usize,
    work: AddWork,
)
    requires
        view.wf(),
        view.dim matches Some(d) ==> d == dim,
        warms_up_under_identity(view),
        view.n + (vectors.len() as int / dim as int) < TQPLUS_MIN_SAMPLES ==> (
        work.run matches EncodeRun::Single(EncodeEvent::Encoded(rows, _)) ==> identity(
            rows.shift@,
            rows.scale@,
        )),
    ensures
        view.dim is Some ==> warms_up_under_identity(view.added(vectors, work).0),
        warms_up_under_identity(view.added_2d(vectors, dim, work).0),
{
}

/// Removing a slot never changes the calibration or the phase of the index, and so
/// keeps the identity that it warms up under.
pub proof fn law_removal_keeps_the_calibration(view: IndexView, idx: int)
    requires
        view.wf(),
        0 <= idx < view.n,
    ensures
        view.swap_removed(idx).shift == view.shift,
        view.swap_removed(idx).scale == view.scale,
        view.swap_removed(idx).warmup is Some == view.warmup is Some,
        view.swap_removed(idx).calibration_state() == view.calibration_state(),
        warms_up_under_identity(view) ==> warms_up_under_identity(view.swap_removed(idx)),
{
}

/// A committed batch below the threshold is buffered behind the rows already
/// there, so that row `i` of the buffer is slot `i`; one that reaches the
/// threshold ends warm-up for good.
pub proof fn law_warm_up_ends_at_the_threshold(view: IndexView, vectors: Seq<u32>, work: AddWork)
    requires
        view.wf(),
        view.dim is Some,
        view.warmup is Some,
        vectors.len() as int % (view.dim->0 as int) == 0,
        vectors.len() > 0,
        view.added(vectors, work).1,
    ensures
        ({
            let d = view.dim->0 as int;
            let n = vectors.len() as int / d;
            let after = view.added(vectors, work).0;
            &&& after.n == view.n + n
            &&& view.n + n < TQPLUS_MIN_SAMPLES ==> after.warmup == Some(view.warmup->0 + vectors)
            &&& view.n + n >= TQPLUS_MIN_SAMPLES ==> after.warmup is None && after.shift.len() == d
        }),
{
    let d = view.dim->0 as int;
    let n = vectors.len() as int / d;
    vstd::arithmetic::div_mod::lemma_fundamental_div_mod(vectors.len() as int, d);
    assert(n > 0) by (nonlinear_arith)
        requires
            vectors.len() == d * n + 0,
            vectors.len() > 0,
            d > 0,
    ;
    if view.warmup->0.len() == 0 {
        assert(view.n == 0) by (nonlinear_arith)
            requires
                view.n * d == 0,
                0 < d,
        ;
    }
}

/// Reaching the threshold keeps the slot order: the buffered rows, re-encoded,
/// keep their slots and the batch follows them.
pub proof fn law_refit_keeps_slot_order(view: IndexView, vectors: Seq<u32>, work: AddWork)
    requires
        view.wf(),
        view.dim is Some,
        view.add_plan(vectors.len() as int / view.dim->0 as int) is Refit,
        view.added(vectors, work).1,
    ensures
        work.run matches EncodeRun::Refitted {
            shift,
            scale,
            buffer: EncodeEvent::Encoded(first, _),
            batch: EncodeEvent::Encoded(second, _),
        } && {
            let after = view.added(vectors, work).0;
            &&& after.n == view.n + vectors.len() as int / view.dim->0 as int
            &&& after.packed == Some(first.codes@ + second.codes@)
            &&& after.scales == first.scales@ + second.scales@
            &&& after.shift == shift@
            &&& after.scale == scale@
            &&& after.blocked is None
        },
{
    let d = view.dim->0;
    let ready = view.seeded(d, work.codebook);
    if let EncodeRun::Refitted { shift, scale, buffer, batch } = work.run {
        let base = ready.refit_base(shift@, scale@);
        if let EncodeEvent::Encoded(first, _) = buffer {
            assert(base.packed->0 + first.codes@ =~= first.codes@);
            assert(base.scales + first.scales@ =~= first.scales@);
        }
    }
}

/// A committed batch adds its rows behind the ones already there and leaves those
/// alone, unless it ends warm-up and re-encodes them.
pub proof fn law_append_adds_behind(view: IndexView, vectors: Seq<u32>, work: AddWork)
    requires
        view.wf(),
        view.dim is Some,
        view.add_plan(vectors.len() as int / view.dim->0 as int) is Append,
        view.added(vectors, work).1,
    ensures
        work.run matches EncodeRun::Single(EncodeEvent::Encoded(rows, lanes)) && {
            let after = view.added(vectors, work).0;
            &&& after.n == view.n + vectors.len() as int / view.dim->0 as int
            &&& after.scales == view.scales + rows.scales@
            &&& view.packed matches Some(p) ==> after.packed == Some(p + rows.codes@)
        },
{
}

/// A batch without rows changes nothing, on a lazy index as on any other.
pub proof fn law_empty_batch_changes_nothing(view: IndexView, dim: usize, work: AddWork)
    requires
        view.wf(),
        view.add_error(Seq::empty(), dim) is None,
    ensures
        view.added_2d(Seq::empty(), dim, work) == (view, true),
        view.dim is Some ==> view.added(Seq::empty(), work) == (view, true),
{
    if view.dim is Some {
        let d = view.dim->0 as int;
        assert(0int / d == 0) by (nonlinear_arith)
            requires
                0 < d,
        ;
    }
}

/// The bit width never changes, and neither does the dim once it is committed.
pub proof fn law_shape_is_fixed(view: IndexView, vectors: Seq<u32>, dim: usize, work: AddWork)
    requires
        view.wf(),
    ensures
        view.added_2d(vectors, dim, work).0.bit_width == view.bit_width,
        view.dim is Some && view.add_error(vectors, dim) is None ==> view.added_2d(
            vectors,
            dim,
            work,
        ).0.dim == view.dim,
        view.dim is None && view.add_error(vectors, dim) is None && view.added_2d(
            vectors,
            dim,
            work,
        ).1 && vectors.len() > 0 ==> view.added_2d(vectors, dim, work).0.dim == Some(dim),
{
}

/// Whether an add runs work beyond its own rows is whether it ends warm-up.
pub proof fn law_only_the_crossing_parallelizes(view: IndexView, n: int)
    requires
        view.wf(),
        view.dim is Some,
        n > 0,
    ensures
        (view.warmup is Some && view.n + n >= TQPLUS_MIN_SAMPLES) <==> (view.add_plan(n) is FreshFit
            || view.add_plan(n) is Refit),
{
}

/// What a removal does to the rows: the last one takes the removed slot, every
/// other one stays, in the packed rows, the scales and the warm-up buffer alike.
pub proof fn law_removal_moves_the_last_row(view: IndexView, idx: int, slot: int)
    requires
        view.wf(),
        0 <= idx < view.n,
        0 <= slot < view.n - 1,
    ensures
        ({
            let d = view.dim->0 as int;
            let width = crate::model::packed_row_bytes(d, view.bit_width as int);
            let after = view.swap_removed(idx);
            let source = if slot == idx {
                view.n - 1
            } else {
                slot
            };
            &&& after.n == view.n - 1
            &&& after.scales[slot] == view.scales[source]
            &&& view.packed matches Some(p) ==> row(after.packed->0, width, slot) == row(
                p,
                width,
                source,
            )
            &&& view.warmup matches Some(w) ==> row(after.warmup->0, d, slot) == row(w, d, source)
        }),
{
    let d = view.dim->0 as int;
    let width = crate::model::packed_row_bytes(d, view.bit_width as int);
    if let Some(p) = view.packed {
        lemma_swap_removed_rows(p, width, view.n, idx, slot);
    }
    if let Some(w) = view.warmup {
        lemma_swap_removed_rows(w, d, view.n, idx, slot);
    }
}

} // verus!
