//! What an index is after it has been stored and read back.
use crate::blocked::{blocked_len, blocks, lemma_blocked_len_monotone};
use crate::calibration::{normalized, CalibrationState};
use crate::construct::{
    built, calibration_error, construct_error, fresh, lemma_built_wf, lemma_normalized, parts_error, shape_error, value_error,
    StoredIndex,
};
use crate::laws::adding::warms_up_under_identity;
use crate::model::{good_pair, good_scales, levels, valid_bit_width, valid_dim, IndexView};
use crate::persist::StoredShape;
use crate::validate::{bad_calibration_scale, bad_shift, bad_vector_scale, lemma_first_where};
use crate::work::{Codebook, LaneRows};
use vstd::prelude::*;

verus! {

/// Good numbers raise no error.
proof fn lemma_no_value_error(scales: Seq<u32>, shift: Seq<u32>, scale: Seq<u32>)
    requires
        good_scales(scales),
        good_pair(shift, scale),
    ensures
        value_error(scales, shift, scale) is None,
{
    lemma_first_where(scales, |v: u32| bad_vector_scale(v));
    lemma_first_where(shift, |v: u32| bad_shift(v));
    lemma_first_where(scale, |v: u32| bad_calibration_scale(v));
}

/// What a file holds of an index is read back: the loader accepts it, and the
/// result has the same dim, bit width, rows and codebook. Its calibration is the
/// stored one in the form every construction path agrees on.
pub proof fn law_stored_index_reads_back(
    view: IndexView,
    lanes: Option<LaneRows>,
    stored: StoredIndex,
)
    requires
        view.wf(),
        stored.describes(view, lanes),
    ensures
        stored.error(None) is None,
        ({
            let back = stored.index(None);
            &&& back.wf()
            &&& back.dim == view.dim
            &&& back.bit_width == view.bit_width
            &&& back.n == view.n
            &&& back.scales == view.scales
            &&& (back.shift, back.scale, back.warmup) == normalized(
                view.dim,
                view.n,
                view.shift,
                view.scale,
            )
            &&& view.n > 0 ==> {
                &&& back.packed is None
                &&& Some(back.blocked->0.data) == view.code_section(lanes)
                &&& back.boundaries == view.boundaries
                &&& back.centroids == view.centroids
                &&& view.blocked is Some ==> back.blocked == view.blocked
            }
        }),
{
    lemma_normalized(view.dim, view.n, view.shift, view.scale);
    let groups = view.section_groups(lanes);
    if view.n > 0 {
        lemma_blocked_len_monotone(0, view.n, groups);
        assert(view.section_groups(lanes) > 0);
    }
}

/// The phase an index is in after it has been stored and read back. A fitted
/// calibration stays fitted, with rows or without. Any other index is fixed to
/// identity when it holds rows, and warms up afresh when it holds none.
pub proof fn law_phase_after_reading_back(
    view: IndexView,
    lanes: Option<LaneRows>,
    stored: StoredIndex,
)
    requires
        view.wf(),
        warms_up_under_identity(view),
        stored.describes(view, lanes),
    ensures
        warms_up_under_identity(stored.index(None)),
        stored.index(None).calibration_state() == match view.calibration_state() {
            CalibrationState::Fitted => CalibrationState::Fitted,
            _ => if view.n > 0 {
                CalibrationState::Identity
            } else {
                CalibrationState::WarmingUp
            },
        },
        view.calibration_state() == CalibrationState::Fitted ==> {
            &&& stored.index(None).shift == view.shift
            &&& stored.index(None).scale == view.scale
        },
{
    law_stored_index_reads_back(view, lanes, stored);
}

/// Nothing drifts over repeated round trips: storing what was read back and
/// reading that back yields the same index, and the same fields are stored as long
/// as there are rows.
pub proof fn law_reading_back_is_stable(
    view: IndexView,
    lanes: Option<LaneRows>,
    stored: StoredIndex,
    other: Option<LaneRows>,
    again: StoredIndex,
)
    requires
        view.wf(),
        stored.describes(view, lanes),
        again.describes(stored.index(None), other),
    ensures
        again.index(None) == stored.index(None),
        again.bit_width == stored.bit_width,
        again.dim == stored.dim,
        again.n_vectors == stored.n_vectors,
        again.scales@ == stored.scales@,
        again.codes->BlockedSeq_0.codes@ == stored.codes->BlockedSeq_0.codes@,
        again.codes->BlockedSeq_0.groups == stored.codes->BlockedSeq_0.groups,
        again.codes->BlockedSeq_0.boundaries@ == stored.codes->BlockedSeq_0.boundaries@,
        again.codes->BlockedSeq_0.centroids@ == stored.codes->BlockedSeq_0.centroids@,
        view.n > 0 ==> again.tqplus_shift@ == stored.tqplus_shift@ && again.tqplus_scale@
            == stored.tqplus_scale@,
{
    law_stored_index_reads_back(view, lanes, stored);
    assert(again.index(None) =~= stored.index(None));
}

/// The parts of an index build it again: they are accepted, and the result holds
/// the same rows. An index past warm-up comes back with the very same calibration.
pub proof fn law_parts_build_the_index_again(view: IndexView)
    requires
        view.wf(),
        view.packed is Some,
        view.n <= usize::MAX,
        view.packed->0.len() <= usize::MAX,
    ensures
        parts_error(
            view.dim,
            view.bit_width,
            view.n as usize,
            view.packed->0,
            view.scales,
            view.shift,
            view.scale,
        ) is None,
        ({
            let back = built(
                view.dim,
                view.bit_width,
                view.n,
                view.packed->0,
                view.scales,
                view.shift,
                view.scale,
            );
            &&& back.dim == view.dim
            &&& back.bit_width == view.bit_width
            &&& back.n == view.n
            &&& back.packed == view.packed
            &&& back.scales == view.scales
            &&& view.n > 0 ==> back.shift == view.shift && back.scale == view.scale
                && back.warmup is None
            &&& view.calibration_state() == CalibrationState::Fitted ==> back.calibration_state()
                == CalibrationState::Fitted && back.shift == view.shift && back.scale == view.scale
        }),
{
    lemma_no_value_error(view.scales, view.shift, view.scale);
}

/// Every index that parts are accepted for can be stored and read back, whatever
/// codebook its rows are stored with.
pub proof fn law_accepted_parts_survive_storing(
    dim: Option<usize>,
    bit_width: usize,
    n: usize,
    packed: Seq<u8>,
    scales: Seq<u32>,
    shift: Seq<u32>,
    scale: Seq<u32>,
    book: Option<Codebook>,
    lanes: Option<LaneRows>,
    stored: StoredIndex,
)
    requires
        parts_error(dim, bit_width, n, packed, scales, shift, scale) is None,
        stored.describes(
            built(dim, bit_width, n as int, packed, scales, shift, scale).with_codebook(book),
            lanes,
        ),
    ensures
        stored.error(None) is None,
{
    let view = built(dim, bit_width, n as int, packed, scales, shift, scale);
    lemma_built_wf(dim, bit_width, n, packed, scales, shift, scale);
    if dim is Some {
        assert(view.with_codebook(book).wf());
        law_stored_index_reads_back(view.with_codebook(book), lanes, stored);
    }
}

/// The same dims are accepted at construction, at the first add and from stored
/// parts: the positive multiples of 8 up to the maximum.
pub proof fn law_dims_are_bounded_alike(dim: usize, bit_width: usize)
    requires
        valid_bit_width(bit_width as int),
    ensures
        construct_error(dim, bit_width) is None <==> valid_dim(dim as int),
        fresh(None, bit_width).dim_error(dim) is None <==> valid_dim(dim as int),
        shape_error(Some(dim), bit_width, 0, 0, 0, 0, 0) is None <==> valid_dim(dim as int),
{
}

/// A calibration that an index reports is one that another can be seeded with.
pub proof fn law_reported_calibration_seeds(view: IndexView)
    requires
        view.wf(),
        view.shift.len() > 0,
    ensures
        view.dim is Some,
        calibration_error(view.dim->0, view.bit_width, view.shift, view.scale) is None,
{
    lemma_first_where(view.shift, |v: u32| bad_shift(v));
    lemma_first_where(view.scale, |v: u32| bad_calibration_scale(v));
}

/// The sizes announced before anything is built are those of every section that is
/// stored; the codebook has as many entries as the bit width has levels.
pub proof fn law_announced_sizes_are_the_stored_ones(
    view: IndexView,
    lanes: Option<LaneRows>,
    stored: StoredIndex,
    shape: StoredShape,
    groups: int,
)
    requires
        view.wf(),
        stored.describes(view, lanes),
        shape.announces(view, groups),
        view.n > 0 ==> groups == view.section_groups(lanes),
    ensures
        shape.bit_width == stored.bit_width,
        shape.codes_len == stored.codes->BlockedSeq_0.codes@.len(),
        shape.scales_len == stored.scales@.len(),
        shape.calibration_len == stored.tqplus_shift@.len(),
        shape.calibration_len == stored.tqplus_scale@.len(),
        stored.codes->BlockedSeq_0.boundaries@.len() == levels(stored.bit_width as int) - 1,
        stored.codes->BlockedSeq_0.centroids@.len() == levels(stored.bit_width as int),
{
    if view.n == 0 {
        assert(blocked_len(0, groups) == 0) by (nonlinear_arith)
            requires
                blocks(0) == 0,
        ;
    } else {
        lemma_blocked_len_monotone(0, view.n, groups);
    }
}

/// A payload in native layout loads like the sequential one it stands for: both are
/// accepted or refused alike, and describe the same index.
pub proof fn law_native_and_sequential_payloads_load_alike(
    plain: StoredIndex,
    native: StoredIndex,
    sequential: Vec<u8>,
)
    requires
        plain.codes is BlockedSeq,
        native.codes is BlockedNative,
        plain.bit_width == native.bit_width,
        plain.dim == native.dim,
        plain.n_vectors == native.n_vectors,
        plain.scales@ == native.scales@,
        plain.tqplus_shift@ == native.tqplus_shift@,
        plain.tqplus_scale@ == native.tqplus_scale@,
        ({
            let p = plain.codes->BlockedSeq_0;
            let q = native.codes->BlockedNative_0;
            &&& p.groups == q.groups
            &&& p.boundaries@ == q.boundaries@
            &&& p.centroids@ == q.centroids@
            &&& p.codes@.len() == q.codes@.len()
            &&& sequential@ == p.codes@
        }),
    ensures
        plain.error(None) == native.error(Some(sequential)),
        plain.index(None) == native.index(Some(sequential)),
{
}

} // verus!
