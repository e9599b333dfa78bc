//! What is accepted, what is refused, and why, in plain numbers.
use crate::calibration::normalized;
use crate::construct::{
    built, calibration_error, construct_error, fresh, parts_error, CodePayload, StoredIndex,
};
use crate::error::{AddError, ConstructError, FromPartsError, LoadError, SearchError};
use crate::laws::numbers::{
    all_usable, law_accepted_numbers, law_clean_batches, law_reported_coordinate_is_the_first,
    usable_coord, usable_factor, usable_scale, usable_shift,
};
use crate::laws::sizes::{
    law_blocked_size, law_good_numbers, law_packed_size, law_row_width, supported, whole_blocks,
};
use crate::model::IndexView;
use crate::validate::{
    bad_calibration_scale, bad_coord, bad_shift, bad_vector_scale, first_where, invalid_coord,
    lemma_first_where,
};
use vstd::arithmetic::power2::pow2;
use vstd::prelude::*;

verus! {

/// The number at `i` is the first that is not accepted.
pub open spec fn first_unusable(s: Seq<u32>, i: int, usable: spec_fn(u32) -> bool) -> bool {
    &&& 0 <= i < s.len()
    &&& !usable(s[i])
    &&& forall|j: int| 0 <= j < i ==> usable(#[trigger] s[j])
}

proof fn lemma_first(s: Seq<u32>, bad: spec_fn(u32) -> bool, usable: spec_fn(u32) -> bool)
    requires
        forall|v: u32| #[trigger] bad(v) == !usable(v),
    ensures
        match first_where(s, bad) {
            Some(i) => first_unusable(s, i, usable) && !all_usable(s, usable),
            None => all_usable(s, usable),
        },
{
    lemma_first_where(s, bad);
    match first_where(s, bad) {
        Some(i) => {
            assert(bad(s[i]));
            assert forall|j: int| 0 <= j < i implies usable(#[trigger] s[j]) by {
                assert(!bad(s[j]));
            }
        },
        None => {
            assert forall|j: int| 0 <= j < s.len() implies usable(#[trigger] s[j]) by {
                assert(!bad(s[j]));
            }
        },
    }
}

proof fn lemma_firsts(scales: Seq<u32>, shift: Seq<u32>, scale: Seq<u32>)
    ensures
        match first_where(scales, |v: u32| bad_vector_scale(v)) {
            Some(i) => first_unusable(scales, i, |v: u32| usable_scale(v)) && !all_usable(
                scales,
                |v: u32| usable_scale(v),
            ),
            None => all_usable(scales, |v: u32| usable_scale(v)),
        },
        match first_where(shift, |v: u32| bad_shift(v)) {
            Some(i) => first_unusable(shift, i, |v: u32| usable_shift(v)) && !all_usable(
                shift,
                |v: u32| usable_shift(v),
            ),
            None => all_usable(shift, |v: u32| usable_shift(v)),
        },
        match first_where(scale, |v: u32| bad_calibration_scale(v)) {
            Some(i) => first_unusable(scale, i, |v: u32| usable_factor(v)) && !all_usable(
                scale,
                |v: u32| usable_factor(v),
            ),
            None => all_usable(scale, |v: u32| usable_factor(v)),
        },
{
    assert forall|v: u32| #[trigger] bad_vector_scale(v) == !usable_scale(v) by {
        law_accepted_numbers(v, 0);
    }
    assert forall|v: u32| #[trigger] bad_shift(v) == !usable_shift(v) by {
        law_accepted_numbers(v, 0);
    }
    assert forall|v: u32| #[trigger] bad_calibration_scale(v) == !usable_factor(v) by {
        law_accepted_numbers(v, 0);
    }
    lemma_first(scales, |v: u32| bad_vector_scale(v), |v: u32| usable_scale(v));
    lemma_first(shift, |v: u32| bad_shift(v), |v: u32| usable_shift(v));
    lemma_first(scale, |v: u32| bad_calibration_scale(v), |v: u32| usable_factor(v));
}

/// An empty index can be made of every supported shape; otherwise the first thing wrong
/// with the shape is reported.
pub proof fn law_shapes_that_can_be_made(dim: usize, bit_width: usize)
    ensures
        match construct_error(dim, bit_width) {
            None => supported(dim as int, bit_width as int),
            Some(ConstructError::BitWidthOutOfRange(got)) => {
                &&& got == bit_width
                &&& !(2 <= bit_width <= 4)
            },
            Some(ConstructError::DimNotPositiveMultipleOf8(got)) => {
                &&& got == dim
                &&& 2 <= bit_width <= 4
                &&& dim == 0 || dim % 8 != 0
            },
            Some(ConstructError::DimTooLarge { dim: got, max }) => {
                &&& got == dim
                &&& max == 16384
                &&& 2 <= bit_width <= 4
                &&& dim % 8 == 0
                &&& dim > 16384
            },
            Some(_) => false,
        },
{
}

/// An index without rows holds nothing, and waits for its first calibration.
pub proof fn law_index_without_rows(dim: Option<usize>, bit_width: usize)
    ensures
        ({
            let view = fresh(dim, bit_width);
            &&& view.dim == dim
            &&& view.bit_width == bit_width
            &&& view.n == 0
            &&& view.packed is Some
            &&& view.packed->0.len() == 0
            &&& view.blocked is None
            &&& view.scales.len() == 0
            &&& view.shift.len() == 0
            &&& view.scale.len() == 0
            &&& view.warmup is Some
            &&& view.warmup->0.len() == 0
            &&& view.rotation is None
            &&& view.boundaries is None
            &&& view.centroids is None
            &&& view.scratch_demand == 0
        }),
{
}

/// A calibration can be given to an index of every supported shape when it has an
/// accepted number for each coordinate in both halves; otherwise the first thing wrong
/// is reported, a shift before a scale, and the first of either.
pub proof fn law_calibrations_that_can_be_given(
    dim: usize,
    bit_width: usize,
    shift: Seq<u32>,
    scale: Seq<u32>,
)
    requires
        shift.len() <= usize::MAX,
        scale.len() <= usize::MAX,
    ensures
        ({
            let fits = supported(dim as int, bit_width as int);
            let sized = shift.len() == dim && scale.len() == dim;
            let shifts = all_usable(shift, |v: u32| usable_shift(v));
            match calibration_error(dim, bit_width, shift, scale) {
                None => fits && sized && shifts && all_usable(scale, |v: u32| usable_factor(v)),
                Some(ConstructError::CalibrationLengthMismatch { dim: d, shift_len, scale_len }) => {
                    &&& fits
                    &&& !sized
                    &&& d == dim
                    &&& shift_len == shift.len()
                    &&& scale_len == scale.len()
                },
                Some(ConstructError::CalibrationShiftNotFinite { coord_index }) => fits && sized
                    && first_unusable(shift, coord_index as int, |v: u32| usable_shift(v)),
                Some(ConstructError::CalibrationScaleNotPositive { coord_index }) => fits && sized
                    && shifts && first_unusable(
                    scale,
                    coord_index as int,
                    |v: u32| usable_factor(v),
                ),
                Some(e) => !fits && construct_error(dim, bit_width) == Some(e),
            }
        }),
{
    law_shapes_that_can_be_made(dim, bit_width);
    lemma_firsts(Seq::empty(), shift, scale);
}

/// Parts make an index when they agree: so many rows of so many coordinates of so many
/// bits, one scale for each row, a calibration for each coordinate or none, and
/// accepted numbers. Without a dim nothing else may be there. Otherwise the first thing
/// wrong is reported, sizes before values.
pub proof fn law_parts_that_make_an_index(
    dim: Option<usize>,
    bit_width: usize,
    n: usize,
    packed: Seq<u8>,
    scales: Seq<u32>,
    shift: Seq<u32>,
    scale: Seq<u32>,
)
    requires
        packed.len() <= usize::MAX,
        scales.len() <= usize::MAX,
        shift.len() <= usize::MAX,
        scale.len() <= usize::MAX,
    ensures
        ({
            let width = 2 <= bit_width <= 4;
            let halves = width && shift.len() == scale.len();
            let d = dim->0;
            let bits = n * d * bit_width;
            let shaped = halves && dim is Some && supported(d as int, bit_width as int);
            let counted = shaped && 8 * packed.len() == bits;
            let sized = if dim is Some {
                counted && scales.len() == n && (shift.len() == 0 || shift.len() == d)
            } else {
                halves && n == 0 && packed.len() == 0 && scales.len() == 0 && shift.len() == 0
            };
            let good_scales = all_usable(scales, |v: u32| usable_scale(v));
            let good_shift = all_usable(shift, |v: u32| usable_shift(v));
            match parts_error(dim, bit_width, n, packed, scales, shift, scale) {
                None => sized && good_scales && good_shift && all_usable(
                    scale,
                    |v: u32| usable_factor(v),
                ),
                Some(FromPartsError::BitWidthOutOfRange(got)) => got == bit_width && !width,
                Some(FromPartsError::TqplusLengthMismatch { shift_len, scale_len }) => {
                    &&& width
                    &&& shift.len() != scale.len()
                    &&& shift_len == shift.len()
                    &&& scale_len == scale.len()
                },
                Some(FromPartsError::DimNotPositiveMultipleOf8(got)) => {
                    &&& halves
                    &&& dim == Some(got)
                    &&& d == 0 || d % 8 != 0
                },
                Some(FromPartsError::DimTooLarge { dim: got, max }) => {
                    &&& halves
                    &&& dim == Some(got)
                    &&& d % 8 == 0
                    &&& d > 16384
                    &&& max == 16384
                },
                Some(FromPartsError::PackedCodesSizeOverflow { n_vectors, dim: got, bit_width: w }) => {
                    &&& shaped
                    &&& bits > 8 * usize::MAX
                    &&& n_vectors == n
                    &&& got == d
                    &&& w == bit_width
                },
                Some(FromPartsError::PackedCodesLengthMismatch { expected, got }) => {
                    &&& shaped
                    &&& 8 * expected == bits
                    &&& got == packed.len()
                    &&& got != expected
                },
                Some(FromPartsError::ScalesLengthMismatch { expected, got }) => {
                    &&& counted
                    &&& expected == n
                    &&& got == scales.len()
                    &&& got != n
                },
                Some(FromPartsError::TqplusLengthNotDim { got, dim: want }) => {
                    &&& counted
                    &&& scales.len() == n
                    &&& got == shift.len()
                    &&& want == d
                    &&& got != 0
                    &&& got != d
                },
                Some(FromPartsError::LazyMustHaveZeroVectors(got)) => {
                    &&& halves
                    &&& dim is None
                    &&& got == n
                    &&& n != 0
                },
                Some(FromPartsError::LazyMustHaveEmptyPackedCodes(got)) => {
                    &&& halves
                    &&& dim is None
                    &&& n == 0
                    &&& got == packed.len()
                    &&& got != 0
                },
                Some(FromPartsError::LazyMustHaveEmptyScales(got)) => {
                    &&& halves
                    &&& dim is None
                    &&& n == 0
                    &&& packed.len() == 0
                    &&& got == scales.len()
                    &&& got != 0
                },
                Some(FromPartsError::LazyMustHaveEmptyTqplus(got)) => {
                    &&& halves
                    &&& dim is None
                    &&& n == 0
                    &&& packed.len() == 0
                    &&& scales.len() == 0
                    &&& got == shift.len()
                    &&& got != 0
                },
                Some(FromPartsError::InvalidScaleValue { slot, value }) => {
                    &&& sized
                    &&& first_unusable(scales, slot as int, |v: u32| usable_scale(v))
                    &&& value == scales[slot as int]
                },
                Some(FromPartsError::InvalidTqplusShiftValue { coord, value }) => {
                    &&& sized
                    &&& good_scales
                    &&& first_unusable(shift, coord as int, |v: u32| usable_shift(v))
                    &&& value == shift[coord as int]
                },
                Some(FromPartsError::InvalidTqplusScaleValue { coord, value }) => {
                    &&& sized
                    &&& good_scales
                    &&& good_shift
                    &&& first_unusable(scale, coord as int, |v: u32| usable_factor(v))
                    &&& value == scale[coord as int]
                },
            }
        }),
{
    lemma_firsts(scales, shift, scale);
    if let Some(d) = dim {
        if d % 8 == 0 {
            law_packed_size(n as int, d as int, bit_width as int);
        }
    }
}

/// What an index built of parts holds: those parts, under the declared calibration, and
/// no cache.
pub proof fn law_index_of_parts(
    dim: Option<usize>,
    bit_width: usize,
    n: int,
    packed: Seq<u8>,
    scales: Seq<u32>,
    shift: Seq<u32>,
    scale: Seq<u32>,
)
    ensures
        ({
            let view = built(dim, bit_width, n, packed, scales, shift, scale);
            &&& view.dim == dim
            &&& view.bit_width == bit_width
            &&& view.n == n
            &&& view.packed == Some(packed)
            &&& view.scales == scales
            &&& (view.shift, view.scale, view.warmup) == normalized(dim, n, shift, scale)
            &&& view.blocked is None
            &&& view.rotation is None
            &&& view.boundaries is None
            &&& view.centroids is None
            &&& view.scratch_demand == 0
        }),
{
}

/// A batch is accepted when its dim is the committed one, or can become it, and every
/// coordinate is accepted; otherwise the first thing wrong is reported, the dim before
/// the coordinates and the first of those.
pub proof fn law_batches_that_are_accepted(view: IndexView, vectors: Seq<u32>, dim: usize)
    requires
        view.wf(),
        vectors.len() <= usize::MAX,
    ensures
        ({
            let known = view.dim == Some(dim);
            let possible = view.dim is None && 8 <= dim <= 16384 && dim % 8 == 0;
            match view.add_error(vectors, dim) {
                None => (known || possible) && all_usable(vectors, |v: u32| usable_coord(v)),
                Some(AddError::DimMismatch { existing, got }) => {
                    &&& view.dim == Some(existing)
                    &&& got == dim
                    &&& existing != dim
                },
                Some(AddError::ZeroDim) => view.dim is None && dim == 0,
                Some(AddError::DimNotMultipleOf8(got)) => {
                    &&& view.dim is None
                    &&& got == dim
                    &&& dim % 8 != 0
                },
                Some(AddError::DimTooLarge { dim: got, max }) => {
                    &&& view.dim is None
                    &&& got == dim
                    &&& max == 16384
                    &&& dim % 8 == 0
                    &&& dim > 16384
                },
                Some(AddError::InvalidInputValue { vector_index, coord_index, value }) => {
                    let at = vector_index * dim + coord_index;
                    &&& known || possible
                    &&& coord_index < dim
                    &&& first_unusable(vectors, at, |v: u32| usable_coord(v))
                    &&& value == vectors[at]
                },
                Some(_) => false,
            }
        }),
{
    if view.dim_error(dim) is None {
        lemma_reported(vectors, dim as int);
    }
}

proof fn lemma_reported(values: Seq<u32>, dim: int)
    requires
        0 < dim,
        values.len() <= usize::MAX,
    ensures
        match invalid_coord(values, dim) {
            Some((row, column, value)) => {
                let at = row * dim + column;
                &&& 0 <= column < dim
                &&& 0 <= row <= usize::MAX
                &&& column <= usize::MAX
                &&& first_unusable(values, at, |v: u32| usable_coord(v))
                &&& value == values[at]
            },
            None => all_usable(values, |v: u32| usable_coord(v)),
        },
{
    law_clean_batches(values, dim);
    let usable = |v: u32| usable_coord(v);
    if let Some((row, column, value)) = invalid_coord(values, dim) {
        if values.len() == 0 {
            lemma_first_where(values, |v: u32| bad_coord(v));
        }
        law_reported_coordinate_is_the_first(values, dim, 0);
        let at = row * dim + column;
        assert(row <= at && column <= at) by (nonlinear_arith)
            requires
                0 <= row,
                0 < dim,
                0 <= column,
                at == row * dim + column,
        ;
        assert forall|j: int| 0 <= j < at implies usable(#[trigger] values[j]) by {
            law_reported_coordinate_is_the_first(values, dim, j);
        }
    }
}

/// A search is accepted when the queries are whole rows of accepted coordinates and the
/// mask, if there is one, has an entry for each slot; otherwise the first thing wrong
/// is reported, in that order. An index without a dim accepts every search.
pub proof fn law_searches_that_are_accepted(
    view: IndexView,
    queries: Seq<u32>,
    mask: Option<Seq<bool>>,
)
    requires
        view.wf(),
        view.n <= usize::MAX,
        queries.len() <= usize::MAX,
        mask is Some ==> mask->0.len() <= usize::MAX,
    ensures
        ({
            let d = view.dim->0;
            let whole = view.dim is Some && queries.len() as int % d as int == 0;
            let clean = all_usable(queries, |v: u32| usable_coord(v));
            match view.search_error(queries, mask) {
                None => view.dim is None || (whole && clean && (mask is None || mask->0.len()
                    == view.n)),
                Some(SearchError::QueryBufferNotMultipleOfDim { queries_len, dim }) => {
                    &&& view.dim == Some(dim)
                    &&& !whole
                    &&& queries_len == queries.len()
                },
                Some(SearchError::InvalidQueryValue { query_index, coord_index, value }) => {
                    let at = query_index * d + coord_index;
                    &&& whole
                    &&& coord_index < d
                    &&& first_unusable(queries, at, |v: u32| usable_coord(v))
                    &&& value == queries[at]
                },
                Some(SearchError::MaskLengthMismatch { expected, got }) => {
                    &&& whole
                    &&& clean
                    &&& mask is Some
                    &&& expected == view.n
                    &&& got == mask->0.len()
                    &&& got != expected
                },
                Some(_) => false,
            }
        }),
{
    if let Some(d) = view.dim {
        lemma_reported(queries, d as int);
    }
}

/// A blocked payload agrees with its header: supported shape, accepted numbers, and the
/// sizes that so many rows of so many bytes have.
pub open spec fn payload_in_order(stored: StoredIndex, groups: int, codes: int) -> bool {
    let w = stored.bit_width as int;
    &&& 2 <= w <= 4
    &&& stored.dim <= 16384
    &&& stored.dim % 8 == 0
    &&& all_usable(stored.scales@, |v: u32| usable_scale(v))
    &&& stored.tqplus_shift@.len() == stored.tqplus_scale@.len()
    &&& all_usable(stored.tqplus_shift@, |v: u32| usable_shift(v))
    &&& all_usable(stored.tqplus_scale@, |v: u32| usable_factor(v))
    &&& stored.tqplus_shift@.len() == 0 || stored.tqplus_shift@.len() == stored.dim
    &&& stored.n_vectors > 0 ==> {
        &&& stored.dim > 0
        &&& groups > 0
        &&& codes == 32 * ((stored.n_vectors + 31) / 32) * groups
    }
}

/// `len` entries, where a codebook of so many bits has `pow2(bits) - less`.
pub open spec fn level_entries(len: int, bits: int, less: int) -> bool {
    len + less == pow2(bits as nat)
}

/// A stored index is accepted when its payload agrees with its header; a missing scale
/// is reported before anything else. Packed rows are judged like parts.
pub proof fn law_stored_indexes_that_are_accepted(stored: StoredIndex, sequential: Option<Vec<u8>>)
    ensures
        ({
            let n = stored.n_vectors;
            let missing = stored.scales@.len() != n;
            match stored.codes {
                CodePayload::Packed(packed) => match parts_error(
                    if stored.dim == 0 {
                        None
                    } else {
                        Some(stored.dim)
                    },
                    stored.bit_width,
                    n,
                    packed@,
                    stored.scales@,
                    stored.tqplus_shift@,
                    stored.tqplus_scale@,
                ) {
                    None => stored.error(sequential) is None,
                    Some(e) => stored.error(sequential) == Some(LoadError::Parts(e)),
                },
                CodePayload::BlockedSeq(p) => {
                    let agrees = payload_in_order(stored, p.groups as int, p.codes@.len() as int)
                        && (n > 0 ==> level_entries(
                        p.centroids@.len() as int,
                        stored.bit_width as int,
                        0,
                    ) && level_entries(p.boundaries@.len() as int, stored.bit_width as int, 1));
                    match stored.error(sequential) {
                        None => !missing && agrees,
                        Some(LoadError::ScalesLength { got, n_vectors }) => {
                            &&& missing
                            &&& got == stored.scales@.len()
                            &&& n_vectors == n
                        },
                        Some(LoadError::Malformed) => !missing && !agrees,
                        Some(_) => false,
                    }
                },
                CodePayload::BlockedNative(p) => {
                    let agrees = payload_in_order(stored, p.groups as int, p.codes@.len() as int)
                        && (n > 0 ==> level_entries(
                        p.centroids@.len() as int,
                        stored.bit_width as int,
                        0,
                    ) && level_entries(p.boundaries@.len() as int, stored.bit_width as int, 1)
                        && sequential is Some && sequential->0@.len() == p.codes@.len());
                    match stored.error(sequential) {
                        None => !missing && agrees,
                        Some(LoadError::ScalesLength { got, n_vectors }) => {
                            &&& missing
                            &&& got == stored.scales@.len()
                            &&& n_vectors == n
                        },
                        Some(LoadError::Malformed) => !missing && !agrees,
                        Some(_) => false,
                    }
                },
            }
        }),
{
    assert(stored.scales.len() == stored.scales@.len());
    law_good_numbers(stored.scales@, stored.tqplus_shift@, stored.tqplus_scale@);
    law_row_width(stored.dim as int, stored.bit_width as int);
    match stored.codes {
        CodePayload::Packed(_) => {},
        CodePayload::BlockedSeq(p) => {
            law_blocked_size(
                stored.n_vectors as int,
                p.groups as int,
                (stored.n_vectors + 31) / 32,
            );
        },
        CodePayload::BlockedNative(p) => {
            law_blocked_size(
                stored.n_vectors as int,
                p.groups as int,
                (stored.n_vectors + 31) / 32,
            );
        },
    }
}

/// What a stored index is read back as: its fields, under the declared calibration. One
/// with rows in blocked form keeps that form and its codebook, and has its packed rows
/// made when they are needed.
pub proof fn law_index_that_is_read(stored: StoredIndex, sequential: Option<Vec<u8>>)
    ensures
        ({
            let view = stored.index(sequential);
            let n = stored.n_vectors as int;
            let dim = if stored.dim == 0 {
                None
            } else {
                Some(stored.dim)
            };
            &&& view.dim == dim
            &&& view.bit_width == stored.bit_width
            &&& view.n == n
            &&& view.scales == stored.scales@
            &&& (view.shift, view.scale, view.warmup) == normalized(
                dim,
                n,
                stored.tqplus_shift@,
                stored.tqplus_scale@,
            )
            &&& view.rotation is None
            &&& view.scratch_demand == 0
            &&& match stored.codes {
                CodePayload::Packed(packed) => {
                    &&& view.packed == Some(packed@)
                    &&& view.blocked is None
                    &&& view.boundaries is None
                    &&& view.centroids is None
                },
                CodePayload::BlockedSeq(p) => n > 0 ==> {
                    &&& view.packed is None
                    &&& view.blocked is Some
                    &&& view.blocked->0.data == p.codes@
                    &&& view.blocked->0.groups == p.groups
                    &&& whole_blocks(n, view.blocked->0.n_blocks)
                    &&& view.boundaries == Some(p.boundaries@)
                    &&& view.centroids == Some(p.centroids@)
                },
                CodePayload::BlockedNative(p) => n > 0 ==> {
                    &&& view.packed is None
                    &&& view.blocked is Some
                    &&& view.blocked->0.data == sequential->0@
                    &&& view.blocked->0.groups == p.groups
                    &&& whole_blocks(n, view.blocked->0.n_blocks)
                    &&& view.boundaries == Some(p.boundaries@)
                    &&& view.centroids == Some(p.centroids@)
                },
            }
            &&& !(stored.codes is Packed) && n == 0 ==> {
                &&& view.packed is Some
                &&& view.packed->0.len() == 0
                &&& view.blocked is None
                &&& view.boundaries is None
                &&& view.centroids is None
            }
        }),
{
}

} // verus!
