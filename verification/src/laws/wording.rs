//! What is said of every error, and which errors are equal.
use crate::error::{
    AddError, ConstructError, FromPartsError, LoadError, SearchError, ToPartsError,
};
use crate::laws::numbers::{beyond_infinity, place};
use crate::mapped::ImageError;
use crate::text::digits;
use vstd::prelude::*;

verus! {

/// The decimal digits of a number as they appear in a message; they spell the number
/// without a leading zero.
pub open spec fn shown(n: int) -> Seq<char> {
    digits(n as nat)
}

/// Two offending numbers are equal: both are numbers, and they stand at the same place.
pub open spec fn same_number(a: u32, b: u32) -> bool {
    !beyond_infinity(a) && !beyond_infinity(b) && place(a) == place(b)
}

/// What is said of a refused batch: which rule was broken, and the numbers that broke
/// it.
pub proof fn law_messages_of_add_error(
    bits: u32,
    coord_index: usize,
    dim: usize,
    existing: usize,
    expected: usize,
    got: usize,
    id: u64,
    max: usize,
    vector_index: usize,
    vectors_len: usize,
    x: usize,
    value: Seq<char>,
)
    ensures
        (AddError::DimMismatch { existing, got }).text(value) == "dim mismatch: index dim="@
            + shown(existing as int)
            + ", batch dim="@
            + shown(got as int),
        (AddError::DimNotMultipleOf8(x)).text(value) == "dim must be a multiple of 8, got "@
            + shown(x as int),
        (AddError::DimTooLarge { dim, max }).text(value) == "dim "@
            + shown(dim as int)
            + " exceeds maximum "@
            + shown(max as int),
        (AddError::VectorBufferNotMultipleOfDim { vectors_len, dim }).text(value) == "vector buffer length "@
            + shown(vectors_len as int)
            + " not a multiple of dim "@
            + shown(dim as int),
        (AddError::ZeroDim).text(value) == "dim is 0: the vectors have no columns (an embedder that returned empty embeddings is the usual cause)"@,
        (AddError::IdsCountMismatch { expected, got }).text(value) == "expected "@
            + shown(expected as int)
            + " ids, got "@
            + shown(got as int),
        (AddError::IdAlreadyPresent(id)).text(value) == "id "@
            + shown(id as int)
            + " already present in index"@,
        (AddError::DuplicateIdInBatch(id)).text(value) == "duplicate id "@
            + shown(id as int)
            + " appears more than once in this batch"@,
        (AddError::InvalidInputValue { vector_index, coord_index, value: bits }).text(value) == "invalid input value at vector "@
            + shown(vector_index as int)
            + ", coord "@
            + shown(coord_index as int)
            + ": "@
            + value
            + " (must be finite and |value| < 1e16 to avoid f32 norm overflow)"@,
{
}

/// What is said of a refused shape or calibration: which rule was broken, and the
/// numbers that broke it.
pub proof fn law_messages_of_construct_error(
    block_size: usize,
    coord_index: usize,
    dim: usize,
    granularity: usize,
    max: usize,
    scale_len: usize,
    shift_len: usize,
    x: usize,
)
    ensures
        (ConstructError::BitWidthOutOfRange(x)).text() == "bit_width must be 2, 3, or 4, got "@
            + shown(x as int),
        (ConstructError::DimNotPositiveMultipleOf8(x)).text() == "dim must be a positive multiple of 8, got "@
            + shown(x as int),
        (ConstructError::DimTooLarge { dim, max }).text() == "dim "@
            + shown(dim as int)
            + " exceeds maximum "@
            + shown(max as int),
        (ConstructError::BlockSizeInvalid { block_size, granularity }).text() == "block_size must be a positive multiple of "@
            + shown(granularity as int)
            + ", got "@
            + shown(block_size as int),
        (ConstructError::CalibrationLengthMismatch { dim, shift_len, scale_len }).text() == "calibration length mismatch: dim="@
            + shown(dim as int)
            + ", shift has "@
            + shown(shift_len as int)
            + " entries, scale has "@
            + shown(scale_len as int)
            + " entries"@,
        (ConstructError::CalibrationShiftNotFinite { coord_index }).text() == "calibration shift at coord "@
            + shown(coord_index as int)
            + " is not finite"@,
        (ConstructError::CalibrationScaleNotPositive { coord_index }).text() == "calibration scale at coord "@
            + shown(coord_index as int)
            + " must be finite and > 0"@,
{
}

/// What is said of a refused search: which rule was broken, and the numbers that broke
/// it.
pub proof fn law_messages_of_search_error(
    bits: u32,
    coord_index: usize,
    dim: usize,
    expected: usize,
    got: usize,
    id: u64,
    queries_len: usize,
    query_index: usize,
    value: Seq<char>,
)
    ensures
        (SearchError::AllowlistEmpty).text(value) == "allowlist is empty"@,
        (SearchError::UnknownId(id)).text(value) == "id "@
            + shown(id as int)
            + " in allowlist is not present in index"@,
        (SearchError::QueryBufferNotMultipleOfDim { queries_len, dim }).text(value) == "query buffer length "@
            + shown(queries_len as int)
            + " not a multiple of dim "@
            + shown(dim as int),
        (SearchError::InvalidQueryValue { query_index, coord_index, value: bits }).text(value) == "invalid query value at query "@
            + shown(query_index as int)
            + ", coord "@
            + shown(coord_index as int)
            + ": "@
            + value
            + " (must be finite and |value| < 1e16 to avoid f32 overflow)"@,
        (SearchError::MaskLengthMismatch { expected, got }).text(value) == "mask length "@
            + shown(got as int)
            + " does not match index size "@
            + shown(expected as int),
{
}

/// What is said of refused parts: which rule was broken, and the numbers that broke it.
pub proof fn law_messages_of_from_parts_error(
    bit_width: usize,
    bits: u32,
    coord: usize,
    dim: usize,
    expected: usize,
    got: usize,
    max: usize,
    n_vectors: usize,
    scale_len: usize,
    shift_len: usize,
    slot: usize,
    x: usize,
    value: Seq<char>,
)
    ensures
        (FromPartsError::BitWidthOutOfRange(x)).text(value) == "bit_width must be 2, 3, or 4, got "@
            + shown(x as int),
        (FromPartsError::DimNotPositiveMultipleOf8(x)).text(value) == "dim must be a positive multiple of 8, got "@
            + shown(x as int),
        (FromPartsError::DimTooLarge { dim, max }).text(value) == "dim "@
            + shown(dim as int)
            + " exceeds maximum "@
            + shown(max as int),
        (FromPartsError::PackedCodesSizeOverflow { n_vectors, dim, bit_width }).text(value) == "packed code size n_vectors("@
            + shown(n_vectors as int)
            + ") * dim("@
            + shown(dim as int)
            + ") * bit_width("@
            + shown(bit_width as int)
            + ") / 8 overflows usize"@,
        (FromPartsError::PackedCodesLengthMismatch { expected, got }).text(value) == "packed_codes length "@
            + shown(got as int)
            + " != n_vectors * dim * bit_width / 8 = "@
            + shown(expected as int),
        (FromPartsError::ScalesLengthMismatch { expected, got }).text(value) == "scales length "@
            + shown(got as int)
            + " != n_vectors "@
            + shown(expected as int),
        (FromPartsError::TqplusLengthMismatch { shift_len, scale_len }).text(value) == "tqplus_shift length "@
            + shown(shift_len as int)
            + " != tqplus_scale length "@
            + shown(scale_len as int),
        (FromPartsError::TqplusLengthNotDim { got, dim }).text(value) == "non-empty TQ+ calibration length "@
            + shown(got as int)
            + " must equal dim "@
            + shown(dim as int),
        (FromPartsError::InvalidScaleValue { slot, value: bits }).text(value) == "invalid per-vector scale at slot "@
            + shown(slot as int)
            + ": "@
            + value
            + " (must be finite and non-negative)"@,
        (FromPartsError::InvalidTqplusShiftValue { coord, value: bits }).text(value) == "invalid TQ+ shift at coord "@
            + shown(coord as int)
            + ": "@
            + value
            + " (must be finite)"@,
        (FromPartsError::InvalidTqplusScaleValue { coord, value: bits }).text(value) == "invalid TQ+ scale at coord "@
            + shown(coord as int)
            + ": "@
            + value
            + " (must be finite and > 0)"@,
        (FromPartsError::LazyMustHaveZeroVectors(x)).text(value) == "lazy (uncommitted-dim) index must have n_vectors=0, got "@
            + shown(x as int),
        (FromPartsError::LazyMustHaveEmptyPackedCodes(x)).text(value) == "lazy index must have empty packed_codes, got length "@
            + shown(x as int),
        (FromPartsError::LazyMustHaveEmptyScales(x)).text(value) == "lazy index must have empty scales, got length "@
            + shown(x as int),
        (FromPartsError::LazyMustHaveEmptyTqplus(x)).text(value) == "lazy index must have empty TQ+ calibration, got length "@
            + shown(x as int),
{
}

/// What is said of an index that cannot be taken apart: which rule was broken, and the
/// numbers that broke it.
pub proof fn law_messages_of_to_parts_error(live: usize, slots: usize)
    ensures
        (ToPartsError::NotCompact { live, slots }).text() == "index holds "@
            + shown(live as int)
            + " vectors in "@
            + shown(slots as int)
            + " slots, so "@
            + shown(slots - live)
            + " slot(s) hold nothing; the parts cannot express that. Use to_bytes/from_bytes instead."@,
{
}

/// What is said of a refused payload: which rule was broken, and the numbers that
/// broke it.
pub proof fn law_messages_of_load_error(
    e: FromPartsError,
    got: usize,
    n_vectors: usize,
    value: Seq<char>,
)
    ensures
        (LoadError::Parts(e)).text(value) == e.text(value),
        (LoadError::ScalesLength { got, n_vectors }).text(value) == "scales length "@
            + shown(got as int)
            + " does not match n_vectors "@
            + shown(n_vectors as int),
        (LoadError::Malformed).text(value) == "index payload does not match its header"@,
{
}

/// What is said of an image that cannot be served: which rule was broken, and the
/// numbers that broke it.
pub proof fn law_messages_of_image_error(
    b: usize,
    base: usize,
    got: usize,
    live: usize,
    src: Seq<char>,
)
    ensures
        (ImageError::NotPositional).text(src) == "mapped serving covers positional images (kind 0) only"@,
        (ImageError::TruncatedUnit(b)).text(src) == src
            + ": truncated block unit "@
            + shown(b as int),
        (ImageError::InvalidBlockScale(b)).text(src) == src
            + ": invalid per-vector scale in block "@
            + shown(b as int),
        (ImageError::InvalidOpScale).text(src) == src
            + ": invalid per-vector scale in a pending op"@,
        (ImageError::TruncatedTail).text(src) == src + ": truncated commit tail"@,
        (ImageError::InvalidTailScale).text(src) == src
            + ": invalid per-vector scale in the commit tail"@,
        (ImageError::MissingRows { base, got, live }).text(src) == src
            + ": chunk at "@
            + shown(base as int)
            + " holds "@
            + shown(got as int)
            + " scales for "@
            + shown(live as int)
            + " rows"@,
{
}

/// Errors are equal when they name the same rule and the same numbers; a value that is no
/// number equals nothing, and the two zeros are equal.
pub proof fn law_equal_add_errors(a: AddError, b: AddError)
    ensures
        a.same(b) <==> match (a, b) {
            (
                AddError::InvalidInputValue { vector_index: i, coord_index: c, value: v },
                AddError::InvalidInputValue { vector_index: k, coord_index: e, value: w },
            ) => i == k && c == e && same_number(v, w),
            _ => a == b,
        },
{
}

/// Errors are equal when they name the same rule and the same numbers; a value that is no
/// number equals nothing, and the two zeros are equal.
pub proof fn law_equal_search_errors(a: SearchError, b: SearchError)
    ensures
        a.same(b) <==> match (a, b) {
            (
                SearchError::InvalidQueryValue { query_index: i, coord_index: c, value: v },
                SearchError::InvalidQueryValue { query_index: k, coord_index: e, value: w },
            ) => i == k && c == e && same_number(v, w),
            _ => a == b,
        },
{
}

/// Errors are equal when they name the same rule and the same numbers; a value that is no
/// number equals nothing, and the two zeros are equal.
pub proof fn law_equal_parts_errors(a: FromPartsError, b: FromPartsError)
    ensures
        a.same(b) <==> match (a, b) {
            (
                FromPartsError::InvalidScaleValue { slot: i, value: v },
                FromPartsError::InvalidScaleValue { slot: k, value: w },
            ) => i == k && same_number(v, w),
            (
                FromPartsError::InvalidTqplusShiftValue { coord: i, value: v },
                FromPartsError::InvalidTqplusShiftValue { coord: k, value: w },
            ) => i == k && same_number(v, w),
            (
                FromPartsError::InvalidTqplusScaleValue { coord: i, value: v },
                FromPartsError::InvalidTqplusScaleValue { coord: k, value: w },
            ) => i == k && same_number(v, w),
            _ => a == b,
        },
{
}

} // verus!
