//! Errors of the construct, add, search and reconstruct paths.
//!
//! Every variant describes caller-supplied input. A variant that carries an
//! offending number holds its bit pattern; its message takes the rendered
//! number from the caller.
use crate::float_bits::{equal, is_equal};
use crate::text::{digits, push_number};
use vstd::prelude::*;

verus! {

/// Why an add was rejected.
///
/// Every variant is raised before any row is written, so a rejected batch
/// leaves the index exactly as it was.
#[derive(Debug, Clone)]
#[non_exhaustive]
pub enum AddError {
    /// Batch dim does not match the index's already-locked dim.
    DimMismatch {
        /// Dim the index is already committed to.
        existing: usize,
        /// Dim of this batch.
        got: usize,
    },
    /// First-add dim on a lazy index must be a multiple of 8.
    DimNotMultipleOf8(usize),
    /// First-add dim on a lazy index exceeds [`MAX_DIM`](crate::MAX_DIM).
    DimTooLarge {
        /// Dim the batch asked for.
        dim: usize,
        /// The ceiling.
        max: usize,
    },
    /// The buffer length is not a whole multiple of `dim`.
    VectorBufferNotMultipleOfDim {
        /// Length of the flat buffer.
        vectors_len: usize,
        /// Dim it was divided by.
        dim: usize,
    },
    /// `dim` is 0: the batch has no columns at all.
    ZeroDim,
    /// Number of ids does not equal number of vectors.
    IdsCountMismatch {
        /// Number of vector rows in the batch.
        expected: usize,
        /// Number of ids supplied.
        got: usize,
    },
    /// External id was already present in the index.
    IdAlreadyPresent(u64),
    /// External id appears more than once within the same batch.
    DuplicateIdInBatch(u64),
    /// A coordinate is not finite or has magnitude `1e16` or more.
    InvalidInputValue {
        /// Row within the batch.
        vector_index: usize,
        /// Coordinate within that row.
        coord_index: usize,
        /// Bit pattern of the offending value.
        value: u32,
    },
}

impl AddError {
    /// The message text; `value` is the rendered offending number.
    pub open spec fn text(self, value: Seq<char>) -> Seq<char> {
        match self {
            AddError::DimMismatch { existing, got } => "dim mismatch: index dim="@
                + digits(existing as nat)
                + ", batch dim="@
                + digits(got as nat),
            AddError::DimNotMultipleOf8(x) => "dim must be a multiple of 8, got "@
                + digits(x as nat),
            AddError::DimTooLarge { dim, max } => "dim "@
                + digits(dim as nat)
                + " exceeds maximum "@
                + digits(max as nat),
            AddError::VectorBufferNotMultipleOfDim { vectors_len, dim } => "vector buffer length "@
                + digits(vectors_len as nat)
                + " not a multiple of dim "@
                + digits(dim as nat),
            AddError::ZeroDim => "dim is 0: the vectors have no columns (an embedder that returned empty embeddings is the usual cause)"@,
            AddError::IdsCountMismatch { expected, got } => "expected "@
                + digits(expected as nat)
                + " ids, got "@
                + digits(got as nat),
            AddError::IdAlreadyPresent(x) => "id "@
                + digits(x as nat)
                + " already present in index"@,
            AddError::DuplicateIdInBatch(x) => "duplicate id "@
                + digits(x as nat)
                + " appears more than once in this batch"@,
            AddError::InvalidInputValue { vector_index, coord_index, .. } => "invalid input value at vector "@
                + digits(vector_index as nat)
                + ", coord "@
                + digits(coord_index as nat)
                + ": "@
                + value
                + " (must be finite and |value| < 1e16 to avoid f32 norm overflow)"@,
        }
    }

    /// Render the message around `value`, the rendered offending number.
    pub fn message(&self, value: &str) -> (r: String)
        ensures
            r@ == self.text(value@),
    {
        match self {
            AddError::DimMismatch { existing, got } => {
                let mut text = String::from_str("dim mismatch: index dim=");
                push_number(&mut text, *existing as u64);
                text.append(", batch dim=");
                push_number(&mut text, *got as u64);
                text
            },
            AddError::DimNotMultipleOf8(x) => {
                let mut text = String::from_str("dim must be a multiple of 8, got ");
                push_number(&mut text, *x as u64);
                text
            },
            AddError::DimTooLarge { dim, max } => {
                let mut text = String::from_str("dim ");
                push_number(&mut text, *dim as u64);
                text.append(" exceeds maximum ");
                push_number(&mut text, *max as u64);
                text
            },
            AddError::VectorBufferNotMultipleOfDim { vectors_len, dim } => {
                let mut text = String::from_str("vector buffer length ");
                push_number(&mut text, *vectors_len as u64);
                text.append(" not a multiple of dim ");
                push_number(&mut text, *dim as u64);
                text
            },
            AddError::ZeroDim => {
                let text = String::from_str("dim is 0: the vectors have no columns (an embedder that returned empty embeddings is the usual cause)");
                text
            },
            AddError::IdsCountMismatch { expected, got } => {
                let mut text = String::from_str("expected ");
                push_number(&mut text, *expected as u64);
                text.append(" ids, got ");
                push_number(&mut text, *got as u64);
                text
            },
            AddError::IdAlreadyPresent(x) => {
                let mut text = String::from_str("id ");
                push_number(&mut text, *x);
                text.append(" already present in index");
                text
            },
            AddError::DuplicateIdInBatch(x) => {
                let mut text = String::from_str("duplicate id ");
                push_number(&mut text, *x);
                text.append(" appears more than once in this batch");
                text
            },
            AddError::InvalidInputValue { vector_index, coord_index, .. } => {
                let mut text = String::from_str("invalid input value at vector ");
                push_number(&mut text, *vector_index as u64);
                text.append(", coord ");
                push_number(&mut text, *coord_index as u64);
                text.append(": ");
                text.append(value);
                text.append(" (must be finite and |value| < 1e16 to avoid f32 norm overflow)");
                text
            },
        }
    }

    /// Equality with offending numbers compared as numbers: NaN equals nothing,
    /// not even itself, and the two zeros are equal.
    pub open spec fn same(self, other: AddError) -> bool {
        match (self, other) {
            (
                AddError::InvalidInputValue { vector_index: a0, coord_index: a1, value: a2 },
                AddError::InvalidInputValue { vector_index: b0, coord_index: b1, value: b2 },
            ) => a0 == b0 && a1 == b1 && equal(a2, b2),
            _ => self == other,
        }
    }
}

impl PartialEq for AddError {
    fn eq(&self, other: &Self) -> (r: bool) {
        match (self, other) {
            (
                AddError::DimMismatch { existing: a0, got: a1 },
                AddError::DimMismatch { existing: b0, got: b1 },
            ) => *a0 == *b0 && *a1 == *b1,
            (AddError::DimNotMultipleOf8(a), AddError::DimNotMultipleOf8(b)) => *a == *b,
            (
                AddError::DimTooLarge { dim: a0, max: a1 },
                AddError::DimTooLarge { dim: b0, max: b1 },
            ) => *a0 == *b0 && *a1 == *b1,
            (
                AddError::VectorBufferNotMultipleOfDim { vectors_len: a0, dim: a1 },
                AddError::VectorBufferNotMultipleOfDim { vectors_len: b0, dim: b1 },
            ) => *a0 == *b0 && *a1 == *b1,
            (AddError::ZeroDim, AddError::ZeroDim) => true,
            (
                AddError::IdsCountMismatch { expected: a0, got: a1 },
                AddError::IdsCountMismatch { expected: b0, got: b1 },
            ) => *a0 == *b0 && *a1 == *b1,
            (AddError::IdAlreadyPresent(a), AddError::IdAlreadyPresent(b)) => *a == *b,
            (AddError::DuplicateIdInBatch(a), AddError::DuplicateIdInBatch(b)) => *a == *b,
            (
                AddError::InvalidInputValue { vector_index: a0, coord_index: a1, value: a2 },
                AddError::InvalidInputValue { vector_index: b0, coord_index: b1, value: b2 },
            ) => *a0 == *b0 && *a1 == *b1 && is_equal(*a2, *b2),
            _ => false,
        }
    }
}

impl vstd::std_specs::cmp::PartialEqSpecImpl for AddError {
    open spec fn obeys_eq_spec() -> bool {
        true
    }

    open spec fn eq_spec(&self, other: &Self) -> bool {
        self.same(*other)
    }
}

/// Why a constructor rejected its arguments.
#[derive(Debug, Clone, PartialEq, Eq, Structural)]
#[non_exhaustive]
pub enum ConstructError {
    /// `bit_width` must be 2, 3, or 4.
    BitWidthOutOfRange(usize),
    /// `dim` must be a positive multiple of 8.
    DimNotPositiveMultipleOf8(usize),
    /// `dim` exceeds [`MAX_DIM`](crate::MAX_DIM).
    DimTooLarge {
        /// Dim the caller asked for.
        dim: usize,
        /// The ceiling.
        max: usize,
    },
    /// `block_size` must be a positive multiple of the block granularity.
    BlockSizeInvalid {
        /// Block size the caller asked for.
        block_size: usize,
        /// The required granularity.
        granularity: usize,
    },
    /// A calibration has the wrong length: both halves need `dim` entries.
    CalibrationLengthMismatch {
        /// Dim of the index.
        dim: usize,
        /// Entries in the shift half.
        shift_len: usize,
        /// Entries in the scale half.
        scale_len: usize,
    },
    /// A calibration shift entry is NaN or infinite.
    CalibrationShiftNotFinite {
        /// The offending coordinate.
        coord_index: usize,
    },
    /// A calibration scale entry is NaN, infinite, zero, or negative.
    CalibrationScaleNotPositive {
        /// The offending coordinate.
        coord_index: usize,
    },
}

impl ConstructError {
    /// The message text.
    pub open spec fn text(self) -> Seq<char> {
        match self {
            ConstructError::BitWidthOutOfRange(x) => "bit_width must be 2, 3, or 4, got "@
                + digits(x as nat),
            ConstructError::DimNotPositiveMultipleOf8(x) => "dim must be a positive multiple of 8, got "@
                + digits(x as nat),
            ConstructError::DimTooLarge { dim, max } => "dim "@
                + digits(dim as nat)
                + " exceeds maximum "@
                + digits(max as nat),
            ConstructError::BlockSizeInvalid { block_size, granularity } => "block_size must be a positive multiple of "@
                + digits(granularity as nat)
                + ", got "@
                + digits(block_size as nat),
            ConstructError::CalibrationLengthMismatch { dim, shift_len, scale_len } => "calibration length mismatch: dim="@
                + digits(dim as nat)
                + ", shift has "@
                + digits(shift_len as nat)
                + " entries, scale has "@
                + digits(scale_len as nat)
                + " entries"@,
            ConstructError::CalibrationShiftNotFinite { coord_index } => "calibration shift at coord "@
                + digits(coord_index as nat)
                + " is not finite"@,
            ConstructError::CalibrationScaleNotPositive { coord_index } => "calibration scale at coord "@
                + digits(coord_index as nat)
                + " must be finite and > 0"@,
        }
    }

    /// Render the message.
    pub fn message(&self) -> (r: String)
        ensures
            r@ == self.text(),
    {
        match self {
            ConstructError::BitWidthOutOfRange(x) => {
                let mut text = String::from_str("bit_width must be 2, 3, or 4, got ");
                push_number(&mut text, *x as u64);
                text
            },
            ConstructError::DimNotPositiveMultipleOf8(x) => {
                let mut text = String::from_str("dim must be a positive multiple of 8, got ");
                push_number(&mut text, *x as u64);
                text
            },
            ConstructError::DimTooLarge { dim, max } => {
                let mut text = String::from_str("dim ");
                push_number(&mut text, *dim as u64);
                text.append(" exceeds maximum ");
                push_number(&mut text, *max as u64);
                text
            },
            ConstructError::BlockSizeInvalid { block_size, granularity } => {
                let mut text = String::from_str("block_size must be a positive multiple of ");
                push_number(&mut text, *granularity as u64);
                text.append(", got ");
                push_number(&mut text, *block_size as u64);
                text
            },
            ConstructError::CalibrationLengthMismatch { dim, shift_len, scale_len } => {
                let mut text = String::from_str("calibration length mismatch: dim=");
                push_number(&mut text, *dim as u64);
                text.append(", shift has ");
                push_number(&mut text, *shift_len as u64);
                text.append(" entries, scale has ");
                push_number(&mut text, *scale_len as u64);
                text.append(" entries");
                text
            },
            ConstructError::CalibrationShiftNotFinite { coord_index } => {
                let mut text = String::from_str("calibration shift at coord ");
                push_number(&mut text, *coord_index as u64);
                text.append(" is not finite");
                text
            },
            ConstructError::CalibrationScaleNotPositive { coord_index } => {
                let mut text = String::from_str("calibration scale at coord ");
                push_number(&mut text, *coord_index as u64);
                text.append(" must be finite and > 0");
                text
            },
        }
    }
}

/// Why a search was refused.
#[derive(Debug, Clone)]
#[non_exhaustive]
pub enum SearchError {
    /// The allowlist was given but empty.
    AllowlistEmpty,
    /// An allowlist id is not present in the index.
    UnknownId(u64),
    /// The query buffer does not describe a whole number of query rows.
    QueryBufferNotMultipleOfDim {
        /// Length of the flat query buffer.
        queries_len: usize,
        /// Index dim it was divided by.
        dim: usize,
    },
    /// A query coordinate is not finite or has magnitude `1e16` or more.
    InvalidQueryValue {
        /// Query row within the batch.
        query_index: usize,
        /// Coordinate within that row.
        coord_index: usize,
        /// Bit pattern of the offending value.
        value: u32,
    },
    /// The mask's length does not equal the index's slot count.
    MaskLengthMismatch {
        /// The index's slot count.
        expected: usize,
        /// The mask length supplied.
        got: usize,
    },
}

impl SearchError {
    /// The message text; `value` is the rendered offending number.
    pub open spec fn text(self, value: Seq<char>) -> Seq<char> {
        match self {
            SearchError::AllowlistEmpty => "allowlist is empty"@,
            SearchError::UnknownId(x) => "id "@
                + digits(x as nat)
                + " in allowlist is not present in index"@,
            SearchError::QueryBufferNotMultipleOfDim { queries_len, dim } => "query buffer length "@
                + digits(queries_len as nat)
                + " not a multiple of dim "@
                + digits(dim as nat),
            SearchError::InvalidQueryValue { query_index, coord_index, .. } => "invalid query value at query "@
                + digits(query_index as nat)
                + ", coord "@
                + digits(coord_index as nat)
                + ": "@
                + value
                + " (must be finite and |value| < 1e16 to avoid f32 overflow)"@,
            SearchError::MaskLengthMismatch { expected, got } => "mask length "@
                + digits(got as nat)
                + " does not match index size "@
                + digits(expected as nat),
        }
    }

    /// Render the message around `value`, the rendered offending number.
    pub fn message(&self, value: &str) -> (r: String)
        ensures
            r@ == self.text(value@),
    {
        match self {
            SearchError::AllowlistEmpty => {
                let text = String::from_str("allowlist is empty");
                text
            },
            SearchError::UnknownId(x) => {
                let mut text = String::from_str("id ");
                push_number(&mut text, *x);
                text.append(" in allowlist is not present in index");
                text
            },
            SearchError::QueryBufferNotMultipleOfDim { queries_len, dim } => {
                let mut text = String::from_str("query buffer length ");
                push_number(&mut text, *queries_len as u64);
                text.append(" not a multiple of dim ");
                push_number(&mut text, *dim as u64);
                text
            },
            SearchError::InvalidQueryValue { query_index, coord_index, .. } => {
                let mut text = String::from_str("invalid query value at query ");
                push_number(&mut text, *query_index as u64);
                text.append(", coord ");
                push_number(&mut text, *coord_index as u64);
                text.append(": ");
                text.append(value);
                text.append(" (must be finite and |value| < 1e16 to avoid f32 overflow)");
                text
            },
            SearchError::MaskLengthMismatch { expected, got } => {
                let mut text = String::from_str("mask length ");
                push_number(&mut text, *got as u64);
                text.append(" does not match index size ");
                push_number(&mut text, *expected as u64);
                text
            },
        }
    }

    /// Equality with offending numbers compared as numbers: NaN equals nothing,
    /// not even itself, and the two zeros are equal.
    pub open spec fn same(self, other: SearchError) -> bool {
        match (self, other) {
            (
                SearchError::InvalidQueryValue { query_index: a0, coord_index: a1, value: a2 },
                SearchError::InvalidQueryValue { query_index: b0, coord_index: b1, value: b2 },
            ) => a0 == b0 && a1 == b1 && equal(a2, b2),
            _ => self == other,
        }
    }
}

impl PartialEq for SearchError {
    fn eq(&self, other: &Self) -> (r: bool) {
        match (self, other) {
            (SearchError::AllowlistEmpty, SearchError::AllowlistEmpty) => true,
            (SearchError::UnknownId(a), SearchError::UnknownId(b)) => *a == *b,
            (
                SearchError::QueryBufferNotMultipleOfDim { queries_len: a0, dim: a1 },
                SearchError::QueryBufferNotMultipleOfDim { queries_len: b0, dim: b1 },
            ) => *a0 == *b0 && *a1 == *b1,
            (
                SearchError::InvalidQueryValue { query_index: a0, coord_index: a1, value: a2 },
                SearchError::InvalidQueryValue { query_index: b0, coord_index: b1, value: b2 },
            ) => *a0 == *b0 && *a1 == *b1 && is_equal(*a2, *b2),
            (
                SearchError::MaskLengthMismatch { expected: a0, got: a1 },
                SearchError::MaskLengthMismatch { expected: b0, got: b1 },
            ) => *a0 == *b0 && *a1 == *b1,
            _ => false,
        }
    }
}

impl vstd::std_specs::cmp::PartialEqSpecImpl for SearchError {
    open spec fn obeys_eq_spec() -> bool {
        true
    }

    open spec fn eq_spec(&self, other: &Self) -> bool {
        self.same(*other)
    }
}

/// Why parts do not make an index: each variant names the structural invariant
/// they violate.
#[derive(Debug, Clone)]
#[non_exhaustive]
pub enum FromPartsError {
    /// `bit_width` must be 2, 3, or 4.
    BitWidthOutOfRange(usize),
    /// A committed `dim` must be a positive multiple of 8.
    DimNotPositiveMultipleOf8(usize),
    /// `dim` exceeds [`MAX_DIM`](crate::MAX_DIM).
    DimTooLarge {
        /// Dim supplied.
        dim: usize,
        /// The ceiling.
        max: usize,
    },
    /// No code buffer of the implied length can exist.
    PackedCodesSizeOverflow {
        /// Row count supplied.
        n_vectors: usize,
        /// Dim supplied.
        dim: usize,
        /// Bit width supplied.
        bit_width: usize,
    },
    /// The code buffer does not have the implied length.
    PackedCodesLengthMismatch {
        /// Byte length implied by row count, dim and bit width.
        expected: usize,
        /// Byte length supplied.
        got: usize,
    },
    /// There is not one scale per vector.
    ScalesLengthMismatch {
        /// The row count.
        expected: usize,
        /// Number of scales supplied.
        got: usize,
    },
    /// The two calibration arrays disagree in length.
    TqplusLengthMismatch {
        /// Length of the shift array.
        shift_len: usize,
        /// Length of the scale array.
        scale_len: usize,
    },
    /// A non-empty calibration array has a length that is not `dim`.
    TqplusLengthNotDim {
        /// Length of the array.
        got: usize,
        /// The dim it had to equal.
        dim: usize,
    },
    /// A per-vector scale is not finite or is negative.
    InvalidScaleValue {
        /// The slot it belongs to.
        slot: usize,
        /// Bit pattern of the offending value.
        value: u32,
    },
    /// A calibration shift is not finite.
    InvalidTqplusShiftValue {
        /// The coordinate it belongs to.
        coord: usize,
        /// Bit pattern of the offending value.
        value: u32,
    },
    /// A calibration scale is not finite or not positive.
    InvalidTqplusScaleValue {
        /// The coordinate it belongs to.
        coord: usize,
        /// Bit pattern of the offending value.
        value: u32,
    },
    /// A lazy index must hold no vectors.
    LazyMustHaveZeroVectors(usize),
    /// A lazy index must have no codes.
    LazyMustHaveEmptyPackedCodes(usize),
    /// A lazy index must have no scales.
    LazyMustHaveEmptyScales(usize),
    /// A lazy index must have no calibration.
    LazyMustHaveEmptyTqplus(usize),
}

impl FromPartsError {
    /// The message text; `value` is the rendered offending number.
    pub open spec fn text(self, value: Seq<char>) -> Seq<char> {
        match self {
            FromPartsError::BitWidthOutOfRange(x) => "bit_width must be 2, 3, or 4, got "@
                + digits(x as nat),
            FromPartsError::DimNotPositiveMultipleOf8(x) => "dim must be a positive multiple of 8, got "@
                + digits(x as nat),
            FromPartsError::DimTooLarge { dim, max } => "dim "@
                + digits(dim as nat)
                + " exceeds maximum "@
                + digits(max as nat),
            FromPartsError::PackedCodesSizeOverflow { n_vectors, dim, bit_width } => "packed code size n_vectors("@
                + digits(n_vectors as nat)
                + ") * dim("@
                + digits(dim as nat)
                + ") * bit_width("@
                + digits(bit_width as nat)
                + ") / 8 overflows usize"@,
            FromPartsError::PackedCodesLengthMismatch { expected, got } => "packed_codes length "@
                + digits(got as nat)
                + " != n_vectors * dim * bit_width / 8 = "@
                + digits(expected as nat),
            FromPartsError::ScalesLengthMismatch { expected, got } => "scales length "@
                + digits(got as nat)
                + " != n_vectors "@
                + digits(expected as nat),
            FromPartsError::TqplusLengthMismatch { shift_len, scale_len } => "tqplus_shift length "@
                + digits(shift_len as nat)
                + " != tqplus_scale length "@
                + digits(scale_len as nat),
            FromPartsError::TqplusLengthNotDim { got, dim } => "non-empty TQ+ calibration length "@
                + digits(got as nat)
                + " must equal dim "@
                + digits(dim as nat),
            FromPartsError::InvalidScaleValue { slot, .. } => "invalid per-vector scale at slot "@
                + digits(slot as nat)
                + ": "@
                + value
                + " (must be finite and non-negative)"@,
            FromPartsError::InvalidTqplusShiftValue { coord, .. } => "invalid TQ+ shift at coord "@
                + digits(coord as nat)
                + ": "@
                + value
                + " (must be finite)"@,
            FromPartsError::InvalidTqplusScaleValue { coord, .. } => "invalid TQ+ scale at coord "@
                + digits(coord as nat)
                + ": "@
                + value
                + " (must be finite and > 0)"@,
            FromPartsError::LazyMustHaveZeroVectors(x) => "lazy (uncommitted-dim) index must have n_vectors=0, got "@
                + digits(x as nat),
            FromPartsError::LazyMustHaveEmptyPackedCodes(x) => "lazy index must have empty packed_codes, got length "@
                + digits(x as nat),
            FromPartsError::LazyMustHaveEmptyScales(x) => "lazy index must have empty scales, got length "@
                + digits(x as nat),
            FromPartsError::LazyMustHaveEmptyTqplus(x) => "lazy index must have empty TQ+ calibration, got length "@
                + digits(x as nat),
        }
    }

    /// Render the message around `value`, the rendered offending number.
    pub fn message(&self, value: &str) -> (r: String)
        ensures
            r@ == self.text(value@),
    {
        match self {
            FromPartsError::BitWidthOutOfRange(x) => {
                let mut text = String::from_str("bit_width must be 2, 3, or 4, got ");
                push_number(&mut text, *x as u64);
                text
            },
            FromPartsError::DimNotPositiveMultipleOf8(x) => {
                let mut text = String::from_str("dim must be a positive multiple of 8, got ");
                push_number(&mut text, *x as u64);
                text
            },
            FromPartsError::DimTooLarge { dim, max } => {
                let mut text = String::from_str("dim ");
                push_number(&mut text, *dim as u64);
                text.append(" exceeds maximum ");
                push_number(&mut text, *max as u64);
                text
            },
            FromPartsError::PackedCodesSizeOverflow { n_vectors, dim, bit_width } => {
                let mut text = String::from_str("packed code size n_vectors(");
                push_number(&mut text, *n_vectors as u64);
                text.append(") * dim(");
                push_number(&mut text, *dim as u64);
                text.append(") * bit_width(");
                push_number(&mut text, *bit_width as u64);
                text.append(") / 8 overflows usize");
                text
            },
            FromPartsError::PackedCodesLengthMismatch { expected, got } => {
                let mut text = String::from_str("packed_codes length ");
                push_number(&mut text, *got as u64);
                text.append(" != n_vectors * dim * bit_width / 8 = ");
                push_number(&mut text, *expected as u64);
                text
            },
            FromPartsError::ScalesLengthMismatch { expected, got } => {
                let mut text = String::from_str("scales length ");
                push_number(&mut text, *got as u64);
                text.append(" != n_vectors ");
                push_number(&mut text, *expected as u64);
                text
            },
            FromPartsError::TqplusLengthMismatch { shift_len, scale_len } => {
                let mut text = String::from_str("tqplus_shift length ");
                push_number(&mut text, *shift_len as u64);
                text.append(" != tqplus_scale length ");
                push_number(&mut text, *scale_len as u64);
                text
            },
            FromPartsError::TqplusLengthNotDim { got, dim } => {
                let mut text = String::from_str("non-empty TQ+ calibration length ");
                push_number(&mut text, *got as u64);
                text.append(" must equal dim ");
                push_number(&mut text, *dim as u64);
                text
            },
            FromPartsError::InvalidScaleValue { slot, .. } => {
                let mut text = String::from_str("invalid per-vector scale at slot ");
                push_number(&mut text, *slot as u64);
                text.append(": ");
                text.append(value);
                text.append(" (must be finite and non-negative)");
                text
            },
            FromPartsError::InvalidTqplusShiftValue { coord, .. } => {
                let mut text = String::from_str("invalid TQ+ shift at coord ");
                push_number(&mut text, *coord as u64);
                text.append(": ");
                text.append(value);
                text.append(" (must be finite)");
                text
            },
            FromPartsError::InvalidTqplusScaleValue { coord, .. } => {
                let mut text = String::from_str("invalid TQ+ scale at coord ");
                push_number(&mut text, *coord as u64);
                text.append(": ");
                text.append(value);
                text.append(" (must be finite and > 0)");
                text
            },
            FromPartsError::LazyMustHaveZeroVectors(x) => {
                let mut text = String::from_str("lazy (uncommitted-dim) index must have n_vectors=0, got ");
                push_number(&mut text, *x as u64);
                text
            },
            FromPartsError::LazyMustHaveEmptyPackedCodes(x) => {
                let mut text = String::from_str("lazy index must have empty packed_codes, got length ");
                push_number(&mut text, *x as u64);
                text
            },
            FromPartsError::LazyMustHaveEmptyScales(x) => {
                let mut text = String::from_str("lazy index must have empty scales, got length ");
                push_number(&mut text, *x as u64);
                text
            },
            FromPartsError::LazyMustHaveEmptyTqplus(x) => {
                let mut text = String::from_str("lazy index must have empty TQ+ calibration, got length ");
                push_number(&mut text, *x as u64);
                text
            },
        }
    }

    /// Equality with offending numbers compared as numbers: NaN equals nothing,
    /// not even itself, and the two zeros are equal.
    pub open spec fn same(self, other: FromPartsError) -> bool {
        match (self, other) {
            (
                FromPartsError::InvalidScaleValue { slot: a0, value: a1 },
                FromPartsError::InvalidScaleValue { slot: b0, value: b1 },
            ) => a0 == b0 && equal(a1, b1),
            (
                FromPartsError::InvalidTqplusShiftValue { coord: a0, value: a1 },
                FromPartsError::InvalidTqplusShiftValue { coord: b0, value: b1 },
            ) => a0 == b0 && equal(a1, b1),
            (
                FromPartsError::InvalidTqplusScaleValue { coord: a0, value: a1 },
                FromPartsError::InvalidTqplusScaleValue { coord: b0, value: b1 },
            ) => a0 == b0 && equal(a1, b1),
            _ => self == other,
        }
    }
}

impl PartialEq for FromPartsError {
    fn eq(&self, other: &Self) -> (r: bool) {
        match (self, other) {
            (FromPartsError::BitWidthOutOfRange(a), FromPartsError::BitWidthOutOfRange(b)) => *a == *b,
            (FromPartsError::DimNotPositiveMultipleOf8(a), FromPartsError::DimNotPositiveMultipleOf8(b)) => *a == *b,
            (
                FromPartsError::DimTooLarge { dim: a0, max: a1 },
                FromPartsError::DimTooLarge { dim: b0, max: b1 },
            ) => *a0 == *b0 && *a1 == *b1,
            (
                FromPartsError::PackedCodesSizeOverflow { n_vectors: a0, dim: a1, bit_width: a2 },
                FromPartsError::PackedCodesSizeOverflow { n_vectors: b0, dim: b1, bit_width: b2 },
            ) => *a0 == *b0 && *a1 == *b1 && *a2 == *b2,
            (
                FromPartsError::PackedCodesLengthMismatch { expected: a0, got: a1 },
                FromPartsError::PackedCodesLengthMismatch { expected: b0, got: b1 },
            ) => *a0 == *b0 && *a1 == *b1,
            (
                FromPartsError::ScalesLengthMismatch { expected: a0, got: a1 },
                FromPartsError::ScalesLengthMismatch { expected: b0, got: b1 },
            ) => *a0 == *b0 && *a1 == *b1,
            (
                FromPartsError::TqplusLengthMismatch { shift_len: a0, scale_len: a1 },
                FromPartsError::TqplusLengthMismatch { shift_len: b0, scale_len: b1 },
            ) => *a0 == *b0 && *a1 == *b1,
            (
                FromPartsError::TqplusLengthNotDim { got: a0, dim: a1 },
                FromPartsError::TqplusLengthNotDim { got: b0, dim: b1 },
            ) => *a0 == *b0 && *a1 == *b1,
            (
                FromPartsError::InvalidScaleValue { slot: a0, value: a1 },
                FromPartsError::InvalidScaleValue { slot: b0, value: b1 },
            ) => *a0 == *b0 && is_equal(*a1, *b1),
            (
                FromPartsError::InvalidTqplusShiftValue { coord: a0, value: a1 },
                FromPartsError::InvalidTqplusShiftValue { coord: b0, value: b1 },
            ) => *a0 == *b0 && is_equal(*a1, *b1),
            (
                FromPartsError::InvalidTqplusScaleValue { coord: a0, value: a1 },
                FromPartsError::InvalidTqplusScaleValue { coord: b0, value: b1 },
            ) => *a0 == *b0 && is_equal(*a1, *b1),
            (FromPartsError::LazyMustHaveZeroVectors(a), FromPartsError::LazyMustHaveZeroVectors(b)) => *a == *b,
            (FromPartsError::LazyMustHaveEmptyPackedCodes(a), FromPartsError::LazyMustHaveEmptyPackedCodes(b)) => *a == *b,
            (FromPartsError::LazyMustHaveEmptyScales(a), FromPartsError::LazyMustHaveEmptyScales(b)) => *a == *b,
            (FromPartsError::LazyMustHaveEmptyTqplus(a), FromPartsError::LazyMustHaveEmptyTqplus(b)) => *a == *b,
            _ => false,
        }
    }
}

impl vstd::std_specs::cmp::PartialEqSpecImpl for FromPartsError {
    open spec fn obeys_eq_spec() -> bool {
        true
    }

    open spec fn eq_spec(&self, other: &Self) -> bool {
        self.same(*other)
    }
}

/// Why an index cannot be taken apart.
#[derive(Debug, Clone, PartialEq, Eq, Structural)]
#[non_exhaustive]
pub enum ToPartsError {
    /// The index has storage slots that hold no vector, and the parts have no way
    /// to say so.
    NotCompact {
        /// Live vectors.
        live: usize,
        /// Storage slots.
        slots: usize,
    },
}

impl ToPartsError {
    /// The message text.
    pub open spec fn text(self) -> Seq<char> {
        match self {
            ToPartsError::NotCompact { live, slots } => "index holds "@
                + digits(live as nat)
                + " vectors in "@
                + digits(slots as nat)
                + " slots, so "@
                + digits((slots - live) as nat)
                + " slot(s) hold nothing; the parts cannot express that. Use to_bytes/from_bytes instead."@,
        }
    }

    /// Render the message.
    pub fn message(&self) -> (r: String)
        requires
            self matches ToPartsError::NotCompact { live, slots } ==> *live <= *slots,
        ensures
            r@ == self.text(),
    {
        match self {
            ToPartsError::NotCompact { live, slots } => {
                let mut text = String::from_str("index holds ");
                push_number(&mut text, *live as u64);
                text.append(" vectors in ");
                push_number(&mut text, *slots as u64);
                text.append(" slots, so ");
                push_number(&mut text, (*slots - *live) as u64);
                text.append(" slot(s) hold nothing; the parts cannot express that. Use to_bytes/from_bytes instead.");
                text
            },
        }
    }
}

/// Why a loaded payload does not describe an index.
#[derive(Debug, Clone)]
pub enum LoadError {
    /// The decoded fields contradict each other.
    Parts(FromPartsError),
    /// There is not one scale per vector.
    ScalesLength {
        /// Number of scales found.
        got: usize,
        /// Number of vectors declared.
        n_vectors: usize,
    },
    /// A declared size disagrees with the bytes present, or a number is one the
    /// encoder could not have emitted.
    Malformed,
}

impl LoadError {
    /// The message text; `value` is the rendered offending number.
    pub open spec fn text(self, value: Seq<char>) -> Seq<char> {
        match self {
            LoadError::Parts(e) => e.text(value),
            LoadError::ScalesLength { got, n_vectors } => "scales length "@
                + digits(got as nat)
                + " does not match n_vectors "@
                + digits(n_vectors as nat),
            LoadError::Malformed => "index payload does not match its header"@,
        }
    }

    /// Render the message around `value`, the rendered offending number.
    pub fn message(&self, value: &str) -> (r: String)
        ensures
            r@ == self.text(value@),
    {
        match self {
            LoadError::Parts(e) => e.message(value),
            LoadError::ScalesLength { got, n_vectors } => {
                let mut text = String::from_str("scales length ");
                push_number(&mut text, *got as u64);
                text.append(" does not match n_vectors ");
                push_number(&mut text, *n_vectors as u64);
                text
            },
            LoadError::Malformed => String::from_str("index payload does not match its header"),
        }
    }
}

} // verus!
