//! Building an index: empty, seeded, from stored parts, or from a loaded payload.
use crate::blocked::{blocked_len, blocked_len_for, blocks, blocks_for};
use crate::calibration::{normalize_calibration, normalized};
use crate::error::{ConstructError, FromPartsError, LoadError};
use crate::index::{
    level_count, pair_ok, row_bytes, scales_ok, BlockedCache, TurboQuantIndex,
};
use crate::model::{
    good_pair, good_scales, levels, packed_row_bytes, valid_bit_width, valid_dim, BlockedView,
    IndexView,
};
use crate::validate::{
    bad_calibration_scale, bad_shift, bad_vector_scale, first_bad_calibration_scale,
    first_bad_shift, first_bad_vector_scale, first_where, lemma_first_where,
};
use crate::MAX_DIM;
use vstd::prelude::*;

verus! {

/// An index without rows, still to be calibrated.
pub open spec fn fresh(dim: Option<usize>, bit_width: usize) -> IndexView {
    IndexView {
        dim,
        bit_width,
        n: 0,
        packed: Some(Seq::empty()),
        blocked: None,
        scales: Seq::empty(),
        shift: Seq::empty(),
        scale: Seq::empty(),
        warmup: Some(Seq::empty()),
        rotation: None,
        boundaries: None,
        centroids: None,
        scratch_demand: 0,
    }
}

/// Why an index of this shape cannot be made, if it cannot.
pub open spec fn construct_error(dim: usize, bit_width: usize) -> Option<ConstructError> {
    if !valid_bit_width(bit_width as int) {
        Some(ConstructError::BitWidthOutOfRange(bit_width))
    } else if dim == 0 || dim % 8 != 0 {
        Some(ConstructError::DimNotPositiveMultipleOf8(dim))
    } else if dim > MAX_DIM {
        Some(ConstructError::DimTooLarge { dim, max: MAX_DIM })
    } else {
        None
    }
}

/// Why a seeded index cannot be made, if it cannot: its shape first, then the
/// lengths of the pair, then its first unusable shift, then its first unusable
/// scale.
pub open spec fn calibration_error(
    dim: usize,
    bit_width: usize,
    shift: Seq<u32>,
    scale: Seq<u32>,
) -> Option<ConstructError> {
    match construct_error(dim, bit_width) {
        Some(e) => Some(e),
        None => if shift.len() != dim || scale.len() != dim {
            Some(
                ConstructError::CalibrationLengthMismatch {
                    dim,
                    shift_len: shift.len() as usize,
                    scale_len: scale.len() as usize,
                },
            )
        } else {
            match (
                first_where(shift, |v: u32| bad_shift(v)),
                first_where(scale, |v: u32| bad_calibration_scale(v)),
            ) {
                (Some(i), _) => Some(
                    ConstructError::CalibrationShiftNotFinite { coord_index: i as usize },
                ),
                (None, Some(i)) => Some(
                    ConstructError::CalibrationScaleNotPositive { coord_index: i as usize },
                ),
                (None, None) => None,
            }
        },
    }
}

/// Why parts of these sizes do not describe an index, if they do not.
pub open spec fn shape_error(
    dim: Option<usize>,
    bit_width: usize,
    n: usize,
    packed: int,
    scales: int,
    shift: int,
    scale: int,
) -> Option<FromPartsError> {
    if !valid_bit_width(bit_width as int) {
        Some(FromPartsError::BitWidthOutOfRange(bit_width))
    } else if shift != scale {
        Some(
            FromPartsError::TqplusLengthMismatch {
                shift_len: shift as usize,
                scale_len: scale as usize,
            },
        )
    } else {
        match dim {
            Some(d) => {
                let expected = n * packed_row_bytes(d as int, bit_width as int);
                if d == 0 || d % 8 != 0 {
                    Some(FromPartsError::DimNotPositiveMultipleOf8(d))
                } else if d > MAX_DIM {
                    Some(FromPartsError::DimTooLarge { dim: d, max: MAX_DIM })
                } else if expected > usize::MAX {
                    Some(FromPartsError::PackedCodesSizeOverflow { n_vectors: n, dim: d, bit_width })
                } else if packed != expected {
                    Some(
                        FromPartsError::PackedCodesLengthMismatch {
                            expected: expected as usize,
                            got: packed as usize,
                        },
                    )
                } else if scales != n {
                    Some(
                        FromPartsError::ScalesLengthMismatch { expected: n, got: scales as usize },
                    )
                } else if shift != 0 && shift != d {
                    Some(FromPartsError::TqplusLengthNotDim { got: shift as usize, dim: d })
                } else {
                    None
                }
            },
            None => if n != 0 {
                Some(FromPartsError::LazyMustHaveZeroVectors(n))
            } else if packed != 0 {
                Some(FromPartsError::LazyMustHaveEmptyPackedCodes(packed as usize))
            } else if scales != 0 {
                Some(FromPartsError::LazyMustHaveEmptyScales(scales as usize))
            } else if shift != 0 {
                Some(FromPartsError::LazyMustHaveEmptyTqplus(shift as usize))
            } else {
                None
            },
        }
    }
}

/// The first number among the parts that no encoder emits, if there is one: a
/// per-vector scale, else a calibration shift, else a calibration scale.
pub open spec fn value_error(
    scales: Seq<u32>,
    shift: Seq<u32>,
    scale: Seq<u32>,
) -> Option<FromPartsError> {
    match (
        first_where(scales, |v: u32| bad_vector_scale(v)),
        first_where(shift, |v: u32| bad_shift(v)),
        first_where(scale, |v: u32| bad_calibration_scale(v)),
    ) {
        (Some(i), _, _) => Some(
            FromPartsError::InvalidScaleValue { slot: i as usize, value: scales[i] },
        ),
        (None, Some(i), _) => Some(
            FromPartsError::InvalidTqplusShiftValue { coord: i as usize, value: shift[i] },
        ),
        (None, None, Some(i)) => Some(
            FromPartsError::InvalidTqplusScaleValue { coord: i as usize, value: scale[i] },
        ),
        (None, None, None) => None,
    }
}

/// Why parts do not describe an index, if they do not: sizes first, then values.
pub open spec fn parts_error(
    dim: Option<usize>,
    bit_width: usize,
    n: usize,
    packed: Seq<u8>,
    scales: Seq<u32>,
    shift: Seq<u32>,
    scale: Seq<u32>,
) -> Option<FromPartsError> {
    match shape_error(
        dim,
        bit_width,
        n,
        packed.len() as int,
        scales.len() as int,
        shift.len() as int,
        scale.len() as int,
    ) {
        Some(e) => Some(e),
        None => value_error(scales, shift, scale),
    }
}

/// The index that accepted parts describe.
pub open spec fn built(
    dim: Option<usize>,
    bit_width: usize,
    n: int,
    packed: Seq<u8>,
    scales: Seq<u32>,
    shift: Seq<u32>,
    scale: Seq<u32>,
) -> IndexView {
    let (shift, scale, warmup) = normalized(dim, n, shift, scale);
    IndexView {
        n,
        packed: Some(packed),
        scales,
        shift,
        scale,
        warmup,
        ..fresh(dim, bit_width)
    }
}

/// A normalized calibration is usable and fits the rows it stands beside.
pub proof fn lemma_normalized(dim: Option<usize>, n: int, shift: Seq<u32>, scale: Seq<u32>)
    requires
        0 <= n,
        good_pair(shift, scale),
        dim matches Some(d) ==> valid_dim(d as int) && (shift.len() == 0 || shift.len() == d),
        dim is None ==> n == 0 && shift.len() == 0,
    ensures
        ({
            let (shift2, scale2, warmup) = normalized(dim, n, shift, scale);
            &&& good_pair(shift2, scale2)
            &&& n > 0 ==> shift2.len() > 0
            &&& dim matches Some(d) ==> shift2.len() == 0 || shift2.len() == d
            &&& dim is None ==> shift2.len() == 0
            &&& match warmup {
                Some(w) => n == 0 && w.len() == 0,
                None => dim is Some && shift2.len() == dim->0,
            }
        }),
{
}

/// What is built from accepted parts satisfies the invariant.
pub proof fn lemma_built_wf(
    dim: Option<usize>,
    bit_width: usize,
    n: usize,
    packed: Seq<u8>,
    scales: Seq<u32>,
    shift: Seq<u32>,
    scale: Seq<u32>,
)
    requires
        parts_error(dim, bit_width, n, packed, scales, shift, scale) is None,
    ensures
        built(dim, bit_width, n as int, packed, scales, shift, scale).wf(),
{
    lemma_first_where(scales, |v: u32| bad_vector_scale(v));
    lemma_first_where(shift, |v: u32| bad_shift(v));
    lemma_first_where(scale, |v: u32| bad_calibration_scale(v));
    assert(good_scales(scales));
    assert(good_pair(shift, scale));
    lemma_normalized(dim, n as int, shift, scale);
    assert(packed =~= Seq::<u8>::empty() || packed.len() > 0);
}

/// Whether a codebook exists for this bit width and dim: 2 to 4 bits, and a
/// positive multiple of 8.
pub fn codebook_defined(bit_width: usize, dim: usize) -> (r: bool)
    ensures
        r == (valid_bit_width(bit_width as int) && dim > 0 && dim % 8 == 0),
{
    2 <= bit_width && bit_width <= 4 && dim >= 8 && dim % 8 == 0
}

impl TurboQuantIndex {
    /// An empty index of known dim.
    pub fn new(dim: usize, bit_width: usize) -> (r: Result<TurboQuantIndex, ConstructError>)
        ensures
            match (r, construct_error(dim, bit_width)) {
                (Ok(index), None) => index.wf() && index@ == fresh(Some(dim), bit_width),
                (Err(e), Some(expected)) => e == expected,
                _ => false,
            },
    {
        if bit_width < 2 || bit_width > 4 {
            return Err(ConstructError::BitWidthOutOfRange(bit_width));
        }
        if dim == 0 || dim % 8 != 0 {
            return Err(ConstructError::DimNotPositiveMultipleOf8(dim));
        }
        if dim > MAX_DIM {
            return Err(ConstructError::DimTooLarge { dim, max: MAX_DIM });
        }
        Ok(TurboQuantIndex::empty(Some(dim), bit_width))
    }

    /// An empty index whose dim is committed by its first non-empty add.
    pub fn new_lazy(bit_width: usize) -> (r: Result<TurboQuantIndex, ConstructError>)
        ensures
            match r {
                Ok(index) => valid_bit_width(bit_width as int) && index.wf() && index@ == fresh(
                    None,
                    bit_width,
                ),
                Err(e) => !valid_bit_width(bit_width as int) && e
                    == ConstructError::BitWidthOutOfRange(bit_width),
            },
    {
        if bit_width < 2 || bit_width > 4 {
            return Err(ConstructError::BitWidthOutOfRange(bit_width));
        }
        Ok(TurboQuantIndex::empty(None, bit_width))
    }

    fn empty(dim: Option<usize>, bit_width: usize) -> (r: TurboQuantIndex)
        requires
            valid_bit_width(bit_width as int),
            dim matches Some(d) ==> valid_dim(d as int),
        ensures
            r.wf(),
            r@ == fresh(dim, bit_width),
    {
        let r = TurboQuantIndex {
            dim,
            bit_width,
            n_vectors: 0,
            packed_codes: Some(Vec::new()),
            scales: Vec::new(),
            tqplus_shift: Vec::new(),
            tqplus_scale: Vec::new(),
            warmup: Some(Vec::new()),
            rotation: None,
            boundaries: None,
            centroids: None,
            blocked: None,
            encode_scratch_prev: 0,
        };
        assert(r@ =~= fresh(dim, bit_width));
        r
    }

    /// An empty index with a calibration fitted elsewhere. It is past warm-up: no
    /// add ever refits it.
    pub fn new_with_calibration(
        dim: usize,
        bit_width: usize,
        shift: &[u32],
        scale: &[u32],
    ) -> (r: Result<TurboQuantIndex, ConstructError>)
        ensures
            match (r, calibration_error(dim, bit_width, shift@, scale@)) {
                (Ok(index), None) => index.wf() && index@ == (IndexView {
                    shift: shift@,
                    scale: scale@,
                    warmup: None,
                    ..fresh(Some(dim), bit_width)
                }),
                (Err(e), Some(expected)) => e == expected,
                _ => false,
            },
    {
        let mut index = match TurboQuantIndex::new(dim, bit_width) {
            Ok(index) => index,
            Err(e) => {
                return Err(e);
            },
        };
        if shift.len() != dim || scale.len() != dim {
            return Err(
                ConstructError::CalibrationLengthMismatch {
                    dim,
                    shift_len: shift.len(),
                    scale_len: scale.len(),
                },
            );
        }
        if let Some(coord_index) = first_bad_shift(shift) {
            return Err(ConstructError::CalibrationShiftNotFinite { coord_index });
        }
        if let Some(coord_index) = first_bad_calibration_scale(scale) {
            return Err(ConstructError::CalibrationScaleNotPositive { coord_index });
        }
        proof {
            lemma_first_where(shift@, |v: u32| bad_shift(v));
            lemma_first_where(scale@, |v: u32| bad_calibration_scale(v));
        }
        index.tqplus_shift = slice_to_vec(shift);
        index.tqplus_scale = slice_to_vec(scale);
        index.warmup = None;
        Ok(index)
    }

    /// An index from already decoded fields, every one of which is checked.
    pub fn from_parts(
        dim: Option<usize>,
        bit_width: usize,
        n_vectors: usize,
        packed_codes: Vec<u8>,
        scales: Vec<u32>,
        tqplus_shift: Vec<u32>,
        tqplus_scale: Vec<u32>,
    ) -> (r: Result<TurboQuantIndex, FromPartsError>)
        ensures
            match (
                r,
                parts_error(
                    dim,
                    bit_width,
                    n_vectors,
                    packed_codes@,
                    scales@,
                    tqplus_shift@,
                    tqplus_scale@,
                ),
            ) {
                (Ok(index), None) => index.wf() && index@ == built(
                    dim,
                    bit_width,
                    n_vectors as int,
                    packed_codes@,
                    scales@,
                    tqplus_shift@,
                    tqplus_scale@,
                ),
                (Err(e), Some(expected)) => e == expected,
                _ => false,
            },
    {
        if bit_width < 2 || bit_width > 4 {
            return Err(FromPartsError::BitWidthOutOfRange(bit_width));
        }
        if tqplus_shift.len() != tqplus_scale.len() {
            return Err(
                FromPartsError::TqplusLengthMismatch {
                    shift_len: tqplus_shift.len(),
                    scale_len: tqplus_scale.len(),
                },
            );
        }
        match dim {
            Some(d) => {
                if d == 0 || d % 8 != 0 {
                    return Err(FromPartsError::DimNotPositiveMultipleOf8(d));
                }
                if d > MAX_DIM {
                    return Err(FromPartsError::DimTooLarge { dim: d, max: MAX_DIM });
                }
                let expected: usize = match row_bytes(d, bit_width).checked_mul(n_vectors) {
                    Some(expected) => expected,
                    None => {
                        proof {
                            let w = packed_row_bytes(d as int, bit_width as int);
                            assert(w * n_vectors == n_vectors * w) by (nonlinear_arith);
                        }
                        return Err(
                            FromPartsError::PackedCodesSizeOverflow { n_vectors, dim: d, bit_width },
                        );
                    },
                };
                proof {
                    let w = packed_row_bytes(d as int, bit_width as int);
                    assert(w * n_vectors == n_vectors * w) by (nonlinear_arith);
                }
                if packed_codes.len() != expected {
                    return Err(
                        FromPartsError::PackedCodesLengthMismatch {
                            expected,
                            got: packed_codes.len(),
                        },
                    );
                }
                if scales.len() != n_vectors {
                    return Err(
                        FromPartsError::ScalesLengthMismatch {
                            expected: n_vectors,
                            got: scales.len(),
                        },
                    );
                }
                if tqplus_shift.len() != 0 && tqplus_shift.len() != d {
                    return Err(
                        FromPartsError::TqplusLengthNotDim { got: tqplus_shift.len(), dim: d },
                    );
                }
            },
            None => {
                if n_vectors != 0 {
                    return Err(FromPartsError::LazyMustHaveZeroVectors(n_vectors));
                }
                if packed_codes.len() != 0 {
                    return Err(FromPartsError::LazyMustHaveEmptyPackedCodes(packed_codes.len()));
                }
                if scales.len() != 0 {
                    return Err(FromPartsError::LazyMustHaveEmptyScales(scales.len()));
                }
                if tqplus_shift.len() != 0 {
                    return Err(FromPartsError::LazyMustHaveEmptyTqplus(tqplus_shift.len()));
                }
            },
        }
        if let Some(slot) = first_bad_vector_scale(scales.as_slice()) {
            return Err(FromPartsError::InvalidScaleValue { slot, value: scales[slot] });
        }
        if let Some(coord) = first_bad_shift(tqplus_shift.as_slice()) {
            return Err(
                FromPartsError::InvalidTqplusShiftValue { coord, value: tqplus_shift[coord] },
            );
        }
        if let Some(coord) = first_bad_calibration_scale(tqplus_scale.as_slice()) {
            return Err(
                FromPartsError::InvalidTqplusScaleValue { coord, value: tqplus_scale[coord] },
            );
        }
        proof {
            lemma_built_wf(
                dim,
                bit_width,
                n_vectors,
                packed_codes@,
                scales@,
                tqplus_shift@,
                tqplus_scale@,
            );
        }
        let ghost expected = built(
            dim,
            bit_width,
            n_vectors as int,
            packed_codes@,
            scales@,
            tqplus_shift@,
            tqplus_scale@,
        );
        let (shift, scale, warmup) = normalize_calibration(
            dim,
            n_vectors,
            tqplus_shift,
            tqplus_scale,
        );
        let index = TurboQuantIndex {
            dim,
            bit_width,
            n_vectors,
            packed_codes: Some(packed_codes),
            scales,
            tqplus_shift: shift,
            tqplus_scale: scale,
            warmup,
            rotation: None,
            boundaries: None,
            centroids: None,
            blocked: None,
            encode_scratch_prev: 0,
        };
        assert(index@ =~= expected);
        Ok(index)
    }
}

fn slice_to_vec(values: &[u32]) -> (r: Vec<u32>)
    ensures
        r@ == values@,
{
    let mut r: Vec<u32> = Vec::new();
    r.extend_from_slice(values);
    assert(r@ =~= values@);
    r
}

/// A code section in the blocked layout, with the codebook stored beside it.
#[derive(Debug)]
pub struct BlockedPayload {
    /// Bytes per slot.
    pub groups: usize,
    /// The blocked buffer.
    pub codes: Vec<u8>,
    /// Cell boundaries.
    pub boundaries: Vec<u32>,
    /// Reconstruction levels.
    pub centroids: Vec<u32>,
}

/// The code section of a stored index.
#[derive(Debug)]
pub enum CodePayload {
    /// Bit-plane packed rows.
    Packed(Vec<u8>),
    /// The blocked layout as a file stores it.
    BlockedSeq(BlockedPayload),
    /// The blocked layout as the scan kernels of this machine read it.
    BlockedNative(BlockedPayload),
}

/// The fields of an index as a file holds them.
#[derive(Debug)]
pub struct StoredIndex {
    /// Bits per coordinate.
    pub bit_width: usize,
    /// Dim, 0 when it was never committed.
    pub dim: usize,
    /// Number of rows.
    pub n_vectors: usize,
    /// The code section.
    pub codes: CodePayload,
    /// One scale per row.
    pub scales: Vec<u32>,
    /// Calibration shift.
    pub tqplus_shift: Vec<u32>,
    /// Calibration scale.
    pub tqplus_scale: Vec<u32>,
}

impl StoredIndex {
    /// The dim, where 0 stands for one that was never committed.
    pub open spec fn dim_opt(self) -> Option<usize> {
        if self.dim == 0 {
            None
        } else {
            Some(self.dim)
        }
    }

    /// The sizes and numbers of a blocked payload agree with its header.
    pub open spec fn blocked_ok(self, payload: BlockedPayload) -> bool {
        &&& valid_bit_width(self.bit_width as int)
        &&& self.dim == 0 || valid_dim(self.dim as int)
        &&& good_scales(self.scales@)
        &&& good_pair(self.tqplus_shift@, self.tqplus_scale@)
        &&& self.tqplus_shift@.len() == 0 || self.tqplus_shift@.len() == self.dim
        &&& self.n_vectors > 0 ==> {
            &&& self.dim > 0
            &&& payload.groups > 0
            &&& payload.codes@.len() == blocked_len(
                self.n_vectors as int,
                payload.groups as int,
            )
            &&& payload.boundaries@.len() == levels(self.bit_width as int) - 1
            &&& payload.centroids@.len() == levels(self.bit_width as int)
        }
    }

    /// Why a blocked payload is refused, if it is.
    pub open spec fn blocked_error(self, payload: BlockedPayload) -> Option<LoadError> {
        if self.scales@.len() != self.n_vectors {
            Some(
                LoadError::ScalesLength {
                    got: self.scales@.len() as usize,
                    n_vectors: self.n_vectors,
                },
            )
        } else if !self.blocked_ok(payload) {
            Some(LoadError::Malformed)
        } else {
            None
        }
    }

    /// Why the payload is refused, if it is. `sequential` is the stored layout of a
    /// native payload, which has as many bytes.
    pub open spec fn error(self, sequential: Option<Vec<u8>>) -> Option<LoadError> {
        match self.codes {
            CodePayload::Packed(packed) => match parts_error(
                self.dim_opt(),
                self.bit_width,
                self.n_vectors,
                packed@,
                self.scales@,
                self.tqplus_shift@,
                self.tqplus_scale@,
            ) {
                Some(e) => Some(LoadError::Parts(e)),
                None => None,
            },
            CodePayload::BlockedSeq(payload) => self.blocked_error(payload),
            CodePayload::BlockedNative(payload) => match self.blocked_error(payload) {
                Some(e) => Some(e),
                None => if self.n_vectors > 0 && !(sequential is Some && sequential->0@.len()
                    == payload.codes@.len()) {
                    Some(LoadError::Malformed)
                } else {
                    None
                },
            },
        }
    }

    /// The index that a blocked payload describes whose stored layout is `data`. One
    /// with rows seeds the blocked cache and the codebook and leaves the packed rows
    /// to be reconstructed when they are needed.
    pub open spec fn blocked_index(self, payload: BlockedPayload, data: Seq<u8>) -> IndexView {
        let plain = built(
            self.dim_opt(),
            self.bit_width,
            self.n_vectors as int,
            Seq::empty(),
            self.scales@,
            self.tqplus_shift@,
            self.tqplus_scale@,
        );
        if self.n_vectors == 0 {
            plain
        } else {
            IndexView {
                packed: None,
                blocked: Some(
                    BlockedView {
                        data,
                        groups: payload.groups as int,
                        n_blocks: blocks(self.n_vectors as int),
                    },
                ),
                boundaries: Some(payload.boundaries@),
                centroids: Some(payload.centroids@),
                ..plain
            }
        }
    }

    /// The index an accepted payload describes.
    pub open spec fn index(self, sequential: Option<Vec<u8>>) -> IndexView {
        match self.codes {
            CodePayload::Packed(packed) => built(
                self.dim_opt(),
                self.bit_width,
                self.n_vectors as int,
                packed@,
                self.scales@,
                self.tqplus_shift@,
                self.tqplus_scale@,
            ),
            CodePayload::BlockedSeq(payload) => self.blocked_index(payload, payload.codes@),
            CodePayload::BlockedNative(payload) => self.blocked_index(payload, sequential->0@),
        }
    }

    /// Whether the sizes and numbers of a blocked payload agree with the header.
    fn payload_ok(&self, payload: &BlockedPayload) -> (r: bool)
        ensures
            r == self.blocked_ok(*payload),
    {
        if self.bit_width < 2 || self.bit_width > 4 || self.dim % 8 != 0 || self.dim > MAX_DIM {
            return false;
        }
        let shift_len: usize = self.tqplus_shift.len();
        if !scales_ok(self.scales.as_slice()) || !pair_ok(
            self.tqplus_shift.as_slice(),
            self.tqplus_scale.as_slice(),
        ) || (shift_len != 0 && shift_len != self.dim) {
            return false;
        }
        if self.n_vectors == 0 {
            return true;
        }
        let n_levels: usize = level_count(self.bit_width);
        let have: usize = payload.codes.len();
        let expected: Option<usize> = blocked_len_for(self.n_vectors, payload.groups);
        match expected {
            Some(expected) => {
                self.dim > 0 && payload.groups > 0 && have == expected && payload.boundaries.len()
                    == n_levels - 1 && payload.centroids.len() == n_levels
            },
            None => false,
        }
    }

    /// Check a blocked payload.
    fn check_blocked(&self, payload: &BlockedPayload) -> (r: Result<(), LoadError>)
        ensures
            match (r, self.blocked_error(*payload)) {
                (Ok(_), None) => true,
                (Err(e), Some(expected)) => e == expected,
                _ => false,
            },
    {
        if self.scales.len() != self.n_vectors {
            return Err(
                LoadError::ScalesLength { got: self.scales.len(), n_vectors: self.n_vectors },
            );
        }
        if !self.payload_ok(payload) {
            return Err(LoadError::Malformed);
        }
        Ok(())
    }
}

impl TurboQuantIndex {
    /// The index a loaded payload describes. `sequential` is the stored layout of a
    /// native payload with rows; others need none.
    pub fn from_loaded(parts: StoredIndex, sequential: Option<Vec<u8>>) -> (r: Result<
        TurboQuantIndex,
        LoadError,
    >)
        ensures
            match (r, parts.error(sequential)) {
                (Ok(index), None) => index.wf() && index@ == parts.index(sequential),
                (Err(e), Some(expected)) => e == expected,
                _ => false,
            },
    {
        let ghost whole = parts;
        match &parts.codes {
            CodePayload::Packed(_) => {},
            CodePayload::BlockedSeq(payload) => {
                if let Err(e) = parts.check_blocked(payload) {
                    return Err(e);
                }
            },
            CodePayload::BlockedNative(payload) => {
                if let Err(e) = parts.check_blocked(payload) {
                    return Err(e);
                }
                let fits: bool = match &sequential {
                    Some(data) => data.len() == payload.codes.len(),
                    None => false,
                };
                if parts.n_vectors > 0 && !fits {
                    return Err(LoadError::Malformed);
                }
            },
        }
        let StoredIndex { bit_width, dim, n_vectors, codes, scales, tqplus_shift, tqplus_scale } =
            parts;
        let dim_opt: Option<usize> = if dim == 0 {
            None
        } else {
            Some(dim)
        };
        let (payload, data) = match codes {
            CodePayload::Packed(packed) => {
                return match TurboQuantIndex::from_parts(
                    dim_opt,
                    bit_width,
                    n_vectors,
                    packed,
                    scales,
                    tqplus_shift,
                    tqplus_scale,
                ) {
                    Ok(index) => Ok(index),
                    Err(e) => Err(LoadError::Parts(e)),
                };
            },
            CodePayload::BlockedSeq(payload) => {
                let BlockedPayload { groups, codes, boundaries, centroids } = payload;
                ((groups, boundaries, centroids), Some(codes))
            },
            CodePayload::BlockedNative(payload) => {
                let BlockedPayload { groups, codes: _, boundaries, centroids } = payload;
                ((groups, boundaries, centroids), sequential)
            },
        };
        let (groups, boundaries, centroids) = payload;
        proof {
            lemma_normalized(dim_opt, n_vectors as int, tqplus_shift@, tqplus_scale@);
        }
        let (shift, scale, warmup) = normalize_calibration(
            dim_opt,
            n_vectors,
            tqplus_shift,
            tqplus_scale,
        );
        let mut index = TurboQuantIndex {
            dim: dim_opt,
            bit_width,
            n_vectors,
            packed_codes: Some(Vec::new()),
            scales,
            tqplus_shift: shift,
            tqplus_scale: scale,
            warmup,
            rotation: None,
            boundaries: None,
            centroids: None,
            blocked: None,
            encode_scratch_prev: 0,
        };
        if n_vectors > 0 {
            if let Some(data) = data {
                index.packed_codes = None;
                index.blocked = Some(BlockedCache { data, groups, n_blocks: blocks_for(n_vectors) });
                index.boundaries = Some(boundaries);
                index.centroids = Some(centroids);
            }
        }
        assert(index@ =~= whole.index(sequential));
        Ok(index)
    }
}

} // verus!
