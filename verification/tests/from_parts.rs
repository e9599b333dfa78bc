//! Building an index from decoded fields.

use turbovec::{CalibrationState, FromPartsError, TurboQuantIndex, MAX_DIM};

fn bits(values: &[f32]) -> Vec<u32> {
    values.iter().map(|v| v.to_bits()).collect()
}

fn parts(
    dim: Option<usize>,
    bit_width: usize,
    n: usize,
    packed: usize,
    scales: &[f32],
    shift: &[f32],
    scale: &[f32],
) -> Result<TurboQuantIndex, FromPartsError> {
    TurboQuantIndex::from_parts(
        dim,
        bit_width,
        n,
        vec![0u8; packed],
        bits(scales),
        bits(shift),
        bits(scale),
    )
}

#[test]
fn from_parts_rejects_packed_codes_length_mismatch() {
    // The expected length for dim=64, bit_width=4, n=2 is
    // 2 * 64 * 4 / 8 = 64 bytes.
    let err = TurboQuantIndex::from_parts(
        Some(64),
        4,
        2,
        vec![0u8; 32],
        vec![1.0f32.to_bits(); 2],
        Vec::new(),
        Vec::new(),
    )
    .unwrap_err();
    assert!(matches!(
        err,
        FromPartsError::PackedCodesLengthMismatch { expected: 64, got: 32 }
    ));
}

#[test]
fn from_parts_rejects_lazy_with_nonzero_n_vectors() {
    let err = TurboQuantIndex::from_parts(
        None,
        4,
        5,
        Vec::new(),
        Vec::new(),
        Vec::new(),
        Vec::new(),
    )
    .unwrap_err();
    assert!(matches!(err, FromPartsError::LazyMustHaveZeroVectors(5)));
}

#[test]
fn from_parts_accepts_lazy_uncommitted() {
    let idx = TurboQuantIndex::from_parts(
        None,
        4,
        0,
        Vec::new(),
        Vec::new(),
        Vec::new(),
        Vec::new(),
    )
    .unwrap();
    assert_eq!(idx.dim_opt(), None);
    assert_eq!(idx.len(), 0);
}

#[test]
fn from_parts_accepts_eager_with_consistent_lengths() {
    let idx = TurboQuantIndex::from_parts(
        Some(64),
        4,
        2,
        vec![0u8; 64],
        vec![1.0f32.to_bits(); 2],
        Vec::new(),
        Vec::new(),
    )
    .unwrap();
    assert_eq!(idx.dim_opt(), Some(64));
    assert_eq!(idx.len(), 2);
    // An empty pair beside rows is written out as identity.
    assert_eq!(idx.tqplus_shift(), &vec![0.0f32.to_bits(); 64][..]);
    assert_eq!(idx.tqplus_scale(), &vec![1.0f32.to_bits(); 64][..]);
    assert_eq!(idx.calibration_state(), CalibrationState::Identity);
}

#[test]
fn each_contradiction_is_named() {
    let one = [1.0f32];
    assert_eq!(
        parts(Some(8), 5, 1, 4, &one, &[], &[]).unwrap_err(),
        FromPartsError::BitWidthOutOfRange(5)
    );
    assert_eq!(
        parts(Some(8), 4, 1, 4, &one, &[0.0; 8], &[]).unwrap_err(),
        FromPartsError::TqplusLengthMismatch { shift_len: 8, scale_len: 0 }
    );
    assert_eq!(
        parts(Some(0), 4, 1, 4, &one, &[], &[]).unwrap_err(),
        FromPartsError::DimNotPositiveMultipleOf8(0)
    );
    assert_eq!(
        parts(Some(12), 4, 1, 4, &one, &[], &[]).unwrap_err(),
        FromPartsError::DimNotPositiveMultipleOf8(12)
    );
    assert_eq!(
        parts(Some(MAX_DIM + 8), 4, 1, 4, &one, &[], &[]).unwrap_err(),
        FromPartsError::DimTooLarge { dim: MAX_DIM + 8, max: MAX_DIM }
    );
    assert_eq!(
        parts(Some(MAX_DIM), 4, usize::MAX, 4, &one, &[], &[]).unwrap_err(),
        FromPartsError::PackedCodesSizeOverflow {
            n_vectors: usize::MAX,
            dim: MAX_DIM,
            bit_width: 4
        }
    );
    assert_eq!(
        parts(Some(8), 4, 1, 4, &[1.0, 1.0], &[], &[]).unwrap_err(),
        FromPartsError::ScalesLengthMismatch { expected: 1, got: 2 }
    );
    assert_eq!(
        parts(Some(8), 4, 1, 4, &one, &[0.0; 16], &[1.0; 16]).unwrap_err(),
        FromPartsError::TqplusLengthNotDim { got: 16, dim: 8 }
    );
    assert_eq!(
        parts(None, 4, 0, 3, &[], &[], &[]).unwrap_err(),
        FromPartsError::LazyMustHaveEmptyPackedCodes(3)
    );
    assert_eq!(
        parts(None, 4, 0, 0, &one, &[], &[]).unwrap_err(),
        FromPartsError::LazyMustHaveEmptyScales(1)
    );
    assert_eq!(
        parts(None, 4, 0, 0, &[], &[0.0; 8], &[1.0; 8]).unwrap_err(),
        FromPartsError::LazyMustHaveEmptyTqplus(8)
    );
}

#[test]
fn each_unusable_number_is_named() {
    let good = [1.0f32; 8];
    for bad in [-0.5f32, f32::INFINITY, f32::NEG_INFINITY] {
        assert_eq!(
            parts(Some(8), 4, 2, 8, &[1.0, bad], &[], &[]).unwrap_err(),
            FromPartsError::InvalidScaleValue { slot: 1, value: bad.to_bits() }
        );
    }
    assert!(matches!(
        parts(Some(8), 4, 2, 8, &[f32::NAN, 1.0], &[], &[]).unwrap_err(),
        FromPartsError::InvalidScaleValue { slot: 0, .. }
    ));
    let mut shift = [0.0f32; 8];
    shift[5] = f32::INFINITY;
    assert_eq!(
        parts(Some(8), 4, 0, 0, &[], &shift, &good).unwrap_err(),
        FromPartsError::InvalidTqplusShiftValue { coord: 5, value: f32::INFINITY.to_bits() }
    );
    for bad in [0.0f32, -0.0, -1.0, f32::INFINITY] {
        let mut scale = good;
        scale[2] = bad;
        assert_eq!(
            parts(Some(8), 4, 0, 0, &[], &[0.0; 8], &scale).unwrap_err(),
            FromPartsError::InvalidTqplusScaleValue { coord: 2, value: bad.to_bits() }
        );
    }
    // A scale of negative zero is a zero.
    assert!(parts(Some(8), 4, 1, 4, &[-0.0], &[], &[]).is_ok());
}

#[test]
fn an_empty_index_starts_over_unless_it_declares_a_transform() {
    let identity = parts(Some(8), 2, 0, 0, &[], &[0.0; 8], &[1.0; 8]).unwrap();
    assert_eq!(identity.calibration_state(), CalibrationState::WarmingUp);
    assert!(identity.calibration().is_none());
    // Negative zero is a zero shift too.
    let negative = parts(Some(8), 2, 0, 0, &[], &[-0.0; 8], &[1.0; 8]).unwrap();
    assert_eq!(negative.calibration_state(), CalibrationState::WarmingUp);
    let fitted = parts(Some(8), 2, 0, 0, &[], &[0.5; 8], &[1.0; 8]).unwrap();
    assert_eq!(fitted.calibration_state(), CalibrationState::Fitted);
    assert_eq!(fitted.tqplus_shift(), bits(&[0.5; 8]).as_slice());
    let rows = parts(Some(8), 2, 1, 2, &[1.0], &[0.0; 8], &[1.0; 8]).unwrap();
    assert_eq!(rows.calibration_state(), CalibrationState::Identity);
}

#[test]
fn parts_of_an_index_build_it_again() {
    let first = TurboQuantIndex::from_parts(
        Some(16),
        3,
        3,
        (0u8..18).collect(),
        bits(&[0.5, 0.0, 2.0]),
        bits(&[0.25; 16]),
        bits(&[1.5; 16]),
    )
    .unwrap();
    let again = TurboQuantIndex::from_parts(
        first.dim_opt(),
        first.bit_width(),
        first.len(),
        first.packed_codes().unwrap().to_vec(),
        first.scales().to_vec(),
        first.tqplus_shift().to_vec(),
        first.tqplus_scale().to_vec(),
    )
    .unwrap();
    assert_eq!(again.len(), 3);
    assert_eq!(again.packed_codes(), first.packed_codes());
    assert_eq!(again.scales(), first.scales());
    assert_eq!(again.calibration(), first.calibration());
    assert_eq!(again.calibration_state(), CalibrationState::Fitted);
}

#[test]
fn from_parts_messages() {
    let cases = [
        (FromPartsError::BitWidthOutOfRange(7), "bit_width must be 2, 3, or 4, got 7"),
        (
            FromPartsError::DimNotPositiveMultipleOf8(9),
            "dim must be a positive multiple of 8, got 9",
        ),
        (
            FromPartsError::DimTooLarge { dim: 20000, max: 16384 },
            "dim 20000 exceeds maximum 16384",
        ),
        (
            FromPartsError::PackedCodesSizeOverflow { n_vectors: 10, dim: 8, bit_width: 2 },
            "packed code size n_vectors(10) * dim(8) * bit_width(2) / 8 overflows usize",
        ),
        (
            FromPartsError::PackedCodesLengthMismatch { expected: 64, got: 32 },
            "packed_codes length 32 != n_vectors * dim * bit_width / 8 = 64",
        ),
        (
            FromPartsError::ScalesLengthMismatch { expected: 2, got: 3 },
            "scales length 3 != n_vectors 2",
        ),
        (
            FromPartsError::TqplusLengthMismatch { shift_len: 8, scale_len: 16 },
            "tqplus_shift length 8 != tqplus_scale length 16",
        ),
        (
            FromPartsError::TqplusLengthNotDim { got: 16, dim: 8 },
            "non-empty TQ+ calibration length 16 must equal dim 8",
        ),
        (
            FromPartsError::InvalidScaleValue { slot: 4, value: 0 },
            "invalid per-vector scale at slot 4: -1.5 (must be finite and non-negative)",
        ),
        (
            FromPartsError::InvalidTqplusShiftValue { coord: 3, value: 0 },
            "invalid TQ+ shift at coord 3: -1.5 (must be finite)",
        ),
        (
            FromPartsError::InvalidTqplusScaleValue { coord: 2, value: 0 },
            "invalid TQ+ scale at coord 2: -1.5 (must be finite and > 0)",
        ),
        (
            FromPartsError::LazyMustHaveZeroVectors(5),
            "lazy (uncommitted-dim) index must have n_vectors=0, got 5",
        ),
        (
            FromPartsError::LazyMustHaveEmptyPackedCodes(5),
            "lazy index must have empty packed_codes, got length 5",
        ),
        (
            FromPartsError::LazyMustHaveEmptyScales(5),
            "lazy index must have empty scales, got length 5",
        ),
        (
            FromPartsError::LazyMustHaveEmptyTqplus(5),
            "lazy index must have empty TQ+ calibration, got length 5",
        ),
    ];
    for (error, text) in cases {
        assert_eq!(error.message("-1.5"), text);
    }
}
