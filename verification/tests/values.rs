//! Bit patterns, value checks, layout and message text.

use turbovec::blocked::{
    append_lanes, blocked_len_for, blocks_for, move_lane, swap_remove_lane, write_lane, zero_lane,
};
use turbovec::calibration::{is_identity, normalize_calibration};
use turbovec::error::ToPartsError;
use turbovec::float_bits::{is_equal, is_finite, is_less, is_less_eq, is_nan, ONE, ZERO};
use turbovec::rows::swap_remove_row;
use turbovec::scratch::release_target;
use turbovec::text::push_number;
use turbovec::validate::{
    first_bad_calibration_scale, first_bad_shift, first_bad_vector_scale, MAX_INPUT_MAGNITUDE,
};
use turbovec::{
    first_invalid_coord, validation_parallelizes, AddError, ConstructError, SearchError,
    MIN_INPUT_NORM,
};

#[test]
fn constants_are_the_numbers_they_stand_for() {
    assert_eq!(ZERO, 0.0f32.to_bits());
    assert_eq!(ONE, 1.0f32.to_bits());
    assert_eq!(MAX_INPUT_MAGNITUDE, 1e16f32.to_bits());
    assert_eq!(MIN_INPUT_NORM, 1e-10f32.to_bits());
}

#[test]
fn comparisons_agree_with_arithmetic() {
    let values = [
        0.0f32,
        -0.0,
        f32::MIN_POSITIVE,
        -f32::MIN_POSITIVE,
        f32::from_bits(1),
        f32::from_bits(0x8000_0001),
        f32::from_bits(0x007f_ffff),
        1.0,
        -1.0,
        1.0000001,
        1e16,
        -1e16,
        f32::MAX,
        f32::MIN,
        f32::INFINITY,
        f32::NEG_INFINITY,
        f32::NAN,
        -f32::NAN,
        f32::from_bits(0x7f80_0001),
    ];
    for a in values {
        assert_eq!(is_finite(a.to_bits()), a.is_finite());
        assert_eq!(is_nan(a.to_bits()), a.is_nan());
        for b in values {
            assert_eq!(is_less(a.to_bits(), b.to_bits()), a < b, "{a} < {b}");
            assert_eq!(is_less_eq(a.to_bits(), b.to_bits()), a <= b, "{a} <= {b}");
            assert_eq!(is_equal(a.to_bits(), b.to_bits()), a == b, "{a} == {b}");
        }
    }
}

#[test]
fn the_first_invalid_coordinate_is_found() {
    let mut values = vec![0.5f32.to_bits(); 24];
    assert_eq!(first_invalid_coord(&values, 8), None);
    assert_eq!(first_invalid_coord(&[], 8), None);
    values[20] = f32::NAN.to_bits();
    values[13] = (-1e16f32).to_bits();
    assert_eq!(first_invalid_coord(&values, 8), Some((1, 5, (-1e16f32).to_bits())));
    values[13] = 9.9e15f32.to_bits();
    assert_eq!(first_invalid_coord(&values, 8), Some((2, 4, f32::NAN.to_bits())));
    values[20] = f32::NEG_INFINITY.to_bits();
    assert_eq!(first_invalid_coord(&values, 8), Some((2, 4, f32::NEG_INFINITY.to_bits())));
    assert!(!validation_parallelizes(100, 100));
    assert!(validation_parallelizes(101, 100));
}

#[test]
fn the_first_unusable_number_is_found() {
    let bits = |v: &[f32]| v.iter().map(|x| x.to_bits()).collect::<Vec<u32>>();
    assert_eq!(first_bad_vector_scale(&bits(&[0.0, -0.0, 3.0])), None);
    assert_eq!(first_bad_vector_scale(&bits(&[0.0, -1e-40])), Some(1));
    assert_eq!(first_bad_shift(&bits(&[-5.0, 7.0])), None);
    assert_eq!(first_bad_shift(&bits(&[-5.0, f32::NAN])), Some(1));
    assert_eq!(first_bad_calibration_scale(&bits(&[1e-40])), None);
    assert_eq!(first_bad_calibration_scale(&bits(&[1.0, -0.0])), Some(1));
}

#[test]
fn calibrations_are_normalized() {
    let zeros = |n| vec![0.0f32.to_bits(); n];
    let ones = |n| vec![1.0f32.to_bits(); n];
    assert!(is_identity(&zeros(3), &ones(3)));
    assert!(is_identity(&[(-0.0f32).to_bits()], &ones(1)));
    assert!(!is_identity(&ones(1), &ones(1)));
    assert!(!is_identity(&zeros(1), &zeros(1)));
    assert!(is_identity(&[], &[]));
    let none: (Vec<u32>, Vec<u32>) = (vec![], vec![]);
    assert_eq!(
        normalize_calibration(Some(8), 3, vec![], vec![]),
        (zeros(8), ones(8), None)
    );
    assert_eq!(
        normalize_calibration(Some(8), 0, vec![], vec![]),
        (none.0.clone(), none.1.clone(), Some(vec![]))
    );
    assert_eq!(
        normalize_calibration(None, 0, vec![], vec![]),
        (none.0.clone(), none.1.clone(), Some(vec![]))
    );
    assert_eq!(
        normalize_calibration(Some(2), 0, zeros(2), ones(2)),
        (none.0.clone(), none.1.clone(), Some(vec![]))
    );
    assert_eq!(
        normalize_calibration(Some(2), 5, zeros(2), ones(2)),
        (zeros(2), ones(2), None)
    );
    assert_eq!(
        normalize_calibration(Some(2), 0, ones(2), ones(2)),
        (ones(2), ones(2), None)
    );
}

#[test]
fn lanes_are_written_moved_and_cleared() {
    assert_eq!((blocks_for(0), blocks_for(1), blocks_for(32), blocks_for(33)), (0, 1, 1, 2));
    assert_eq!(blocked_len_for(33, 3), Some(192));
    assert_eq!(blocked_len_for(usize::MAX, 3), None);
    let mut data: Vec<u8> = Vec::new();
    append_lanes(&mut data, 2, 0, &[1, 11, 2, 12, 3, 13], 3);
    assert_eq!(data.len(), 64);
    assert_eq!(&data[..4], &[1, 2, 3, 0]);
    assert_eq!(&data[32..36], &[11, 12, 13, 0]);
    move_lane(&mut data, 2, 3, 2, 0);
    assert_eq!((data[0], data[32]), (3, 13));
    write_lane(&mut data, 2, 3, 1, &[9, 8, 7], 1);
    assert_eq!((data[1], data[33]), (8, 7));
    zero_lane(&mut data, 2, 3, 0);
    assert_eq!((data[0], data[32], data[2]), (0, 0, 3));
    swap_remove_lane(&mut data, 2, 3, 0);
    assert_eq!((data[0], data[32], data[2], data[34]), (3, 13, 0, 0));
    let mut flat = vec![1, 1, 2, 2, 3, 3];
    swap_remove_row(&mut flat, 2, 3, 0);
    assert_eq!(flat, [3, 3, 2, 2]);
    swap_remove_row(&mut flat, 2, 2, 1);
    assert_eq!(flat, [3, 3]);
}

#[test]
fn scratch_targets() {
    assert_eq!(release_target(1, 0), Some(0));
    assert_eq!(release_target(0, 0), None);
    assert_eq!(release_target(300, 100), None);
    assert_eq!(release_target(301, 100), Some(150));
    assert_eq!(release_target(usize::MAX, usize::MAX), None);
}

#[test]
fn numbers_are_written_in_decimal() {
    for n in [0u64, 7, 10, 99, 1234567890, u64::MAX] {
        let mut text = String::from("n=");
        push_number(&mut text, n);
        assert_eq!(text, format!("n={n}"));
    }
}

#[test]
fn add_messages() {
    let cases = [
        (
            AddError::DimMismatch { existing: 8, got: 16 },
            "dim mismatch: index dim=8, batch dim=16",
        ),
        (AddError::DimNotMultipleOf8(12), "dim must be a multiple of 8, got 12"),
        (
            AddError::DimTooLarge { dim: 20000, max: 16384 },
            "dim 20000 exceeds maximum 16384",
        ),
        (
            AddError::VectorBufferNotMultipleOfDim { vectors_len: 9, dim: 8 },
            "vector buffer length 9 not a multiple of dim 8",
        ),
        (
            AddError::ZeroDim,
            "dim is 0: the vectors have no columns (an embedder that returned empty \
             embeddings is the usual cause)",
        ),
        (AddError::IdsCountMismatch { expected: 3, got: 2 }, "expected 3 ids, got 2"),
        (AddError::IdAlreadyPresent(42), "id 42 already present in index"),
        (
            AddError::DuplicateIdInBatch(42),
            "duplicate id 42 appears more than once in this batch",
        ),
        (
            AddError::InvalidInputValue {
                vector_index: 1,
                coord_index: 2,
                value: f32::NAN.to_bits(),
            },
            "invalid input value at vector 1, coord 2: NaN (must be finite and |value| < 1e16 \
             to avoid f32 norm overflow)",
        ),
    ];
    for (error, text) in cases {
        assert_eq!(error.message("NaN"), text);
    }
}

#[test]
fn construct_search_and_parts_messages() {
    let cases = [
        (ConstructError::BitWidthOutOfRange(5), "bit_width must be 2, 3, or 4, got 5"),
        (
            ConstructError::DimNotPositiveMultipleOf8(0),
            "dim must be a positive multiple of 8, got 0",
        ),
        (
            ConstructError::DimTooLarge { dim: 20000, max: 16384 },
            "dim 20000 exceeds maximum 16384",
        ),
        (
            ConstructError::BlockSizeInvalid { block_size: 100, granularity: 64 },
            "block_size must be a positive multiple of 64, got 100",
        ),
        (
            ConstructError::CalibrationLengthMismatch { dim: 8, shift_len: 7, scale_len: 9 },
            "calibration length mismatch: dim=8, shift has 7 entries, scale has 9 entries",
        ),
        (
            ConstructError::CalibrationShiftNotFinite { coord_index: 3 },
            "calibration shift at coord 3 is not finite",
        ),
        (
            ConstructError::CalibrationScaleNotPositive { coord_index: 3 },
            "calibration scale at coord 3 must be finite and > 0",
        ),
    ];
    for (error, text) in cases {
        assert_eq!(error.message(), text);
    }
    let cases = [
        (SearchError::AllowlistEmpty, "allowlist is empty"),
        (SearchError::UnknownId(9), "id 9 in allowlist is not present in index"),
        (
            SearchError::QueryBufferNotMultipleOfDim { queries_len: 65, dim: 64 },
            "query buffer length 65 not a multiple of dim 64",
        ),
        (
            SearchError::InvalidQueryValue { query_index: 0, coord_index: 4, value: 0 },
            "invalid query value at query 0, coord 4: inf (must be finite and |value| < 1e16 \
             to avoid f32 overflow)",
        ),
        (
            SearchError::MaskLengthMismatch { expected: 16, got: 99 },
            "mask length 99 does not match index size 16",
        ),
    ];
    for (error, text) in cases {
        assert_eq!(error.message("inf"), text);
    }
    assert_eq!(
        ToPartsError::NotCompact { live: 5, slots: 8 }.message(),
        "index holds 5 vectors in 8 slots, so 3 slot(s) hold nothing; the parts cannot express \
         that. Use to_bytes/from_bytes instead."
    );
    // A value that is no number equals nothing.
    let nan = AddError::InvalidInputValue {
        vector_index: 0,
        coord_index: 0,
        value: f32::NAN.to_bits(),
    };
    assert!(nan != nan.clone());
    assert_eq!(AddError::ZeroDim, AddError::ZeroDim);
}
