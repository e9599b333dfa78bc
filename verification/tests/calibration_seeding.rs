//! Calibrations fitted elsewhere and handed to an index at construction.
//!
//! The encoder is a stand-in: it fits a fixed non-identity pair to a batch of at
//! least 1000 rows and settles on identity for a smaller one.

use turbovec::construct::StoredIndex;
use turbovec::work::{AddPlan, AddWork, Codebook, EncodeEvent, EncodeRun, EncodedRows, LaneRows};
use turbovec::{ConstructError, TurboQuantIndex};

fn bits(values: &[f32]) -> Vec<u32> {
    values.iter().map(|v| v.to_bits()).collect()
}

fn gaussian_normalized(n: usize, dim: usize, seed: u64) -> Vec<f32> {
    let mut state = seed | 1;
    let mut next = || {
        state ^= state << 13;
        state ^= state >> 7;
        state ^= state << 17;
        state
    };
    let mut uniform = || {
        let raw = (next() >> 40) as u32 | 1;
        raw as f32 / (1u32 << 24) as f32
    };
    let two_pi = 2.0_f32 * std::f32::consts::PI;
    let mut data = vec![0.0f32; n * dim];
    let mut i = 0;
    while i < data.len() {
        let u1 = uniform().max(1e-7);
        let u2 = uniform();
        let r = (-2.0 * u1.ln()).sqrt();
        let theta = two_pi * u2;
        data[i] = r * theta.cos();
        if i + 1 < data.len() {
            data[i + 1] = r * theta.sin();
        }
        i += 2;
    }
    for row in data.chunks_mut(dim) {
        let norm: f32 = row.iter().map(|x| x * x).sum::<f32>().sqrt();
        if norm > 0.0 {
            let inv = 1.0 / norm;
            for x in row.iter_mut() {
                *x *= inv;
            }
        }
    }
    data
}

fn codebook(bit_width: usize) -> Codebook {
    let levels = 1 << bit_width;
    Codebook {
        boundaries: vec![0.5f32.to_bits(); levels - 1],
        centroids: vec![0.25f32.to_bits(); levels],
    }
}

/// One byte per 8 coordinates and bit: the low byte of the sum of their patterns
/// under the shift that the row is encoded with.
fn packed_row(row: &[u32], bit_width: usize, shift: u32) -> Vec<u8> {
    let mut out = Vec::new();
    for plane in 0..bit_width {
        for group in row.chunks(8) {
            let sum = group.iter().fold(shift, |a, b| a.wrapping_add(*b >> plane));
            out.push((sum >> 8) as u8);
        }
    }
    out
}

fn encode(index: &TurboQuantIndex, vectors: &[u32], dim: usize) -> EncodedRows {
    let n = vectors.len() / dim;
    let (pair, shift) = match index.calibration() {
        Some((shift, _)) => ((Vec::new(), Vec::new()), shift[0]),
        None if n >= 1000 => (
            (vec![0.125f32.to_bits(); dim], vec![1.5f32.to_bits(); dim]),
            0.125f32.to_bits(),
        ),
        None => ((vec![0.0f32.to_bits(); dim], vec![1.0f32.to_bits(); dim]), 0),
    };
    EncodedRows {
        codes: vectors
            .chunks(dim)
            .flat_map(|row| packed_row(row, index.bit_width(), shift))
            .collect(),
        scales: vec![1.0f32.to_bits(); n],
        shift: pair.0,
        scale: pair.1,
    }
}

fn add(index: &mut TurboQuantIndex, vectors: &[f32]) {
    let dim = index.dim_opt().unwrap();
    let vectors = bits(vectors);
    let plan = index.plan_add_2d(&vectors, dim).unwrap();
    assert!(matches!(plan, AddPlan::Append | AddPlan::FreshFit));
    let rows = encode(index, &vectors, dim);
    let work = AddWork {
        codebook: Some(codebook(index.bit_width())),
        run: EncodeRun::Single(EncodeEvent::Encoded(rows, Vec::new())),
    };
    assert!(index.add(&vectors, work));
}

fn fitted_calibration(dim: usize) -> (Vec<u32>, Vec<u32>) {
    let mut sample = TurboQuantIndex::new(dim, 4).unwrap();
    add(&mut sample, &gaussian_normalized(1500, dim, 0x5EED_CA1B));
    let (shift, scale) = sample.calibration().expect("first add fits calibration");
    (shift.to_vec(), scale.to_vec())
}

fn lanes_of(index: &TurboQuantIndex) -> LaneRows {
    LaneRows {
        groups: index.dim() * index.bit_width() / 8,
        bytes: index.packed_codes().unwrap().to_vec(),
    }
}

fn stored(index: &mut TurboQuantIndex) -> StoredIndex {
    let lanes = Some(lanes_of(index));
    let book = Some(codebook(index.bit_width()));
    index.to_stored(book, &lanes).unwrap()
}

#[test]
fn calibration_getter_none_before_first_add_some_after() {
    let dim = 64;
    let mut idx = TurboQuantIndex::new(dim, 4).unwrap();
    assert!(idx.calibration().is_none());

    add(&mut idx, &gaussian_normalized(1500, dim, 0xA11C_E001));
    let (shift, scale) = idx.calibration().expect("calibration fitted by first add");
    assert_eq!(shift.len(), dim);
    assert_eq!(scale.len(), dim);
    assert!(
        shift.iter().any(|&x| f32::from_bits(x).abs() > 1e-6)
            || scale.iter().any(|&x| (f32::from_bits(x) - 1.0).abs() > 1e-6),
        "fitted calibration is exactly identity",
    );
}

#[test]
fn seeded_index_reports_calibration_before_any_add() {
    let dim = 64;
    let (shift, scale) = fitted_calibration(dim);
    let idx = TurboQuantIndex::new_with_calibration(dim, 4, &shift, &scale).unwrap();
    assert_eq!(idx.len(), 0);
    let (got_shift, got_scale) = idx.calibration().expect("seeded at construction");
    assert_eq!(got_shift, shift.as_slice());
    assert_eq!(got_scale, scale.as_slice());
}

#[test]
fn same_seed_encodes_a_vector_byte_identically_across_indexes() {
    let dim = 64;
    let (shift, scale) = fitted_calibration(dim);
    let probe = gaussian_normalized(1, dim, 0x0B5E_55ED);

    let mut a = TurboQuantIndex::new_with_calibration(dim, 4, &shift, &scale).unwrap();
    add(&mut a, &probe);
    let mut b = TurboQuantIndex::new_with_calibration(dim, 4, &shift, &scale).unwrap();
    add(&mut b, &probe);
    add(&mut b, &gaussian_normalized(1200, dim, 0xD1FF_C0DE));

    let stored_a = stored(&mut a);
    let stored_b = stored(&mut b);

    // Same persisted calibration in both.
    assert_eq!(stored_a.tqplus_shift, stored_b.tqplus_shift);
    assert_eq!(stored_a.tqplus_scale, stored_b.tqplus_scale);
    assert_eq!(stored_a.tqplus_shift, shift);
    assert_eq!(stored_a.tqplus_scale, scale);

    // The probe occupies slot 0 in both: its codes and scale are the same
    // despite the different corpora behind it.
    let bytes_per_row = (stored_a.dim / 8) * 4;
    let scales_a = stored_a.scales.clone();
    let scales_b = stored_b.scales.clone();
    let mut loaded_a = TurboQuantIndex::from_loaded(stored_a, None).unwrap();
    let mut loaded_b = TurboQuantIndex::from_loaded(stored_b, None).unwrap();
    assert!(loaded_a.packed(a.packed_codes().map(|c| c.to_vec())));
    assert!(loaded_b.packed(b.packed_codes().map(|c| c.to_vec())));
    assert_eq!(
        &loaded_a.packed_codes().unwrap()[..bytes_per_row],
        &loaded_b.packed_codes().unwrap()[..bytes_per_row],
    );
    assert_eq!(scales_a[0], scales_b[0]);
}

#[test]
fn seeded_calibration_survives_small_first_add() {
    let dim = 64;
    let (shift, scale) = fitted_calibration(dim);
    let mut idx = TurboQuantIndex::new_with_calibration(dim, 4, &shift, &scale).unwrap();
    add(&mut idx, &gaussian_normalized(10, dim, 0x5A11_0B0B));
    assert_eq!(idx.len(), 10);
    let (got_shift, got_scale) = idx.calibration().unwrap();
    assert_eq!(got_shift, shift.as_slice());
    assert_eq!(got_scale, scale.as_slice());
}

#[test]
fn seeded_calibration_round_trips_through_write_load() {
    let dim = 64;
    let (shift, scale) = fitted_calibration(dim);
    let mut idx = TurboQuantIndex::new_with_calibration(dim, 4, &shift, &scale).unwrap();
    add(&mut idx, &gaussian_normalized(20, dim, 0x0E0E_0E0E));

    let loaded = TurboQuantIndex::from_loaded(stored(&mut idx), None).unwrap();

    let (got_shift, got_scale) = loaded.calibration().expect("calibration persisted");
    assert_eq!(got_shift, shift.as_slice());
    assert_eq!(got_scale, scale.as_slice());
}

fn construct_err(dim: usize, bit_width: usize, shift: &[f32], scale: &[f32]) -> ConstructError {
    match TurboQuantIndex::new_with_calibration(dim, bit_width, &bits(shift), &bits(scale)) {
        Ok(_) => panic!("expected new_with_calibration to fail"),
        Err(e) => e,
    }
}

#[test]
fn invalid_calibrations_are_rejected() {
    let dim = 64;
    let good_shift = vec![0.1f32; dim];
    let good_scale = vec![1.5f32; dim];

    // Wrong lengths.
    assert_eq!(
        construct_err(dim, 4, &good_shift[..dim - 1], &good_scale),
        ConstructError::CalibrationLengthMismatch {
            dim,
            shift_len: dim - 1,
            scale_len: dim,
        }
    );

    // Non-finite shift.
    let mut bad_shift = good_shift.clone();
    bad_shift[7] = f32::NAN;
    assert_eq!(
        construct_err(dim, 4, &bad_shift, &good_scale),
        ConstructError::CalibrationShiftNotFinite { coord_index: 7 }
    );

    // Zero, negative, and non-finite scales.
    for bad in [0.0f32, -1.0, f32::INFINITY, f32::NAN] {
        let mut bad_scale = good_scale.clone();
        bad_scale[3] = bad;
        assert_eq!(
            construct_err(dim, 4, &good_shift, &bad_scale),
            ConstructError::CalibrationScaleNotPositive { coord_index: 3 },
            "scale value {bad} must be rejected",
        );
    }

    // dim / bit_width validation still fires first.
    assert_eq!(
        construct_err(63, 4, &good_shift, &good_scale),
        ConstructError::DimNotPositiveMultipleOf8(63),
    );
    assert_eq!(
        construct_err(dim, 5, &good_shift, &good_scale),
        ConstructError::BitWidthOutOfRange(5),
    );
}

#[test]
fn a_seeded_index_never_refits() {
    let dim = 64;
    let (shift, scale) = fitted_calibration(dim);
    let mut idx = TurboQuantIndex::new_with_calibration(dim, 2, &shift, &scale).unwrap();
    assert_eq!(idx.plan_add(1), AddPlan::Append);
    assert_eq!(idx.plan_add(5000), AddPlan::Append);
    assert!(!idx.add_parallelizes(5000));
    add(&mut idx, &gaussian_normalized(1100, dim, 7));
    assert_eq!(idx.calibration(), Some((shift.as_slice(), scale.as_slice())));
}
