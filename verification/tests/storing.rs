//! What a file holds of an index, and what is read back from it.

use turbovec::construct::{codebook_defined, BlockedPayload, CodePayload, StoredIndex};
use turbovec::error::LoadError;
use turbovec::persist::StoredShape;
use turbovec::work::{
    AddWork, Codebook, EncodeEvent, EncodeRun, EncodedRows, LaneRows,
};
use turbovec::{CalibrationState, FromPartsError, TurboQuantIndex};

fn bits(values: &[f32]) -> Vec<u32> {
    values.iter().map(|v| v.to_bits()).collect()
}

fn codebook() -> Codebook {
    Codebook { boundaries: bits(&[-0.5, 0.0, 0.5]), centroids: bits(&[-1.0, -0.25, 0.25, 1.0]) }
}

/// `n` rows of dim 8 at 2 bits; the codes of row `i` are `[i, 100 + i]`.
fn index(n: usize, shift: f32, scale: f32) -> TurboQuantIndex {
    TurboQuantIndex::from_parts(
        Some(8),
        2,
        n,
        (0..n).flat_map(|i| [i as u8, 100 + i as u8]).collect(),
        (0..n).map(|i| (i as f32).to_bits()).collect(),
        bits(&[shift; 8]),
        bits(&[scale; 8]),
    )
    .unwrap()
}

fn lanes(n: usize) -> LaneRows {
    LaneRows { groups: 2, bytes: (0..n).flat_map(|i| [i as u8, 100 + i as u8]).collect() }
}

fn blocked(stored: &StoredIndex) -> (usize, &[u8], &[u32], &[u32]) {
    match &stored.codes {
        CodePayload::BlockedSeq(p) => (p.groups, &p.codes, &p.boundaries, &p.centroids),
        _ => panic!("expected the stored blocked layout"),
    }
}

#[test]
fn rows_are_stored_in_blocks() {
    let mut idx = index(3, 0.5, 2.0);
    // Without lanes or a codebook there is nothing to store.
    assert!(idx.to_stored(Some(codebook()), &None).is_none());
    let mut cold = index(3, 0.5, 2.0);
    assert!(cold.to_stored(None, &Some(lanes(3))).is_none());
    assert!(cold.to_stored(Some(codebook()), &Some(lanes(2))).is_none());

    let stored = idx.to_stored(None, &Some(lanes(3))).unwrap();
    assert_eq!((stored.bit_width, stored.dim, stored.n_vectors), (2, 8, 3));
    let (groups, codes, boundaries, centroids) = blocked(&stored);
    assert_eq!(groups, 2);
    assert_eq!(codes.len(), 64);
    assert_eq!(&codes[..4], &[0, 1, 2, 0]);
    assert_eq!(&codes[32..36], &[100, 101, 102, 0]);
    assert_eq!(boundaries, codebook().boundaries.as_slice());
    assert_eq!(centroids, codebook().centroids.as_slice());
    assert_eq!(stored.scales, bits(&[0.0, 1.0, 2.0]));
    assert_eq!(stored.tqplus_shift, bits(&[0.5; 8]));
    assert_eq!(
        idx.stored_shape(2),
        Some(StoredShape { bit_width: 2, codes_len: 64, scales_len: 3, calibration_len: 8 })
    );
    assert_eq!(idx.stored_shape(usize::MAX), None);

    let mut back = TurboQuantIndex::from_loaded(stored, None).unwrap();
    assert_eq!((back.len(), back.dim_opt(), back.bit_width()), (3, Some(8), 2));
    assert_eq!(back.scales(), idx.scales());
    assert_eq!(back.calibration(), idx.calibration());
    assert_eq!(back.calibration_state(), CalibrationState::Fitted);
    assert_eq!(back.cached_codebook().0, Some(codebook().boundaries.as_slice()));
    // Only the blocked layout is there, until the packed rows are asked for.
    assert!(!back.packed_ready());
    assert!(back.packed_codes().is_none());
    let layout = back.blocked_layout().unwrap().0.to_vec();
    let to_native = |codes: Vec<u8>| exchanged(&codes);
    assert_eq!(back.blocked_native_for_write(&to_native), Some(exchanged(&layout)));
    assert_eq!(idx.blocked_native_for_write(&to_native), None);
    assert!(!back.packed(None));
    assert!(!back.packed(Some(vec![0; 5])));
    assert!(back.packed(idx.packed_codes().map(|c| c.to_vec())));
    assert_eq!(back.packed_codes(), idx.packed_codes());

    // Storing what was read back stores the same.
    let mut fresh = TurboQuantIndex::from_loaded(
        index(3, 0.5, 2.0).to_stored(Some(codebook()), &Some(lanes(3))).unwrap(),
        None,
    )
    .unwrap();
    let again = fresh.to_stored(None, &None).unwrap();
    let first = index(3, 0.5, 2.0).to_stored(Some(codebook()), &Some(lanes(3))).unwrap();
    assert_eq!(blocked(&again), blocked(&first));
    assert_eq!(again.scales, first.scales);
}

#[test]
fn a_read_back_index_grows_and_shrinks_in_its_lanes() {
    let mut idx = index(33, 0.5, 2.0);
    let stored = idx.to_stored(Some(codebook()), &Some(lanes(33))).unwrap();
    let mut back = TurboQuantIndex::from_loaded(stored, None).unwrap();
    assert_eq!(back.lanes_from(), 33);
    let vectors = bits(&[0.5; 16]);
    let rows = EncodedRows {
        codes: vec![0; 4],
        scales: bits(&[50.0, 51.0]),
        shift: Vec::new(),
        scale: Vec::new(),
    };
    let work = AddWork {
        codebook: None,
        run: EncodeRun::Single(EncodeEvent::Encoded(rows, vec![50, 150, 51, 151])),
    };
    assert!(back.add(&vectors, work));
    assert!(!back.packed_ready());
    {
        let (data, groups, n_blocks) = back.blocked_layout().unwrap();
        assert_eq!((groups, n_blocks, data.len()), (2, 2, 128));
        assert_eq!(&data[64..68], &[32, 50, 51, 0]);
        assert_eq!(&data[96..100], &[132, 150, 151, 0]);
    }
    assert_eq!(back.swap_remove(0), 34);
    assert!(!back.packed_ready());
    {
        let (data, _, _) = back.blocked_layout().unwrap();
        assert_eq!(&data[..2], &[51, 1]);
        assert_eq!(&data[64..68], &[32, 50, 0, 0]);
    }
    assert_eq!(back.swap_remove(33), 33);
    assert_eq!(back.swap_remove(32), 32);
    let (data, _, n_blocks) = back.blocked_layout().unwrap();
    assert_eq!((n_blocks, data.len()), (1, 64));
    assert_eq!(back.len(), 32);
}

#[test]
fn the_phase_after_reading_back() {
    // Rows under identity are fixed to it.
    let mut rows = index(1, 0.0, 1.0);
    let stored = rows.to_stored(Some(codebook()), &Some(lanes(1))).unwrap();
    assert_eq!(
        TurboQuantIndex::from_loaded(stored, None).unwrap().calibration_state(),
        CalibrationState::Identity
    );
    // Without rows, identity starts over; a fit stays.
    rows.swap_remove(0);
    assert_eq!(rows.calibration_state(), CalibrationState::Identity);
    let stored = rows.to_stored(None, &None).unwrap();
    let back = TurboQuantIndex::from_loaded(stored, None).unwrap();
    assert_eq!(back.calibration_state(), CalibrationState::WarmingUp);
    let mut fitted = index(1, 0.5, 1.0);
    fitted.swap_remove(0);
    let stored = fitted.to_stored(None, &None).unwrap();
    let (groups, codes, boundaries, centroids) = blocked(&stored);
    assert_eq!((groups, codes.len()), (0, 0));
    assert_eq!((boundaries, centroids), (&[0u32; 3][..], &[0u32; 4][..]));
    let back = TurboQuantIndex::from_loaded(stored, None).unwrap();
    assert_eq!(back.calibration_state(), CalibrationState::Fitted);
    assert!(back.packed_ready());
    // A lazy index stays lazy, under a dim of 0.
    let mut lazy = TurboQuantIndex::new_lazy(4).unwrap();
    let stored = lazy.to_stored(None, &None).unwrap();
    assert_eq!(stored.dim, 0);
    let back = TurboQuantIndex::from_loaded(stored, None).unwrap();
    assert_eq!(back.dim_opt(), None);
    assert_eq!(
        back.stored_shape(7),
        Some(StoredShape { bit_width: 4, codes_len: 0, scales_len: 0, calibration_len: 0 })
    );
}

fn blocked_payload(codes: Vec<u8>) -> BlockedPayload {
    BlockedPayload {
        groups: 2,
        codes,
        boundaries: codebook().boundaries,
        centroids: codebook().centroids,
    }
}

fn payload(n: usize, scales: usize, codes: usize) -> StoredIndex {
    StoredIndex {
        bit_width: 2,
        dim: 8,
        n_vectors: n,
        codes: CodePayload::BlockedSeq(blocked_payload(vec![0; codes])),
        scales: vec![1.0f32.to_bits(); scales],
        tqplus_shift: Vec::new(),
        tqplus_scale: Vec::new(),
    }
}

#[test]
fn a_payload_that_contradicts_itself_is_refused() {
    assert!(TurboQuantIndex::from_loaded(payload(2, 2, 64), None).is_ok());
    let err = TurboQuantIndex::from_loaded(payload(2, 3, 64), None).unwrap_err();
    assert!(matches!(err, LoadError::ScalesLength { got: 3, n_vectors: 2 }));
    assert_eq!(err.message(""), "scales length 3 does not match n_vectors 2");
    let err = TurboQuantIndex::from_loaded(payload(2, 2, 63), None).unwrap_err();
    assert!(matches!(err, LoadError::Malformed));
    assert_eq!(err.message(""), "index payload does not match its header");
    let mut bad = payload(2, 2, 64);
    bad.scales[1] = f32::NAN.to_bits();
    assert!(matches!(
        TurboQuantIndex::from_loaded(bad, None).unwrap_err(),
        LoadError::Malformed
    ));
    let mut bad = payload(2, 2, 64);
    bad.dim = 0;
    assert!(TurboQuantIndex::from_loaded(bad, None).is_err());
    let mut bad = payload(2, 2, 64);
    bad.bit_width = 3;
    assert!(TurboQuantIndex::from_loaded(bad, None).is_err());
    let mut packed = payload(2, 2, 0);
    packed.codes = CodePayload::Packed(vec![0; 3]);
    let err = TurboQuantIndex::from_loaded(packed, None).unwrap_err();
    assert!(matches!(
        err,
        LoadError::Parts(FromPartsError::PackedCodesLengthMismatch { expected: 4, got: 3 })
    ));
    assert_eq!(
        err.message(""),
        "packed_codes length 3 != n_vectors * dim * bit_width / 8 = 4"
    );
    let mut packed = payload(2, 2, 0);
    packed.codes = CodePayload::Packed(vec![0; 4]);
    let idx = TurboQuantIndex::from_loaded(packed, None).unwrap();
    assert!(idx.packed_ready());
    // Rows without a declared calibration stand under identity.
    assert_eq!(idx.tqplus_scale(), bits(&[1.0; 8]).as_slice());
    assert_eq!(idx.calibration_state(), CalibrationState::Identity);
}

#[test]
fn codebooks_exist_for_small_widths_and_whole_bytes() {
    assert!(codebook_defined(2, 8) && codebook_defined(4, 1536));
    for (bit_width, dim) in [(1, 8), (5, 8), (4, 0), (4, 4), (4, 12)] {
        assert!(!codebook_defined(bit_width, dim));
    }
}

/// The bytes of a layout with their nibbles exchanged: a stand-in for what the scan
/// kernels of some machine read.
fn exchanged(codes: &[u8]) -> Vec<u8> {
    codes.iter().map(|c| c.rotate_left(4)).collect()
}

#[test]
fn a_native_payload_loads_like_the_sequential_one() {
    let codes: Vec<u8> = (0..64).collect();
    let mut plain = payload(2, 2, 64);
    plain.codes = CodePayload::BlockedSeq(blocked_payload(codes.clone()));
    let native = || {
        let mut parts = payload(2, 2, 64);
        parts.codes = CodePayload::BlockedNative(blocked_payload(exchanged(&codes)));
        parts
    };
    let mut a = TurboQuantIndex::from_loaded(plain, None).unwrap();
    let mut b = TurboQuantIndex::from_loaded(native(), Some(codes.clone())).unwrap();
    assert_eq!(a.blocked_layout(), b.blocked_layout());
    assert_eq!(a.blocked_layout().unwrap().0, codes.as_slice());
    assert_eq!((a.scales(), a.calibration()), (b.scales(), b.calibration()));
    assert!(!b.packed_ready());
    let (sa, sb) = (a.to_stored(None, &None).unwrap(), b.to_stored(None, &None).unwrap());
    assert_eq!(blocked(&sa), blocked(&sb));
    // Without its sequential form there is nothing to hold.
    assert!(matches!(
        TurboQuantIndex::from_loaded(native(), None).unwrap_err(),
        LoadError::Malformed
    ));
    assert!(TurboQuantIndex::from_loaded(native(), Some(vec![0; 63])).is_err());
    let mut short = native();
    short.scales.pop();
    assert!(matches!(
        TurboQuantIndex::from_loaded(short, Some(codes)).unwrap_err(),
        LoadError::ScalesLength { got: 1, n_vectors: 2 }
    ));
    let mut empty = payload(0, 0, 0);
    empty.codes = CodePayload::BlockedNative(blocked_payload(Vec::new()));
    assert!(TurboQuantIndex::from_loaded(empty, None).unwrap().packed_ready());
}

fn fields(stored: &StoredIndex) -> (usize, usize, usize, Vec<u32>, Vec<u32>, Vec<u32>) {
    (
        stored.bit_width,
        stored.dim,
        stored.n_vectors,
        stored.scales.clone(),
        stored.tqplus_shift.clone(),
        stored.tqplus_scale.clone(),
    )
}

fn assert_same_stored(a: &StoredIndex, b: &StoredIndex) {
    assert_eq!(fields(a), fields(b));
    assert_eq!(blocked(a), blocked(b));
}

#[test]
fn caches_do_not_change_what_is_stored() {
    let mut cold = index(40, 0.5, 2.0);
    let mut warm = index(40, 0.5, 2.0);
    assert!(warm.prepare(Some(codebook().centroids), Some(lanes(40))));
    let a = cold.to_stored(Some(codebook()), &Some(lanes(40))).unwrap();
    let b = warm.to_stored(Some(codebook()), &None).unwrap();
    assert_same_stored(&a, &b);
    let shape = cold.stored_shape(2).unwrap();
    assert_eq!(shape.codes_len, blocked(&a).1.len());
    assert_eq!(shape.scales_len, a.scales.len());
    assert_eq!(shape.calibration_len, a.tqplus_shift.len());
    // So it is after a removal, and for what is read back and then shrunk.
    let mut back = TurboQuantIndex::from_loaded(b, None).unwrap();
    for idx in [&mut cold, &mut warm, &mut back] {
        idx.swap_remove(3);
    }
    let mut rest = lanes(40);
    rest.bytes.swap(6, 78);
    rest.bytes.swap(7, 79);
    rest.bytes.truncate(78);
    let a = cold.to_stored(None, &Some(rest)).unwrap();
    let b = warm.to_stored(None, &None).unwrap();
    let c = back.to_stored(None, &None).unwrap();
    assert_same_stored(&a, &b);
    assert_same_stored(&a, &c);
    // And for an index rebuilt from its parts.
    let mut again = TurboQuantIndex::from_parts(
        cold.dim_opt(),
        cold.bit_width(),
        cold.len(),
        cold.packed_codes().unwrap().to_vec(),
        cold.scales().to_vec(),
        cold.tqplus_shift().to_vec(),
        cold.tqplus_scale().to_vec(),
    )
    .unwrap();
    let lanes = LaneRows { groups: 2, bytes: again.packed_codes().unwrap().to_vec() };
    let d = again.to_stored(Some(codebook()), &Some(lanes)).unwrap();
    assert_same_stored(&a, &d);
}

#[test]
fn appending_to_what_was_read_back_is_appending_to_the_index() {
    let mut idx = index(33, 0.5, 2.0);
    let stored = idx.to_stored(Some(codebook()), &Some(lanes(33))).unwrap();
    let mut back = TurboQuantIndex::from_loaded(stored, None).unwrap();
    let vectors = bits(&[0.5; 16]);
    for target in [&mut idx, &mut back] {
        let rows = EncodedRows {
            codes: vec![33, 133, 34, 134],
            scales: bits(&[33.0, 34.0]),
            shift: Vec::new(),
            scale: Vec::new(),
        };
        let lanes = target.rows_for_lanes(&rows.codes).unwrap_or_default();
        let work = AddWork {
            codebook: None,
            run: EncodeRun::Single(EncodeEvent::Encoded(rows, lanes)),
        };
        assert!(target.add(&vectors, work));
    }
    assert!(!back.packed_ready());
    assert_eq!(idx.scales(), back.scales());
    let a = idx.to_stored(None, &Some(lanes(35))).unwrap();
    let b = back.to_stored(None, &None).unwrap();
    assert_same_stored(&a, &b);
    assert!(back.packed(Some(lanes(35).bytes)));
    assert_eq!(idx.packed_codes(), back.packed_codes());
}
