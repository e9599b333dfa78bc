//! Adding, removing, rolling back, and keeping every store in step.
//!
//! The kernels are stand-ins whose results can be told apart: a packed row repeats
//! a byte that names its vector and the calibration it was encoded under, and a
//! lane row is the packed row in reverse.

use turbovec::calibration::TQPLUS_MIN_SAMPLES;
use turbovec::search::CacheNeeds;
use turbovec::work::{
    AddPlan, AddWork, Codebook, EncodeEvent, EncodeRun, EncodedRows, LaneRows,
};
use turbovec::{AddError, CalibrationState, ConstructError, TurboQuantIndex, MAX_DIM};

const DIM: usize = 8;

fn codebook(bit_width: usize) -> Codebook {
    let levels = 1usize << bit_width;
    Codebook {
        boundaries: (1..levels).map(|i| (i as f32).to_bits()).collect(),
        centroids: (0..levels).map(|i| (i as f32 + 0.5).to_bits()).collect(),
    }
}

/// `n` vectors whose first coordinate counts up from `first`.
fn batch(first: usize, n: usize) -> Vec<u32> {
    let mut out = Vec::new();
    for v in first..first + n {
        out.push((v as f32).to_bits());
        out.extend(vec![1.0f32.to_bits(); DIM - 1]);
    }
    out
}

fn name_of(row: &[u32]) -> u8 {
    f32::from_bits(row[0]) as usize as u8
}

fn packed_row(row: &[u32], width: usize, fitted: bool) -> Vec<u8> {
    let mut out = vec![name_of(row); width];
    out[0] = fitted as u8;
    out
}

fn lane_of(packed: &[u8]) -> Vec<u8> {
    packed.iter().rev().copied().collect()
}

fn width(index: &TurboQuantIndex) -> usize {
    DIM * index.bit_width() / 8
}

fn identity() -> (Vec<u32>, Vec<u32>) {
    (vec![0.0f32.to_bits(); DIM], vec![1.0f32.to_bits(); DIM])
}

fn fitted() -> (Vec<u32>, Vec<u32>) {
    (vec![0.25f32.to_bits(); DIM], vec![1.5f32.to_bits(); DIM])
}

fn encode(
    vectors: &[u32],
    width: usize,
    under_fit: bool,
    pair: (Vec<u32>, Vec<u32>),
) -> EncodedRows {
    EncodedRows {
        codes: vectors
            .chunks(DIM)
            .flat_map(|row| packed_row(row, width, under_fit))
            .collect(),
        scales: vectors.chunks(DIM).map(|row| row[0]).collect(),
        shift: pair.0,
        scale: pair.1,
    }
}

/// The lane rows an append needs, given the codes it encoded.
fn lanes_for(index: &TurboQuantIndex, codes: &[u8]) -> Vec<u8> {
    let w = width(index);
    if index.blocked_layout().is_none() {
        assert_eq!(index.rows_for_lanes(codes), None);
        return Vec::new();
    }
    let mut rows: Vec<u8> = Vec::new();
    if let Some(packed) = index.packed_codes() {
        rows.extend_from_slice(&packed[index.lanes_from() * w..]);
    }
    rows.extend_from_slice(codes);
    assert_eq!(index.rows_for_lanes(codes), Some(rows.clone()));
    rows.chunks(w).flat_map(lane_of).collect()
}

fn is_fitted(index: &TurboQuantIndex) -> bool {
    index.calibration_state() == CalibrationState::Fitted
}

fn single(index: &TurboQuantIndex, vectors: &[u32], plan: AddPlan) -> EncodedRows {
    let none = (Vec::new(), Vec::new());
    let w = width(index);
    if plan == AddPlan::FreshFit {
        encode(vectors, w, true, fitted())
    } else if index.calibration().is_some() {
        encode(vectors, w, is_fitted(index), none)
    } else {
        encode(vectors, w, false, identity())
    }
}

fn work_for(index: &TurboQuantIndex, vectors: &[u32]) -> AddWork {
    let plan = index.plan_add_2d(vectors, DIM).unwrap();
    let w = width(index);
    let run = match plan {
        AddPlan::Refit { .. } => {
            let (shift, scale) = fitted();
            let none = (Vec::new(), Vec::new());
            let buffered = index.warmup_rows().unwrap();
            EncodeRun::Refitted {
                shift,
                scale,
                buffer: EncodeEvent::Encoded(
                    encode(buffered, w, true, none.clone()),
                    Vec::new(),
                ),
                batch: EncodeEvent::Encoded(encode(vectors, w, true, none), Vec::new()),
            }
        }
        _ => {
            let rows = single(index, vectors, plan);
            let lanes = lanes_for(index, &rows.codes);
            EncodeRun::Single(EncodeEvent::Encoded(rows, lanes))
        }
    };
    AddWork { codebook: Some(codebook(index.bit_width())), run }
}

fn add(index: &mut TurboQuantIndex, vectors: &[u32]) {
    let work = work_for(index, vectors);
    assert_eq!(index.add_2d(vectors, DIM, work), Ok(true));
}

fn warm(index: &mut TurboQuantIndex) {
    let w = width(index);
    let bytes = index.packed_codes().unwrap().chunks(w).flat_map(lane_of).collect();
    let book = codebook(index.bit_width());
    assert!(index.prepare(Some(book.centroids), Some(LaneRows { groups: w, bytes })));
}

fn lane(index: &TurboQuantIndex, slot: usize) -> Vec<u8> {
    let (data, groups, _) = index.blocked_layout().unwrap();
    (0..groups)
        .map(|g| data[(slot / 32) * 32 * groups + g * 32 + slot % 32])
        .collect()
}

/// Every store that is there describes the named vectors, in slot order.
fn assert_holds(index: &TurboQuantIndex, names: &[usize], under_fit: bool) {
    let w = width(index);
    assert_eq!(index.len(), names.len());
    assert_eq!(index.is_empty(), names.is_empty());
    for (slot, name) in names.iter().enumerate() {
        let row = &batch(*name, 1);
        assert_eq!(f32::from_bits(index.scales()[slot]), *name as f32);
        let packed = packed_row(row, w, under_fit);
        if let Some(codes) = index.packed_codes() {
            assert_eq!(&codes[slot * w..(slot + 1) * w], packed.as_slice());
        }
        if index.blocked_layout().is_some() {
            assert_eq!(lane(index, slot), lane_of(&packed));
        }
        if let Some(rows) = index.warmup_rows() {
            assert_eq!(&rows[slot * DIM..(slot + 1) * DIM], row.as_slice());
        }
    }
    if let Some(codes) = index.packed_codes() {
        assert_eq!(codes.len(), names.len() * w);
    }
    if let Some(rows) = index.warmup_rows() {
        assert_eq!(rows.len(), names.len() * DIM);
    }
    if let Some((data, groups, n_blocks)) = index.blocked_layout() {
        assert_eq!(n_blocks, names.len().div_ceil(32));
        assert_eq!(data.len(), n_blocks * 32 * groups);
        for slot in names.len()..n_blocks * 32 {
            assert_eq!(lane(index, slot), vec![0u8; groups]);
        }
    }
}

#[test]
fn constructors_check_their_arguments() {
    assert_eq!(
        TurboQuantIndex::new(8, 1).unwrap_err(),
        ConstructError::BitWidthOutOfRange(1)
    );
    assert_eq!(
        TurboQuantIndex::new(0, 4).unwrap_err(),
        ConstructError::DimNotPositiveMultipleOf8(0)
    );
    assert_eq!(
        TurboQuantIndex::new(12, 4).unwrap_err(),
        ConstructError::DimNotPositiveMultipleOf8(12)
    );
    assert_eq!(
        TurboQuantIndex::new(MAX_DIM + 8, 4).unwrap_err(),
        ConstructError::DimTooLarge { dim: MAX_DIM + 8, max: MAX_DIM }
    );
    assert_eq!(
        TurboQuantIndex::new_lazy(5).unwrap_err(),
        ConstructError::BitWidthOutOfRange(5)
    );
    let index = TurboQuantIndex::new(MAX_DIM, 2).unwrap();
    assert_eq!((index.dim(), index.bit_width(), index.len()), (MAX_DIM, 2, 0));
    assert_eq!(index.calibration_state(), CalibrationState::WarmingUp);
    assert!(index.packed_ready());
    let lazy = TurboQuantIndex::new_lazy(3).unwrap();
    assert_eq!((lazy.dim(), lazy.dim_opt()), (0, None));
}

#[test]
fn adds_and_removals_keep_every_store_in_step() {
    for bit_width in [2, 3, 4] {
        let mut index = TurboQuantIndex::new(DIM, bit_width).unwrap();
        add(&mut index, &batch(1, 40));
        let mut names: Vec<usize> = (1..41).collect();
        assert_holds(&index, &names, false);
        warm(&mut index);
        assert_holds(&index, &names, false);
        // Appends patch the warm cache from the partial block on.
        add(&mut index, &batch(41, 30));
        names.extend(41..71);
        assert_holds(&index, &names, false);
        // Removals move the last row, in the middle, at the end, across a block.
        for slot in [0, 33, 67, 64, 63, 31] {
            assert_eq!(index.swap_remove(slot), names.len() - 1);
            names.swap_remove(slot);
            assert_holds(&index, &names, false);
        }
        add(&mut index, &batch(100, 3));
        names.extend(100..103);
        assert_holds(&index, &names, false);
        while !names.is_empty() {
            index.swap_remove(names.len() / 2);
            names.swap_remove(names.len() / 2);
            assert_holds(&index, &names, false);
        }
        assert_eq!(index.calibration_state(), CalibrationState::WarmingUp);
        add(&mut index, &batch(7, 1));
        assert_holds(&index, &[7], false);
    }
}

#[test]
fn a_dim_is_checked_then_the_values() {
    let mut index = TurboQuantIndex::new_lazy(4).unwrap();
    let work = || AddWork { codebook: None, run: EncodeRun::FitFailed };
    assert_eq!(index.add_2d(&[], 0, work()), Err(AddError::ZeroDim));
    assert_eq!(index.add_2d(&[], 12, work()), Err(AddError::DimNotMultipleOf8(12)));
    assert_eq!(
        index.add_2d(&[], MAX_DIM + 8, work()),
        Err(AddError::DimTooLarge { dim: MAX_DIM + 8, max: MAX_DIM })
    );
    let mut bad = batch(1, 3);
    bad[2 * DIM + 5] = 1e16f32.to_bits();
    assert_eq!(
        index.add_2d(&bad, DIM, work()),
        Err(AddError::InvalidInputValue {
            vector_index: 2,
            coord_index: 5,
            value: 1e16f32.to_bits()
        })
    );
    // An empty batch commits nothing.
    assert_eq!(index.add_2d(&[], DIM, work()), Ok(true));
    assert_eq!(index.dim_opt(), None);
    assert_eq!(index.len(), 0);
    add(&mut index, &batch(1, 2));
    assert_eq!(index.dim_opt(), Some(DIM));
    assert_eq!(
        index.add_2d(&[], 16, work()),
        Err(AddError::DimMismatch { existing: DIM, got: 16 })
    );
    assert_eq!(index.add_2d(&[], DIM, work()), Ok(true));
    assert_holds(&index, &[1, 2], false);
}

#[test]
fn a_failed_first_batch_leaves_a_lazy_index_lazy() {
    let mut index = TurboQuantIndex::new_lazy(2).unwrap();
    let work = AddWork {
        codebook: Some(codebook(2)),
        run: EncodeRun::Single(EncodeEvent::Failed),
    };
    assert_eq!(index.add_2d(&batch(1, 5), DIM, work), Ok(false));
    assert_eq!(index.dim_opt(), None);
    assert_eq!(index.cached_codebook(), (None, None));
    assert!(index.calibration().is_none());
    // A different dim is a fresh start.
    let wide = vec![1.0f32.to_bits(); 16];
    let rows = EncodedRows {
        codes: vec![9; 4],
        scales: vec![1.0f32.to_bits()],
        shift: vec![0; 16],
        scale: vec![1.0f32.to_bits(); 16],
    };
    let work = AddWork {
        codebook: Some(codebook(2)),
        run: EncodeRun::Single(EncodeEvent::Encoded(rows, Vec::new())),
    };
    assert_eq!(index.add_2d(&wide, 16, work), Ok(true));
    assert_eq!(index.dim_opt(), Some(16));
}

#[test]
fn a_failed_batch_rolls_back() {
    let mut index = TurboQuantIndex::new(DIM, 4).unwrap();
    add(&mut index, &batch(1, 35));
    warm(&mut index);
    let names: Vec<usize> = (1..36).collect();
    let more = batch(50, 4);
    let demand = index.scratch_demand();

    for event in [EncodeEvent::Failed, {
        let mut rows = single(&index, &more, AddPlan::Append);
        rows.codes.pop();
        EncodeEvent::Encoded(rows, Vec::new())
    }] {
        let work = AddWork { codebook: None, run: EncodeRun::Single(event) };
        assert!(!index.add(&more, work));
        assert_holds(&index, &names, false);
        assert_eq!(index.scratch_demand(), demand);
    }
    // The rows came through but the cache could not be patched.
    let rows = single(&index, &more, AddPlan::Append);
    let work = AddWork {
        codebook: None,
        run: EncodeRun::Single(EncodeEvent::RepackFailed(rows)),
    };
    assert!(!index.add(&more, work));
    assert_holds(&index, &names, false);
    assert_eq!(index.scratch_demand(), more.len());
    // The next add lands in the same slots the failed ones aimed at.
    add(&mut index, &more);
    let mut all = names;
    all.extend(50..54);
    assert_holds(&index, &all, false);
}

#[test]
fn the_threshold_refits_and_keeps_slot_order() {
    let mut index = TurboQuantIndex::new(DIM, 4).unwrap();
    add(&mut index, &batch(1, 600));
    warm(&mut index);
    assert_eq!(index.calibration_state(), CalibrationState::WarmingUp);
    assert_eq!(index.calibration(), Some((&identity().0[..], &identity().1[..])));
    index.swap_remove(0);
    let mut names: Vec<usize> = (1..601).collect();
    names.swap_remove(0);
    assert!(!index.add_parallelizes(400));
    assert!(index.add_parallelizes(401));
    assert_eq!(index.plan_add(400), AddPlan::Append);
    assert_eq!(index.plan_add(401), AddPlan::Refit { fit_on_batch: false });
    assert_eq!(
        index.plan_add(TQPLUS_MIN_SAMPLES),
        AddPlan::Refit { fit_on_batch: true }
    );

    // The fit sample is the buffer and the batch, or a large batch alone.
    let more = batch(1001, 401);
    let sample = index.fit_sample(&more);
    assert_eq!(sample.len(), 1000 * DIM);
    assert_eq!(&sample[..DIM], &batch(600, 1)[..]);
    assert_eq!(&sample[599 * DIM..600 * DIM], &batch(1001, 1)[..]);
    let large = batch(1, 1000);
    assert_eq!(index.fit_sample(&large), large);

    // A failed fit, and a failed re-encode, leave the index warming up as it was.
    let work = AddWork { codebook: None, run: EncodeRun::FitFailed };
    assert!(!index.add(&more, work));
    assert_holds(&index, &names, false);
    let mut work = work_for(&index, &more);
    if let EncodeRun::Refitted { batch, .. } = &mut work.run {
        *batch = EncodeEvent::Failed;
    }
    assert!(!index.add(&more, work));
    assert_holds(&index, &names, false);
    assert_eq!(index.calibration_state(), CalibrationState::WarmingUp);
    assert_eq!(index.calibration(), Some((&identity().0[..], &identity().1[..])));
    assert!(index.blocked_layout().is_some());
    assert_eq!(index.scratch_demand(), 599 * DIM);

    add(&mut index, &more);
    names.extend(1001..1402);
    assert_holds(&index, &names, true);
    assert_eq!(index.calibration_state(), CalibrationState::Fitted);
    assert_eq!(index.calibration(), Some((&fitted().0[..], &fitted().1[..])));
    assert!(index.warmup_rows().is_none());
    assert!(index.blocked_layout().is_none());
    assert_eq!(index.plan_add(5000), AddPlan::Append);
    assert!(!index.add_parallelizes(5000));

    // Draining keeps the fit.
    while index.len() > 0 {
        index.swap_remove(0);
    }
    assert_eq!(index.calibration_state(), CalibrationState::Fitted);
    add(&mut index, &batch(3, 1));
    assert_holds(&index, &[3], true);
}

#[test]
fn a_drained_index_can_still_be_fitted() {
    let mut index = TurboQuantIndex::new(DIM, 3).unwrap();
    add(&mut index, &batch(1, 2));
    index.swap_remove(0);
    index.swap_remove(0);
    // The identity of the rows that are gone is still committed.
    assert!(index.calibration().is_some());
    assert_eq!(index.plan_add(1000), AddPlan::FreshFit);
    assert_eq!(index.pair_for(AddPlan::FreshFit), None);
    assert_eq!(index.pair_for(AddPlan::Append), index.calibration());
    // A failure forgets it and goes on warming up.
    let work = AddWork { codebook: None, run: EncodeRun::Single(EncodeEvent::Failed) };
    assert!(!index.add(&batch(1, 1000), work));
    assert!(index.calibration().is_none());
    assert_eq!(index.calibration_state(), CalibrationState::WarmingUp);
    add(&mut index, &batch(1, 1000));
    assert_eq!(index.calibration_state(), CalibrationState::Fitted);
    assert_holds(&index, &(1..1001).collect::<Vec<_>>(), true);
}

#[test]
fn a_failed_repack_keeps_no_fitted_pair() {
    let mut index = TurboQuantIndex::new(DIM, 4).unwrap();
    add(&mut index, &batch(1, 3));
    warm(&mut index);
    for _ in 0..3 {
        index.swap_remove(0);
    }
    assert!(index.blocked_layout().is_some());
    let large = batch(1, 1000);
    let rows = single(&index, &large, AddPlan::FreshFit);
    assert_eq!(rows.shift, fitted().0);
    let work = AddWork {
        codebook: None,
        run: EncodeRun::Single(EncodeEvent::RepackFailed(rows)),
    };
    assert!(!index.add(&large, work));
    assert!(index.is_empty());
    assert!(index.calibration().is_none());
    assert_eq!(index.calibration_state(), CalibrationState::WarmingUp);
    assert_eq!(index.scratch_demand(), large.len());

    // What was stored of it warms up as well.
    let stored = index.to_stored(None, &None).unwrap();
    let back = TurboQuantIndex::from_loaded(stored, None).unwrap();
    assert_eq!(back.calibration_state(), CalibrationState::WarmingUp);

    // Small batches go back to identity, and the next large one is fitted.
    add(&mut index, &batch(1, 2));
    assert_eq!(index.calibration(), Some((&identity().0[..], &identity().1[..])));
    assert_holds(&index, &[1, 2], false);
    index.swap_remove(0);
    index.swap_remove(0);
    add(&mut index, &large);
    assert_eq!(index.calibration_state(), CalibrationState::Fitted);
    assert_holds(&index, &(1..1001).collect::<Vec<_>>(), true);
}

#[test]
fn a_codebook_is_taken_once_and_only_when_it_fits() {
    let mut index = TurboQuantIndex::new(DIM, 2).unwrap();
    let vectors = batch(1, 1);
    let rows = || single(&TurboQuantIndex::new(DIM, 2).unwrap(), &batch(1, 1), AddPlan::Append);
    // Without a codebook, or with one of the wrong size, nothing is encoded.
    for book in [None, Some(codebook(3))] {
        let work = AddWork {
            codebook: book,
            run: EncodeRun::Single(EncodeEvent::Encoded(rows(), Vec::new())),
        };
        assert!(!index.add(&vectors, work));
        assert_eq!(index.len(), 0);
    }
    add(&mut index, &vectors);
    let (boundaries, centroids) = index.cached_codebook();
    assert_eq!(boundaries, Some(codebook(2).boundaries.as_slice()));
    assert_eq!(centroids, Some(codebook(2).centroids.as_slice()));
    // A later one does not replace it.
    let work = AddWork {
        codebook: Some(Codebook { boundaries: vec![0; 3], centroids: vec![0; 4] }),
        run: EncodeRun::Single(EncodeEvent::Failed),
    };
    assert!(!index.add(&vectors, work));
    assert_eq!(index.cached_codebook().0, Some(codebook(2).boundaries.as_slice()));
}

#[test]
fn a_scan_prepares_what_is_missing() {
    let mut index = TurboQuantIndex::new(DIM, 4).unwrap();
    let nothing = CacheNeeds { rotation: false, centroids: false, lanes: false };
    assert_eq!(index.cache_needs(), nothing);
    assert!(index.prepare(None, None));
    add(&mut index, &batch(1, 3));
    // The add built the rotation and the codebook.
    assert_eq!(index.cache_needs(), CacheNeeds { lanes: true, ..nothing });
    assert!(!index.prepare(None, None));
    let short = LaneRows { groups: 4, bytes: vec![0; 11] };
    assert!(!index.prepare(None, Some(short)));
    assert!(index.blocked_layout().is_none());
    warm(&mut index);
    assert_eq!(index.cache_needs(), nothing);
    assert_holds(&index, &[1, 2, 3], false);
}

#[test]
fn batches_add_up_under_a_committed_calibration() {
    let (shift, scale) = fitted();
    for warm_first in [false, true] {
        let mut split = TurboQuantIndex::new_with_calibration(DIM, 4, &shift, &scale).unwrap();
        let mut whole = TurboQuantIndex::new_with_calibration(DIM, 4, &shift, &scale).unwrap();
        if warm_first {
            for index in [&mut split, &mut whole] {
                add(index, &batch(1, 5));
                warm(index);
            }
        }
        add(&mut split, &batch(10, 30));
        add(&mut split, &batch(40, 9));
        add(&mut whole, &batch(10, 39));
        assert_eq!(split.packed_codes(), whole.packed_codes());
        assert_eq!(split.blocked_layout(), whole.blocked_layout());
        assert_eq!(split.scales(), whole.scales());
        assert_eq!(split.calibration(), whole.calibration());
    }
}

#[test]
fn a_crossing_is_as_if_seeded() {
    let mut index = TurboQuantIndex::new(DIM, 4).unwrap();
    add(&mut index, &batch(1, 300));
    index.swap_remove(7);
    let mut rows = index.warmup_rows().unwrap().to_vec();
    let more = batch(500, 800);
    rows.extend_from_slice(&more);
    add(&mut index, &more);
    let (shift, scale) = index.calibration().unwrap();
    let mut seeded = TurboQuantIndex::new_with_calibration(DIM, 4, shift, scale).unwrap();
    add(&mut seeded, &rows);
    assert_eq!(seeded.packed_codes(), index.packed_codes());
    assert_eq!(seeded.scales(), index.scales());
    assert_eq!(seeded.calibration_state(), index.calibration_state());
}

#[test]
fn a_drained_index_ends_like_a_fresh_one() {
    let mut drained = TurboQuantIndex::new(DIM, 2).unwrap();
    add(&mut drained, &batch(1, 2));
    drained.swap_remove(1);
    drained.swap_remove(0);
    let mut fresh = TurboQuantIndex::new(DIM, 2).unwrap();
    for index in [&mut drained, &mut fresh] {
        add(index, &batch(5, 1000));
    }
    assert_eq!(drained.packed_codes(), fresh.packed_codes());
    assert_eq!(drained.scales(), fresh.scales());
    assert_eq!(drained.calibration(), fresh.calibration());
    assert_eq!(drained.calibration_state(), fresh.calibration_state());
    assert_eq!(drained.blocked_layout(), fresh.blocked_layout());
}

#[test]
fn a_removed_row_leaves_no_trace() {
    let (shift, scale) = fitted();
    let mut rows: Vec<usize> = (1..41).collect();
    let mut all = TurboQuantIndex::new_with_calibration(DIM, 3, &shift, &scale).unwrap();
    add(&mut all, &batch(1, 40));
    warm(&mut all);
    all.swap_remove(3);
    rows.swap_remove(3);
    let mut rest = TurboQuantIndex::new_with_calibration(DIM, 3, &shift, &scale).unwrap();
    let raw: Vec<u32> = rows.iter().flat_map(|name| batch(*name, 1)).collect();
    add(&mut rest, &raw);
    warm(&mut rest);
    assert_eq!(all.packed_codes(), rest.packed_codes());
    assert_eq!(all.blocked_layout(), rest.blocked_layout());
    assert_eq!(all.scales(), rest.scales());
}

#[test]
fn the_first_batch_of_a_lazy_index_commits_its_dim() {
    let mut lazy = TurboQuantIndex::new_lazy(4).unwrap();
    let mut eager = TurboQuantIndex::new(DIM, 4).unwrap();
    for index in [&mut lazy, &mut eager] {
        add(index, &batch(1, 7));
    }
    assert_eq!(lazy.dim_opt(), eager.dim_opt());
    assert_eq!(lazy.packed_codes(), eager.packed_codes());
    assert_eq!(lazy.scales(), eager.scales());
    assert_eq!(lazy.calibration(), eager.calibration());
    assert_eq!(lazy.calibration_state(), eager.calibration_state());
    assert_eq!(lazy.cached_codebook(), eager.cached_codebook());
}
