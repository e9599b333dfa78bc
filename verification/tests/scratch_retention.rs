//! How much of a reused scratch buffer is kept between adds.
//!
//! The scratch belongs to the encoder; these drive the real `add_2d` path, which
//! records the demand, and the retention rule beside it.

use turbovec::scratch::retain_scratch;
use turbovec::work::{AddPlan, AddWork, Codebook, EncodeEvent, EncodeRun, EncodedRows};
use turbovec::TurboQuantIndex;

const DIM: usize = 256;

struct Ingest {
    index: TurboQuantIndex,
    scratch: Vec<f32>,
}

fn rows(n: usize, dim: usize) -> Vec<u32> {
    (0..n * dim)
        .map(|i| (((i % 97) as f32 / 97.0) - 0.5).to_bits())
        .collect()
}

impl Ingest {
    fn new() -> Ingest {
        Ingest { index: TurboQuantIndex::new(DIM, 4).unwrap(), scratch: Vec::new() }
    }

    /// Add a batch the way an encoder runs: the scratch grows to the whole
    /// rotated batch, and is then cut back by the retention rule.
    fn add_2d(&mut self, batch: &[u32]) {
        let n = batch.len() / DIM;
        assert_ne!(self.index.plan_add_2d(batch, DIM).unwrap(), AddPlan::Nothing);
        let pair_len = if self.index.calibration().is_none() { DIM } else { 0 };
        let encoded = EncodedRows {
            codes: vec![0u8; n * DIM / 2],
            scales: vec![1.0f32.to_bits(); n],
            shift: vec![0.25f32.to_bits(); pair_len],
            scale: vec![1.5f32.to_bits(); pair_len],
        };
        self.scratch.resize(batch.len(), 0.0);
        let before = self.index.scratch_demand();
        let work = AddWork {
            codebook: Some(Codebook { boundaries: vec![0; 15], centroids: vec![0; 16] }),
            run: EncodeRun::Single(EncodeEvent::Encoded(encoded, Vec::new())),
        };
        assert_eq!(self.index.add_2d(batch, DIM, work), Ok(true));
        let demand = retain_scratch(&mut self.scratch, before, batch.len());
        assert_eq!(demand, self.index.scratch_demand());
    }
}

#[test]
fn one_shot_bulk_add_releases_the_encode_scratch() {
    let n = 24_000;
    let mut idx = Ingest::new();
    idx.add_2d(&rows(n, DIM));
    assert_eq!(idx.index.len(), n);
    assert!(
        idx.scratch.capacity() < n * DIM / 4,
        "one-shot bulk add retained {} scratch elements (batch was {})",
        idx.scratch.capacity(),
        n * DIM,
    );
}

#[test]
fn repeated_same_size_adds_keep_the_scratch_warm() {
    let n = 24_000;
    let batch = rows(n, DIM);
    let mut idx = Ingest::new();
    for _ in 0..3 {
        idx.add_2d(&batch);
    }
    assert_eq!(idx.index.len(), 3 * n);
    assert!(
        idx.scratch.capacity() >= n * DIM,
        "steady same-size adds dropped the warm scratch to {} elements (need {})",
        idx.scratch.capacity(),
        n * DIM,
    );
}

#[test]
fn growing_batch_sizes_keep_their_growth_headroom() {
    let mut idx = Ingest::new();
    let mut n = 8_000;
    let mut last = 0;
    for _ in 0..6 {
        idx.add_2d(&rows(n, DIM));
        last = n;
        n += n / 20; // +5% per batch
    }
    assert!(
        idx.scratch.capacity() >= last * DIM,
        "a growing batch size left only {} scratch elements after a \
         {}-element add, so the next add must grow and be shrunk again",
        idx.scratch.capacity(),
        last * DIM,
    );
}

#[test]
fn jittering_batch_sizes_keep_their_growth_headroom() {
    let mut idx = Ingest::new();
    let sizes = [9_000, 11_000, 9_500, 10_800, 9_200, 10_400];
    for n in sizes {
        idx.add_2d(&rows(n, DIM));
    }
    let biggest_recent = 10_400;
    assert!(
        idx.scratch.capacity() >= biggest_recent * DIM,
        "a jittering batch size left only {} scratch elements, below \
         the {} the last add needed",
        idx.scratch.capacity(),
        biggest_recent * DIM,
    );
}

#[test]
fn a_step_up_in_batch_size_is_not_shrunk_back() {
    let small = 6_000;
    let big = 3 * small;
    let mut idx = Ingest::new();
    idx.add_2d(&rows(small, DIM));
    idx.add_2d(&rows(big, DIM));
    assert!(
        idx.scratch.capacity() >= big * DIM,
        "a {small}->{big} step left only {} scratch elements, below the \
         {} the larger batch needed",
        idx.scratch.capacity(),
        big * DIM,
    );
}

#[test]
fn a_one_off_spike_does_not_stay_pinned() {
    let n = 6_000;
    let mut idx = Ingest::new();
    idx.add_2d(&rows(n, DIM));
    idx.add_2d(&rows(4 * n, DIM));
    idx.add_2d(&rows(n, DIM));
    assert!(
        idx.scratch.capacity() < 4 * n * DIM,
        "a 4x spike left {} scratch elements pinned after the batch \
         size dropped back to {}",
        idx.scratch.capacity(),
        n * DIM,
    );
}

#[test]
fn retain_scratch_truncates_before_shrinking() {
    let big = 8 << 20;
    let mut scratch: Vec<f32> = vec![0.0; big];
    let prev = retain_scratch(&mut scratch, 0, big);
    assert_eq!(prev, big, "returns this call's demand");
    assert_eq!(
        scratch.capacity(),
        0,
        "a buffer no recent add needed was not released",
    );
}

#[test]
fn the_contents_of_a_kept_buffer_stay() {
    let mut scratch: Vec<u8> = vec![1, 2, 3, 4];
    assert_eq!(retain_scratch(&mut scratch, 4, 9), 9);
    assert_eq!(scratch, [1, 2, 3, 4]);
    let mut long: Vec<u8> = vec![7; 1000];
    assert_eq!(retain_scratch(&mut long, 10, 1), 1);
    assert_eq!(long, [7u8; 15]);
}
