//! The positional index: its state, and every operation on it.
use crate::blocked::{
    append_lanes, block_bytes, blocked_len, blocked_len_for, blocks, blocks_for, lanes_appended,
    lemma_blocked_len_monotone, swap_remove_lane, BLOCK,
};
use crate::calibration::{view_opt, TQPLUS_MIN_SAMPLES};
use crate::error::AddError;
use crate::model::{
    good_pair, good_scales, lemma_added_wf, lemma_appended_stores_wf, lemma_lazy_rollback,
    lemma_seeded_wf, lemma_swap_removed_wf, levels, packed_row_bytes, valid_bit_width, valid_dim,
    BlockedView, IndexView,
};
use crate::rows::swap_remove_row;
use crate::validate::{
    bad_calibration_scale, bad_shift, bad_vector_scale, first_bad_calibration_scale,
    first_bad_shift, first_bad_vector_scale, first_invalid_coord, invalid_coord,
    lemma_first_where,
};
use crate::work::{AddPlan, AddWork, Codebook, EncodeEvent, EncodeRun, EncodedRows};
use crate::MAX_DIM;
use vstd::prelude::*;

verus! {

/// The rows in the blocked layout, as a file stores it.
#[derive(Debug)]
pub(crate) struct BlockedCache {
    pub(crate) data: Vec<u8>,
    pub(crate) groups: usize,
    pub(crate) n_blocks: usize,
}

/// Positional index of vectors compressed to a few bits per coordinate.
///
/// A vector is known by its slot, `0..len`. Slots are not stable: a removal
/// moves the last vector into the vacated one.
#[derive(Debug)]
pub struct TurboQuantIndex {
    pub(crate) dim: Option<usize>,
    pub(crate) bit_width: usize,
    pub(crate) n_vectors: usize,
    pub(crate) packed_codes: Option<Vec<u8>>,
    pub(crate) scales: Vec<u32>,
    pub(crate) tqplus_shift: Vec<u32>,
    pub(crate) tqplus_scale: Vec<u32>,
    pub(crate) warmup: Option<Vec<u32>>,
    pub(crate) rotation: Option<usize>,
    pub(crate) boundaries: Option<Vec<u32>>,
    pub(crate) centroids: Option<Vec<u32>>,
    pub(crate) blocked: Option<BlockedCache>,
    pub(crate) encode_scratch_prev: usize,
}

impl TurboQuantIndex {
    /// The state of the index.
    pub open(crate) spec fn view(&self) -> IndexView {
        IndexView {
            dim: self.dim,
            bit_width: self.bit_width,
            n: self.n_vectors as int,
            packed: view_opt(self.packed_codes),
            blocked: match self.blocked {
                Some(b) => Some(b@),
                None => None,
            },
            scales: self.scales@,
            shift: self.tqplus_shift@,
            scale: self.tqplus_scale@,
            warmup: view_opt(self.warmup),
            rotation: self.rotation,
            boundaries: view_opt(self.boundaries),
            centroids: view_opt(self.centroids),
            scratch_demand: self.encode_scratch_prev as int,
        }
    }

    /// The stored state is one an index can be in.
    pub open spec fn wf(&self) -> bool {
        self@.wf()
    }
}

/// Bytes of one packed row.
pub(crate) fn row_bytes(d: usize, bit_width: usize) -> (r: usize)
    requires
        valid_dim(d as int),
        valid_bit_width(bit_width as int),
    ensures
        r == packed_row_bytes(d as int, bit_width as int),
        0 < r <= 8192,
{
    proof {
        assert(d * bit_width <= 65536 && d * bit_width >= 16) by (nonlinear_arith)
            requires
                8 <= d <= 16384,
                2 <= bit_width <= 4,
        ;
    }
    d * bit_width / 8
}

/// Number of reconstruction levels.
pub(crate) fn level_count(bit_width: usize) -> (r: usize)
    requires
        valid_bit_width(bit_width as int),
    ensures
        r == levels(bit_width as int),
{
    if bit_width == 2 {
        4
    } else if bit_width == 3 {
        8
    } else {
        16
    }
}

/// Whether every per-vector scale is one an encoder could have emitted.
pub(crate) fn scales_ok(scales: &[u32]) -> (r: bool)
    ensures
        r == good_scales(scales@),
{
    proof {
        lemma_first_where(scales@, |v: u32| bad_vector_scale(v));
    }
    let found = first_bad_vector_scale(scales);
    if let Some(i) = found {
        assert(bad_vector_scale(scales@[i as int]));
    }
    found.is_none()
}

/// Whether the two halves form a usable calibration.
pub(crate) fn pair_ok(shift: &[u32], scale: &[u32]) -> (r: bool)
    ensures
        r == good_pair(shift@, scale@),
{
    proof {
        lemma_first_where(shift@, |v: u32| bad_shift(v));
        lemma_first_where(scale@, |v: u32| bad_calibration_scale(v));
    }
    let bad_in_shift = first_bad_shift(shift);
    let bad_in_scale = first_bad_calibration_scale(scale);
    if let Some(i) = bad_in_shift {
        assert(bad_shift(shift@[i as int]));
    }
    if let Some(i) = bad_in_scale {
        assert(bad_calibration_scale(scale@[i as int]));
    }
    shift.len() == scale.len() && bad_in_shift.is_none() && bad_in_scale.is_none()
}

impl TurboQuantIndex {
    /// Whether `rows` is what encoding `n` rows has to yield.
    fn rows_fit(&self, d: usize, n: usize, rows: &EncodedRows) -> (r: bool)
        requires
            self@.stores_wf(),
            self@.dim == Some(d),
        ensures
            r == self@.rows_fit(d as int, n as int, *rows),
    {
        let width: usize = row_bytes(d, self.bit_width);
        let have: usize = rows.codes.len();
        let total: usize = match n.checked_mul(width) {
            Some(total) => total,
            None => {
                return false;
            },
        };
        let pair_len: usize = if self.tqplus_shift.len() == 0 {
            d
        } else {
            0
        };
        have == total && rows.scales.len() == n && scales_ok(rows.scales.as_slice())
            && pair_ok(rows.shift.as_slice(), rows.scale.as_slice()) && rows.shift.len() == pair_len
    }

    /// Whether the stores can address `n` more rows.
    fn room(&self, n: usize) -> (r: bool)
        requires
            self@.stores_wf(),
        ensures
            r == self@.room(n as int),
    {
        let total: usize = match self.n_vectors.checked_add(n) {
            Some(total) => total,
            None => {
                return false;
            },
        };
        match &self.blocked {
            Some(cache) => blocked_len_for(total, cache.groups).is_some(),
            None => true,
        }
    }

    /// Whether only the blocked layout of the stored rows is materialized.
    fn blocked_only(&self) -> (r: bool)
        ensures
            r == self@.blocked_only(),
    {
        self.n_vectors > 0 && self.packed_codes.is_none() && self.blocked.is_some()
    }

    /// The slot from which on an append needs lane rows.
    pub fn lanes_from(&self) -> (r: usize)
        ensures
            r == self@.lanes_from(),
    {
        if self.blocked_only() {
            self.n_vectors
        } else {
            (self.n_vectors / BLOCK) * BLOCK
        }
    }

    /// Whether `lanes` holds the lane rows an append of `n` rows needs.
    fn lanes_fit(&self, n: usize, lanes: &[u8]) -> (r: bool)
        requires
            self@.stores_wf(),
            self@.room(n as int),
        ensures
            r == self@.lanes_fit(n as int, lanes@),
    {
        match &self.blocked {
            Some(cache) => {
                let rows: usize = self.n_vectors + n - self.lanes_from();
                let have: usize = lanes.len();
                match rows.checked_mul(cache.groups) {
                    Some(total) => have == total,
                    None => false,
                }
            },
            None => true,
        }
    }
}

impl BlockedCache {
    pub(crate) open(crate) spec fn view(&self) -> BlockedView {
        BlockedView {
            data: self.data@,
            groups: self.groups as int,
            n_blocks: self.n_blocks as int,
        }
    }

    /// Bring a cache of `old_n` rows to `old_n + n` by replacing everything from
    /// slot `from` on with `lanes`.
    fn patch(&mut self, from: usize, old_n: usize, n: usize, lanes: &[u8])
        requires
            old(self).groups > 0,
            old(self).data@.len() == blocked_len(old_n as int, old(self).groups as int),
            from == old_n || from == (old_n / 32) * 32,
            old_n + n <= usize::MAX,
            blocked_len(old_n + n, old(self).groups as int) <= usize::MAX,
            lanes@.len() == (old_n + n - from) * old(self).groups,
        ensures
            final(self)@ == (BlockedView {
                data: lanes_appended(
                    if from == old_n {
                        old(self).data@
                    } else {
                        old(self).data@.take((old_n as int / 32) * block_bytes(old(self).groups as int))
                    },
                    old(self).groups as int,
                    from as int,
                    lanes@,
                    old_n + n - from,
                ),
                groups: old(self).groups as int,
                n_blocks: blocks(old_n + n),
            }),
    {
        if from != old_n {
            proof {
                lemma_blocked_len_monotone(from as int, old_n as int, self.groups as int);
            }
            let keep: usize = match blocked_len_for(from, self.groups) {
                Some(len) => len,
                None => 0,
            };
            self.data.truncate(keep);
        }
        append_lanes(&mut self.data, self.groups, from, lanes, old_n + n - from);
        self.n_blocks = blocks_for(old_n + n);
    }
}

impl TurboQuantIndex {
    /// Append `n` encoded rows to every store, or leave the rows as they were
    /// when the kernels did not deliver them. Nothing is counted before every
    /// store holds it.
    pub(crate) fn encode_and_append(
        &mut self,
        d: usize,
        n: usize,
        demand: usize,
        event: EncodeEvent,
    ) -> (done: bool)
        requires
            old(self)@.stores_wf(),
            old(self)@.dim == Some(d),
            demand == n * d,
        ensures
            final(self)@ == old(self)@.appended(d as int, n as int, event),
            final(self)@.stores_wf(),
            done == old(self)@.commits(d as int, n as int, event),
    {
        proof {
            lemma_appended_stores_wf(self@, d, n as int, event);
        }
        let blocked_only: bool = self.blocked_only();
        if !blocked_only && self.packed_codes.is_none() {
            self.packed_codes = Some(Vec::new());
        }
        assert(self@ =~= old(self)@.with_packed());
        match event {
            EncodeEvent::Failed => false,
            EncodeEvent::RepackFailed(rows) => {
                if !self.rows_fit(d, n, &rows) || !self.room(n) || blocked_only
                    || self.blocked.is_none() {
                    return false;
                }
                self.encode_scratch_prev = demand;
                false
            },
            EncodeEvent::Encoded(rows, lanes) => {
                if !self.rows_fit(d, n, &rows) || !self.room(n) || !self.lanes_fit(
                    n,
                    lanes.as_slice(),
                ) {
                    return false;
                }
                let from: usize = self.lanes_from();
                let old_n: usize = self.n_vectors;
                let EncodedRows { codes, scales, shift, scale } = rows;
                self.encode_scratch_prev = demand;
                if shift.len() > 0 {
                    self.tqplus_shift = shift;
                    self.tqplus_scale = scale;
                }
                if let Some(cache) = &mut self.blocked {
                    cache.patch(from, old_n, n, lanes.as_slice());
                }
                if let Some(packed) = &mut self.packed_codes {
                    packed.extend_from_slice(codes.as_slice());
                }
                self.scales.extend_from_slice(scales.as_slice());
                self.n_vectors = old_n + n;
                true
            },
        }
    }
}

impl TurboQuantIndex {
    /// What [`Self::add`] of `n_rows` validated rows has to do.
    pub fn plan_add(&self, n_rows: usize) -> (r: AddPlan)
        requires
            self.wf(),
            self@.dim is Some,
        ensures
            r == self@.add_plan(n_rows as int),
    {
        if n_rows == 0 {
            return AddPlan::Nothing;
        }
        match &self.warmup {
            None => AddPlan::Append,
            Some(buffer) => {
                proof {
                    let d = self.dim->0 as int;
                    let n = self.n_vectors as int;
                    assert(n * d == 0 <==> n == 0) by (nonlinear_arith)
                        requires
                            0 < d,
                    ;
                }
                if n_rows < TQPLUS_MIN_SAMPLES - self.n_vectors {
                    AddPlan::Append
                } else if buffer.len() == 0 {
                    AddPlan::FreshFit
                } else {
                    AddPlan::Refit { fit_on_batch: n_rows >= TQPLUS_MIN_SAMPLES }
                }
            },
        }
    }

    /// Whether adding `n_rows` rows runs work that is not proportional to
    /// `n_rows`: exactly when the batch reaches the warm-up threshold.
    pub fn add_parallelizes(&self, n_rows: usize) -> (r: bool)
        requires
            self.wf(),
        ensures
            r == (self@.dim is Some && self@.warmup is Some && self@.n + n_rows
                >= TQPLUS_MIN_SAMPLES),
    {
        self.dim.is_some() && self.warmup.is_some() && n_rows >= TQPLUS_MIN_SAMPLES
            - self.n_vectors
    }

    /// The rows to fit a calibration on when the batch `vectors` reaches the
    /// threshold with rows still buffered.
    pub fn fit_sample(&self, vectors: &[u32]) -> (r: Vec<u32>)
        requires
            self.wf(),
            self@.dim is Some,
            self@.warmup is Some,
        ensures
            r@ == self@.fit_sample(vectors@),
    {
        let mut sample: Vec<u32> = Vec::new();
        if let (Some(d), Some(buffer)) = (self.dim, &self.warmup) {
            if vectors.len() / d < TQPLUS_MIN_SAMPLES {
                sample.extend_from_slice(buffer.as_slice());
            }
        }
        sample.extend_from_slice(vectors);
        assert(sample@ =~= self@.fit_sample(vectors@));
        sample
    }

    /// The packed rows whose lane form an append of rows with these `codes` has to
    /// hand over, or `None` when it needs none.
    pub fn rows_for_lanes(&self, codes: &[u8]) -> (r: Option<Vec<u8>>)
        requires
            self.wf(),
        ensures
            view_opt(r) == self@.rows_for_lanes(codes@),
    {
        if self.blocked.is_none() {
            return None;
        }
        let mut rows: Vec<u8> = Vec::new();
        if let (Some(d), Some(packed)) = (self.dim, &self.packed_codes) {
            let width: usize = row_bytes(d, self.bit_width);
            let from: usize = self.lanes_from();
            assert(packed.len() == packed@.len());
            proof {
                assert(0 <= from * width <= self.n_vectors * width) by (nonlinear_arith)
                    requires
                        0 <= from <= self.n_vectors,
                        0 <= width,
                ;
            }
            rows.extend_from_slice(
                vstd::slice::slice_subrange(packed.as_slice(), from * width, packed.len()),
            );
        }
        rows.extend_from_slice(codes);
        assert(rows@ =~= self@.rows_for_lanes(codes@)->0);
        Some(rows)
    }

    /// The calibration to give the encoder of an add with this plan; `None` when it
    /// settles on one itself, or is given the one that was just fitted.
    pub fn pair_for(&self, plan: AddPlan) -> (r: Option<(&[u32], &[u32])>)
        ensures
            match r {
                Some((shift, scale)) => self@.pair_for(plan) == Some((shift@, scale@)),
                None => self@.pair_for(plan) is None,
            },
    {
        match plan {
            AddPlan::Append => if self.tqplus_shift.len() > 0 {
                Some((self.tqplus_shift.as_slice(), self.tqplus_scale.as_slice()))
            } else {
                None
            },
            _ => None,
        }
    }

    /// Take over a codebook, filling only the halves that are still empty. Returns
    /// whether the index holds a whole one afterwards.
    pub(crate) fn fill_codebook(&mut self, book: Option<Codebook>) -> (r: bool)
        requires
            old(self)@.stores_wf(),
        ensures
            final(self)@ == old(self)@.with_codebook(book),
            r == old(self)@.has_codebook(book),
    {
        if self.boundaries.is_some() && self.centroids.is_some() {
            return true;
        }
        let n_levels: usize = level_count(self.bit_width);
        match book {
            Some(book) => {
                if book.boundaries.len() != n_levels - 1 || book.centroids.len() != n_levels {
                    return false;
                }
                let Codebook { boundaries, centroids } = book;
                if self.boundaries.is_none() {
                    self.boundaries = Some(boundaries);
                }
                if self.centroids.is_none() {
                    self.centroids = Some(centroids);
                }
                true
            },
            None => false,
        }
    }

    /// Take over the caches derived from the dim. Returns whether the index holds
    /// a codebook afterwards.
    fn seed(&mut self, d: usize, book: Option<Codebook>) -> (r: bool)
        requires
            old(self)@.stores_wf(),
            old(self)@.dim == Some(d),
        ensures
            final(self)@ == old(self)@.seeded(d, book),
            r == old(self)@.has_codebook(book),
    {
        let filled: bool = self.fill_codebook(book);
        self.rotation = Some(d);
        filled
    }

    /// Re-encode the buffered rows under a freshly fitted pair and append the
    /// batch behind them, restoring everything when either does not come
    /// through.
    fn refit(
        &mut self,
        d: usize,
        n: usize,
        demand: usize,
        shift: Vec<u32>,
        scale: Vec<u32>,
        buffer: EncodeEvent,
        batch: EncodeEvent,
    ) -> (done: bool)
        requires
            old(self)@.wf(),
            old(self)@.dim == Some(d),
            old(self)@.warmup is Some,
            good_pair(shift@, scale@),
            shift@.len() == d,
            demand == n * d,
        ensures
            ({
                let base = old(self)@.refit_base(shift@, scale@);
                let first = base.appended(d as int, old(self)@.n, buffer);
                let both = base.commits(d as int, old(self)@.n, buffer) && first.commits(
                    d as int,
                    n as int,
                    batch,
                );
                &&& done == both
                &&& final(self)@ == if both {
                    first.appended(d as int, n as int, batch)
                } else if base.commits(d as int, old(self)@.n, buffer) {
                    IndexView { scratch_demand: first.scratch_demand, ..old(self)@ }
                } else {
                    old(self)@
                }
            }),
    {
        let mut old_packed: Option<Vec<u8>> = Some(Vec::new());
        let mut old_blocked: Option<BlockedCache> = None;
        let mut old_scales: Vec<u32> = Vec::new();
        let mut old_shift: Vec<u32> = shift;
        let mut old_scale: Vec<u32> = scale;
        let mut old_warmup: Option<Vec<u32>> = None;
        let old_n: usize = self.n_vectors;
        std::mem::swap(&mut self.packed_codes, &mut old_packed);
        std::mem::swap(&mut self.blocked, &mut old_blocked);
        std::mem::swap(&mut self.scales, &mut old_scales);
        std::mem::swap(&mut self.tqplus_shift, &mut old_shift);
        std::mem::swap(&mut self.tqplus_scale, &mut old_scale);
        std::mem::swap(&mut self.warmup, &mut old_warmup);
        self.n_vectors = 0;
        let ghost base = old(self)@.refit_base(shift@, scale@);
        assert(self@ =~= base);
        let buffered: usize = match &old_warmup {
            Some(rows) => rows.len(),
            None => 0,
        };
        if self.encode_and_append(d, old_n, buffered, buffer) {
            if self.encode_and_append(d, n, demand, batch) {
                return true;
            }
        }
        self.packed_codes = old_packed;
        self.blocked = old_blocked;
        self.scales = old_scales;
        self.tqplus_shift = old_shift;
        self.tqplus_scale = old_scale;
        self.warmup = old_warmup;
        self.n_vectors = old_n;
        false
    }

    /// Add a batch of validated vectors, given what the kernels produced for it.
    /// Returns whether the batch was committed; when it was not, the stored rows
    /// are what they were before.
    pub fn add(&mut self, vectors: &[u32], work: AddWork) -> (committed: bool)
        requires
            old(self).wf(),
            old(self)@.dim is Some,
            vectors@.len() as int % (old(self)@.dim->0 as int) == 0,
            invalid_coord(vectors@, old(self)@.dim->0 as int) is None,
        ensures
            final(self).wf(),
            final(self)@ == old(self)@.added(vectors@, work).0,
            committed == old(self)@.added(vectors@, work).1,
    {
        let d: usize = match self.dim {
            Some(d) => d,
            None => {
                return false;
            },
        };
        let n: usize = vectors.len() / d;
        proof {
            lemma_added_wf(self@, vectors@, work);
            lemma_seeded_wf(self@, d, work.codebook);
            vstd::arithmetic::div_mod::lemma_fundamental_div_mod(
                vectors@.len() as int,
                d as int,
            );
            assert(vectors@.len() == n * d) by (nonlinear_arith)
                requires
                    vectors@.len() == d * n + vectors@.len() as int % d as int,
                    vectors@.len() as int % d as int == 0,
            ;
        }
        let demand: usize = vectors.len();
        let plan = self.plan_add(n);
        if let AddPlan::Nothing = plan {
            return true;
        }
        let AddWork { codebook, run } = work;
        let ready: bool = self.seed(d, codebook);
        match plan {
            AddPlan::Nothing => true,
            AddPlan::Append => {
                let event = match run {
                    EncodeRun::Single(event) => if ready {
                        event
                    } else {
                        EncodeEvent::Failed
                    },
                    _ => EncodeEvent::Failed,
                };
                let done: bool = self.encode_and_append(d, n, demand, event);
                if done {
                    if let Some(buffer) = &mut self.warmup {
                        buffer.extend_from_slice(vectors);
                    }
                }
                done
            },
            AddPlan::FreshFit => {
                let event = match run {
                    EncodeRun::Single(event) => if ready {
                        event
                    } else {
                        EncodeEvent::Failed
                    },
                    _ => EncodeEvent::Failed,
                };
                self.tqplus_shift = Vec::new();
                self.tqplus_scale = Vec::new();
                proof {
                    let n0 = self.n_vectors as int;
                    assert(n0 == 0) by (nonlinear_arith)
                        requires
                            n0 * d == 0,
                            0 < d,
                    ;
                }
                let done: bool = self.encode_and_append(d, n, demand, event);
                if done {
                    self.warmup = None;
                }
                done
            },
            AddPlan::Refit { .. } => match run {
                EncodeRun::Refitted { shift, scale, buffer, batch } => {
                    if ready && pair_ok(shift.as_slice(), scale.as_slice()) && shift.len() == d {
                        self.refit(d, n, demand, shift, scale, buffer, batch)
                    } else {
                        false
                    }
                },
                _ => false,
            },
        }
    }
}

impl TurboQuantIndex {
    /// Check a batch of `dim`-wide rows without touching the index, and say what
    /// adding it has to do.
    pub fn plan_add_2d(&self, vectors: &[u32], dim: usize) -> (r: Result<AddPlan, AddError>)
        requires
            self.wf(),
        ensures
            match self@.add_error(vectors@, dim) {
                Some(e) => r == Err::<AddPlan, AddError>(e),
                None => r == Ok::<AddPlan, AddError>(
                    self@.with_dim(dim).add_plan(vectors@.len() as int / dim as int),
                ),
            },
    {
        match self.dim {
            Some(existing) => {
                if existing != dim {
                    return Err(AddError::DimMismatch { existing, got: dim });
                }
            },
            None => {
                if dim == 0 {
                    return Err(AddError::ZeroDim);
                }
                if dim % 8 != 0 {
                    return Err(AddError::DimNotMultipleOf8(dim));
                }
                if dim > MAX_DIM {
                    return Err(AddError::DimTooLarge { dim, max: MAX_DIM });
                }
            },
        }
        if let Some((vector_index, coord_index, value)) = first_invalid_coord(vectors, dim) {
            return Err(AddError::InvalidInputValue { vector_index, coord_index, value });
        }
        let n: usize = vectors.len() / dim;
        if self.dim.is_some() {
            assert(self@.with_dim(dim) =~= self@);
            return Ok(self.plan_add(n));
        }
        if n == 0 {
            Ok(AddPlan::Nothing)
        } else if n < TQPLUS_MIN_SAMPLES {
            Ok(AddPlan::Append)
        } else {
            Ok(AddPlan::FreshFit)
        }
    }

    /// Add a batch of `dim`-wide rows, given what the kernels produced for it. On
    /// a lazy index this commits the dim. A refused batch changes nothing;
    /// `Ok(false)` means that the kernels did not deliver.
    pub fn add_2d(&mut self, vectors: &[u32], dim: usize, work: AddWork) -> (r: Result<
        bool,
        AddError,
    >)
        requires
            old(self).wf(),
            old(self)@.add_error(vectors@, dim) is None ==> vectors@.len() as int % dim as int
                == 0,
        ensures
            final(self).wf(),
            match old(self)@.add_error(vectors@, dim) {
                Some(e) => r == Err::<bool, AddError>(e) && final(self)@ == old(self)@,
                None => {
                    &&& r == Ok::<bool, AddError>(old(self)@.added_2d(vectors@, dim, work).1)
                    &&& final(self)@ == old(self)@.added_2d(vectors@, dim, work).0
                },
            },
            old(self)@.dim is None && r == Ok::<bool, AddError>(false) ==> final(self)@ == old(
                self,
            )@,
    {
        match self.plan_add_2d(vectors, dim) {
            Err(e) => {
                return Err(e);
            },
            Ok(_) => {},
        }
        if vectors.len() == 0 {
            return Ok(true);
        }
        if self.dim.is_none() {
            proof {
                lemma_lazy_rollback(self@, vectors@, dim, work);
            }
            self.dim = Some(dim);
            assert(self@ =~= old(self)@.with_dim(dim));
            let done: bool = self.add(vectors, work);
            if !done {
                self.dim = None;
                self.rotation = None;
                self.boundaries = None;
                self.centroids = None;
            }
            return Ok(done);
        }
        assert(self@.with_dim(dim) =~= self@);
        Ok(self.add(vectors, work))
    }

    /// Remove the vector at `idx` by moving the last vector into its slot.
    /// Returns the old slot of the vector that moved, which is `idx` itself when
    /// it was the last.
    pub fn swap_remove(&mut self, idx: usize) -> (moved: usize)
        requires
            old(self).wf(),
            idx < old(self)@.n,
        ensures
            final(self).wf(),
            final(self)@ == old(self)@.swap_removed(idx as int),
            moved == old(self)@.n - 1,
    {
        let d: usize = match self.dim {
            Some(d) => d,
            None => 0,
        };
        let n: usize = self.n_vectors;
        let last: usize = n - 1;
        proof {
            lemma_swap_removed_wf(self@, idx as int);
        }
        let width: usize = row_bytes(d, self.bit_width);
        if let Some(packed) = &mut self.packed_codes {
            swap_remove_row(packed, width, n, idx);
        }
        swap_remove_row(&mut self.scales, 1, n, idx);
        self.n_vectors = last;
        if let Some(buffer) = &mut self.warmup {
            swap_remove_row(buffer, d, n, idx);
        }
        if let Some(cache) = &mut self.blocked {
            swap_remove_lane(&mut cache.data, cache.groups, n, idx);
            cache.n_blocks = blocks_for(last);
        }
        last
    }
}

} // verus!
