//! The abstract state of an index and what each operation does to it.
use crate::blocked::{block_bytes, blocked_len, blocks, lanes_appended, lanes_swap_removed};
use crate::calibration::{state_of, CalibrationState, TQPLUS_MIN_SAMPLES};
use crate::error::AddError;
use crate::rows::swap_removed;
use crate::validate::{bad_calibration_scale, bad_shift, bad_vector_scale, invalid_coord};
use crate::work::{AddPlan, AddWork, Codebook, EncodeEvent, EncodeRun, EncodedRows};
use crate::MAX_DIM;
use vstd::prelude::*;

verus! {

/// The blocked cache.
#[verifier::ext_equal]
pub struct BlockedView {
    /// The blocked buffer.
    pub data: Seq<u8>,
    /// Bytes per slot.
    pub groups: int,
    /// Number of blocks in `data`.
    pub n_blocks: int,
}

/// The state of an index.
#[verifier::ext_equal]
pub struct IndexView {
    /// Vector dimensionality, once committed.
    pub dim: Option<usize>,
    /// Bits per coordinate.
    pub bit_width: usize,
    /// Number of stored vectors.
    pub n: int,
    /// Bit-plane packed rows, when materialized.
    pub packed: Option<Seq<u8>>,
    /// Blocked layout of the same rows, when materialized.
    pub blocked: Option<BlockedView>,
    /// One scale per row.
    pub scales: Seq<u32>,
    /// Calibration shift, empty or one entry per coordinate.
    pub shift: Seq<u32>,
    /// Calibration scale, alike.
    pub scale: Seq<u32>,
    /// Raw rows still buffered for a first fit; absent once that is over.
    pub warmup: Option<Seq<u32>>,
    /// The dim for which the rotation has been built.
    pub rotation: Option<usize>,
    /// Cached cell boundaries.
    pub boundaries: Option<Seq<u32>>,
    /// Cached reconstruction levels.
    pub centroids: Option<Seq<u32>>,
    /// Elements the latest encode asked of its scratch buffer.
    pub scratch_demand: int,
}

/// A dim that an index can be committed to.
pub open spec fn valid_dim(d: int) -> bool {
    0 < d <= MAX_DIM && d % 8 == 0
}

/// A supported number of bits per coordinate.
pub open spec fn valid_bit_width(bit_width: int) -> bool {
    2 <= bit_width <= 4
}

/// Number of reconstruction levels.
pub open spec fn levels(bit_width: int) -> int {
    if bit_width == 2 {
        4
    } else if bit_width == 3 {
        8
    } else {
        16
    }
}

/// Bytes of one packed row.
pub open spec fn packed_row_bytes(d: int, bit_width: int) -> int {
    d * bit_width / 8
}

/// No per-vector scale is one the encoder could not have emitted.
pub open spec fn good_scales(scales: Seq<u32>) -> bool {
    forall|i: int| 0 <= i < scales.len() ==> !bad_vector_scale(#[trigger] scales[i])
}

/// A calibration pair whose halves agree in length and hold usable numbers.
pub open spec fn good_pair(shift: Seq<u32>, scale: Seq<u32>) -> bool {
    &&& shift.len() == scale.len()
    &&& forall|i: int| 0 <= i < shift.len() ==> !bad_shift(#[trigger] shift[i])
    &&& forall|i: int| 0 <= i < scale.len() ==> !bad_calibration_scale(#[trigger] scale[i])
}

/// A codebook with the right number of entries.
pub open spec fn good_codebook(book: Codebook, bit_width: int) -> bool {
    &&& book.boundaries@.len() == levels(bit_width) - 1
    &&& book.centroids@.len() == levels(bit_width)
}

impl IndexView {
    /// The stores of one index describe the same `n` rows.
    pub open spec fn stores_wf(self) -> bool {
        &&& 0 <= self.n
        &&& valid_bit_width(self.bit_width as int)
        &&& self.scales.len() == self.n
        &&& good_scales(self.scales)
        &&& good_pair(self.shift, self.scale)
        &&& self.n > 0 ==> self.shift.len() > 0
        &&& self.boundaries matches Some(b) ==> b.len() == levels(self.bit_width as int) - 1
        &&& self.centroids matches Some(c) ==> c.len() == levels(self.bit_width as int)
        &&& match self.dim {
            Some(d) => {
                &&& valid_dim(d as int)
                &&& self.shift.len() == 0 || self.shift.len() == d
                &&& self.packed matches Some(p) ==> p.len() == self.n * packed_row_bytes(
                    d as int,
                    self.bit_width as int,
                )
                &&& self.blocked matches Some(b) ==> {
                    &&& b.groups > 0
                    &&& b.n_blocks == blocks(self.n)
                    &&& b.data.len() == blocked_len(self.n, b.groups)
                }
                &&& self.packed is None ==> self.blocked is Some
                &&& self.rotation matches Some(r) ==> r == d
            },
            None => {
                &&& self.n == 0
                &&& self.packed == Some(Seq::<u8>::empty())
                &&& self.blocked is None
                &&& self.shift.len() == 0
                &&& self.rotation is None
                &&& self.boundaries is None
                &&& self.centroids is None
            },
        }
    }

    /// The warm-up buffer, while there is one, holds exactly the rows of the
    /// slots and stays below the fitting threshold; once it is gone a
    /// calibration is committed. An index that warms up has its packed rows.
    pub open spec fn warmup_wf(self) -> bool {
        match (self.warmup, self.dim) {
            (Some(w), Some(d)) => {
                &&& w.len() == self.n * d
                &&& self.n < TQPLUS_MIN_SAMPLES
                &&& self.packed is Some
            },
            (Some(w), None) => w.len() == 0,
            (None, Some(d)) => self.shift.len() == d,
            (None, None) => false,
        }
    }

    /// A well-formed index state.
    pub open spec fn wf(self) -> bool {
        self.stores_wf() && self.warmup_wf()
    }

    /// Whether the index is warming up, fitted, or committed to identity.
    pub open spec fn calibration_state(self) -> CalibrationState {
        state_of(self.warmup is Some, self.shift, self.scale)
    }

    /// Slot `idx` removed by moving the last slot into it, in every store.
    pub open spec fn swap_removed(self, idx: int) -> IndexView {
        let d = self.dim->0 as int;
        let width = packed_row_bytes(d, self.bit_width as int);
        IndexView {
            n: self.n - 1,
            packed: match self.packed {
                Some(p) => Some(swap_removed(p, width, self.n, idx)),
                None => None,
            },
            blocked: match self.blocked {
                Some(b) => Some(
                    BlockedView {
                        data: lanes_swap_removed(b.data, b.groups, self.n, idx),
                        groups: b.groups,
                        n_blocks: blocks(self.n - 1),
                    },
                ),
                None => None,
            },
            scales: swap_removed(self.scales, 1, self.n, idx),
            warmup: match self.warmup {
                Some(w) => Some(swap_removed(w, d, self.n, idx)),
                None => None,
            },
            ..self
        }
    }

    /// Only the blocked layout of the stored rows is materialized, so that new
    /// rows go straight into its lanes.
    pub open spec fn blocked_only(self) -> bool {
        self.n > 0 && self.packed is None && self.blocked is Some
    }

    /// The slot from which on an append needs lane rows: the first new one when
    /// only the lanes exist, else the start of the block the new rows begin in.
    pub open spec fn lanes_from(self) -> int {
        if self.blocked_only() {
            self.n
        } else {
            (self.n / 32) * 32
        }
    }

    /// The packed rows whose lane form an append has to hand over, given the codes
    /// of the new ones: those from slot `lanes_from` on. Nothing when the blocked
    /// cache is cold.
    pub open spec fn rows_for_lanes(self, codes: Seq<u8>) -> Option<Seq<u8>> {
        if self.blocked is None {
            None
        } else if self.blocked_only() {
            Some(codes)
        } else {
            let width = packed_row_bytes(self.dim->0 as int, self.bit_width as int);
            Some(self.with_packed().packed->0.skip(self.lanes_from() * width) + codes)
        }
    }

    /// The calibration that the encoder of an add is given: the committed one, if
    /// there is one, except when the batch is to be fitted.
    pub open spec fn pair_for(self, plan: AddPlan) -> Option<(Seq<u32>, Seq<u32>)> {
        if plan is Append && self.shift.len() > 0 {
            Some((self.shift, self.scale))
        } else {
            None
        }
    }

    /// What an add of `n` validated rows has to do.
    pub open spec fn add_plan(self, n: int) -> AddPlan {
        if n == 0 {
            AddPlan::Nothing
        } else {
            match self.warmup {
                None => AddPlan::Append,
                Some(w) => {
                    if self.n + n < TQPLUS_MIN_SAMPLES {
                        AddPlan::Append
                    } else if w.len() == 0 {
                        AddPlan::FreshFit
                    } else {
                        AddPlan::Refit { fit_on_batch: n >= TQPLUS_MIN_SAMPLES }
                    }
                },
            }
        }
    }

    /// The rows a calibration is fitted on when the batch `vectors` reaches the
    /// threshold: the batch alone when it is large enough, else the buffered
    /// rows followed by it.
    pub open spec fn fit_sample(self, vectors: Seq<u32>) -> Seq<u32> {
        if vectors.len() as int / self.dim->0 as int >= TQPLUS_MIN_SAMPLES {
            vectors
        } else {
            self.warmup->0 + vectors
        }
    }

    /// `rows` is what encoding `n` rows of this index has to yield: as many codes
    /// and scales as rows, usable numbers, and a calibration pair exactly when
    /// none is committed.
    pub open spec fn rows_fit(self, d: int, n: int, rows: EncodedRows) -> bool {
        &&& rows.codes@.len() == n * packed_row_bytes(d, self.bit_width as int)
        &&& rows.scales@.len() == n
        &&& good_scales(rows.scales@)
        &&& good_pair(rows.shift@, rows.scale@)
        &&& rows.shift@.len() == if self.shift.len() == 0 {
            d
        } else {
            0
        }
    }

    /// The stores can address `n` more rows.
    pub open spec fn room(self, n: int) -> bool {
        &&& self.n + n <= usize::MAX
        &&& self.blocked matches Some(b) ==> blocked_len(self.n + n, b.groups) <= usize::MAX
    }

    /// `lanes` holds the lane rows an append of `n` rows needs.
    pub open spec fn lanes_fit(self, n: int, lanes: Seq<u8>) -> bool {
        self.blocked matches Some(b) ==> lanes.len() == (self.n + n - self.lanes_from()) * b.groups
    }

    /// An append of `n` rows that ended like this is committed.
    pub open spec fn commits(self, d: int, n: int, event: EncodeEvent) -> bool {
        match event {
            EncodeEvent::Encoded(rows, lanes) => self.rows_fit(d, n, rows) && self.room(n)
                && self.lanes_fit(n, lanes@),
            _ => false,
        }
    }

    /// An append of `n` rows got as far as the repack of the blocked cache and
    /// failed there.
    pub open spec fn fails_in_repack(self, d: int, n: int, event: EncodeEvent) -> bool {
        match event {
            EncodeEvent::RepackFailed(rows) => self.rows_fit(d, n, rows) && self.room(n)
                && !self.blocked_only() && self.blocked is Some,
            _ => false,
        }
    }

    /// The state with its packed rows materialized wherever that takes no
    /// conversion: an index without rows has none.
    pub open spec fn with_packed(self) -> IndexView {
        if self.packed is None && !self.blocked_only() {
            IndexView { packed: Some(Seq::empty()), ..self }
        } else {
            self
        }
    }

    /// The calibration after an encode that returned this pair: an empty pair
    /// means the committed one was used.
    pub open spec fn with_pair(self, shift: Seq<u32>, scale: Seq<u32>) -> IndexView {
        if shift.len() > 0 {
            IndexView { shift, scale, ..self }
        } else {
            self
        }
    }

    /// The blocked cache after `n` rows were appended.
    pub open spec fn blocked_appended(self, n: int, lanes: Seq<u8>) -> Option<BlockedView> {
        match self.blocked {
            Some(b) => {
                let from = self.lanes_from();
                let kept = if self.blocked_only() {
                    b.data
                } else {
                    b.data.take((self.n / 32) * block_bytes(b.groups))
                };
                Some(
                    BlockedView {
                        data: lanes_appended(kept, b.groups, from, lanes, self.n + n - from),
                        groups: b.groups,
                        n_blocks: blocks(self.n + n),
                    },
                )
            },
            None => None,
        }
    }

    /// `n` encoded rows appended to every store, or the rows rolled back when the
    /// kernels did not deliver them.
    pub open spec fn appended(self, d: int, n: int, event: EncodeEvent) -> IndexView {
        let base = self.with_packed();
        match event {
            EncodeEvent::Encoded(rows, lanes) => {
                if self.commits(d, n, event) {
                    IndexView {
                        n: self.n + n,
                        packed: if self.blocked_only() {
                            None
                        } else {
                            Some(base.packed->0 + rows.codes@)
                        },
                        blocked: self.blocked_appended(n, lanes@),
                        scales: self.scales + rows.scales@,
                        scratch_demand: n * d,
                        ..base.with_pair(rows.shift@, rows.scale@)
                    }
                } else {
                    base
                }
            },
            EncodeEvent::RepackFailed(_) => {
                if self.fails_in_repack(d, n, event) {
                    IndexView { scratch_demand: n * d, ..base }
                } else {
                    base
                }
            },
            EncodeEvent::Failed => base,
        }
    }

    /// The index holds its codebook, or was given a usable one.
    pub open spec fn has_codebook(self, book: Option<Codebook>) -> bool {
        ||| self.boundaries is Some && self.centroids is Some
        ||| book matches Some(b) && good_codebook(b, self.bit_width as int)
    }

    /// The codebook cache after it has been asked for: each half is filled when
    /// empty and never replaced. A codebook of the wrong size is not taken.
    pub open spec fn with_codebook(self, book: Option<Codebook>) -> IndexView {
        if self.boundaries is Some && self.centroids is Some {
            self
        } else {
            match book {
                Some(b) => if good_codebook(b, self.bit_width as int) {
                    IndexView {
                        boundaries: if self.boundaries is Some {
                            self.boundaries
                        } else {
                            Some(b.boundaries@)
                        },
                        centroids: if self.centroids is Some {
                            self.centroids
                        } else {
                            Some(b.centroids@)
                        },
                        ..self
                    }
                } else {
                    self
                },
                None => self,
            }
        }
    }

    /// The dim-derived caches after an encode has asked for them.
    pub open spec fn seeded(self, d: usize, book: Option<Codebook>) -> IndexView {
        IndexView { rotation: Some(d), ..self.with_codebook(book) }
    }

    /// The event that a single-encode plan acts on.
    pub open spec fn single_event(self, work: AddWork) -> EncodeEvent {
        match work.run {
            EncodeRun::Single(event) => if self.has_codebook(work.codebook) {
                event
            } else {
                EncodeEvent::Failed
            },
            _ => EncodeEvent::Failed,
        }
    }

    /// The state just before the rows are re-encoded under a fitted pair: empty
    /// stores, the pair committed, warm-up over.
    pub open spec fn refit_base(self, shift: Seq<u32>, scale: Seq<u32>) -> IndexView {
        IndexView {
            n: 0,
            packed: Some(Seq::empty()),
            blocked: None,
            scales: Seq::empty(),
            shift,
            scale,
            warmup: None,
            ..self
        }
    }

    /// A batch of `vectors` added: the state after it, and whether it was
    /// committed.
    pub open spec fn added(self, vectors: Seq<u32>, work: AddWork) -> (IndexView, bool) {
        let d = self.dim->0;
        let n = vectors.len() as int / d as int;
        let ready = self.seeded(d, work.codebook);
        match self.add_plan(n) {
            AddPlan::Nothing => (self, true),
            AddPlan::Append => {
                let event = self.single_event(work);
                let after = ready.appended(d as int, n, event);
                let done = ready.commits(d as int, n, event);
                if done && self.warmup is Some {
                    (IndexView { warmup: Some(self.warmup->0 + vectors), ..after }, true)
                } else {
                    (after, done)
                }
            },
            AddPlan::FreshFit => {
                let event = self.single_event(work);
                let bare = IndexView { shift: Seq::empty(), scale: Seq::empty(), ..ready };
                let after = bare.appended(d as int, n, event);
                if bare.commits(d as int, n, event) {
                    (IndexView { warmup: None, ..after }, true)
                } else {
                    (after, false)
                }
            },
            AddPlan::Refit { .. } => match work.run {
                EncodeRun::Refitted { shift, scale, buffer, batch } => {
                    if self.has_codebook(work.codebook) && good_pair(shift@, scale@) && shift@.len()
                        == d {
                        let base = ready.refit_base(shift@, scale@);
                        if base.commits(d as int, self.n, buffer) {
                            let first = base.appended(d as int, self.n, buffer);
                            if first.commits(d as int, n, batch) {
                                (first.appended(d as int, n, batch), true)
                            } else {
                                (
                                    IndexView { scratch_demand: first.scratch_demand, ..ready },
                                    false,
                                )
                            }
                        } else {
                            (ready, false)
                        }
                    } else {
                        (ready, false)
                    }
                },
                _ => (ready, false),
            },
        }
    }
}

/// An append keeps the stores in step, committed or not.
pub proof fn lemma_appended_stores_wf(view: IndexView, d: usize, n: int, event: EncodeEvent)
    requires
        view.stores_wf(),
        view.dim == Some(d),
        0 <= n,
    ensures
        view.appended(d as int, n, event).stores_wf(),
        view.appended(d as int, n, event).dim == Some(d),
{
    let after = view.appended(d as int, n, event);
    let width = packed_row_bytes(d as int, view.bit_width as int);
    assert(0 * width == 0);
    if let EncodeEvent::Encoded(rows, lanes) = event {
        if view.commits(d as int, n, event) {
            assert((view.n + n) * width == view.n * width + n * width) by (nonlinear_arith);
            assert(after.scales == view.scales + rows.scales@);
            assert forall|i: int| 0 <= i < after.scales.len() implies !bad_vector_scale(
                #[trigger] after.scales[i],
            ) by {
                if i >= view.scales.len() {
                    assert(after.scales[i] == rows.scales@[i - view.scales.len()]);
                }
            }
            if let Some(b) = view.blocked {
                crate::blocked::lemma_blocked_len_monotone(0, view.n + n, b.groups);
            }
        }
    }
}

/// Handing over the dim-derived caches leaves every row where it was.
pub proof fn lemma_seeded_wf(view: IndexView, d: usize, book: Option<Codebook>)
    requires
        view.stores_wf(),
        view.dim == Some(d),
    ensures
        view.seeded(d, book).stores_wf(),
        view.warmup_wf() ==> view.seeded(d, book).warmup_wf(),
        view.seeded(d, book).dim == Some(d),
{
}

/// Adding a batch keeps the invariant, committed or not.
pub proof fn lemma_added_wf(view: IndexView, vectors: Seq<u32>, work: AddWork)
    requires
        view.wf(),
        view.dim is Some,
        vectors.len() as int % (view.dim->0 as int) == 0,
    ensures
        view.added(vectors, work).0.wf(),
{
    let d = view.dim->0;
    let n = vectors.len() as int / d as int;
    vstd::arithmetic::div_mod::lemma_fundamental_div_mod(vectors.len() as int, d as int);
    assert(vectors.len() == n * d) by (nonlinear_arith)
        requires
            vectors.len() == d * n + vectors.len() as int % d as int,
            vectors.len() as int % d as int == 0,
    ;
    assert(0 <= n) by (nonlinear_arith)
        requires
            n == vectors.len() as int / d as int,
            0 < d,
    ;
    lemma_seeded_wf(view, d, work.codebook);
    let ready = view.seeded(d, work.codebook);
    let event = view.single_event(work);
    match view.add_plan(n) {
        AddPlan::Nothing => {},
        AddPlan::Append => {
            lemma_appended_stores_wf(ready, d, n, event);
            assert((view.n + n) * d == view.n * d + n * d) by (nonlinear_arith);
        },
        AddPlan::FreshFit => {
            let bare = IndexView { shift: Seq::empty(), scale: Seq::empty(), ..ready };
            assert(view.n == 0) by (nonlinear_arith)
                requires
                    view.n * d == 0,
                    0 < d,
            ;
            lemma_appended_stores_wf(bare, d, n, event);
        },
        AddPlan::Refit { .. } => {
            if let EncodeRun::Refitted { shift, scale, buffer, batch } = work.run {
                if good_pair(shift@, scale@) && shift@.len() == d {
                    let base = ready.refit_base(shift@, scale@);
                    lemma_appended_stores_wf(base, d, view.n, buffer);
                    let first = base.appended(d as int, view.n, buffer);
                    lemma_appended_stores_wf(first, d, n, batch);
                }
            }
        },
    }
}

impl IndexView {
    /// Why a batch of `dim`-wide rows does not fit this index, if it does not.
    pub open spec fn dim_error(self, dim: usize) -> Option<AddError> {
        match self.dim {
            Some(existing) => if existing != dim {
                Some(AddError::DimMismatch { existing, got: dim })
            } else {
                None
            },
            None => if dim == 0 {
                Some(AddError::ZeroDim)
            } else if dim % 8 != 0 {
                Some(AddError::DimNotMultipleOf8(dim))
            } else if dim > MAX_DIM {
                Some(AddError::DimTooLarge { dim, max: MAX_DIM })
            } else {
                None
            },
        }
    }

    /// Why a batch is refused, if it is: its dim first, then its values.
    pub open spec fn add_error(self, vectors: Seq<u32>, dim: usize) -> Option<AddError> {
        match self.dim_error(dim) {
            Some(e) => Some(e),
            None => match invalid_coord(vectors, dim as int) {
                Some((row, column, value)) => Some(
                    AddError::InvalidInputValue {
                        vector_index: row as usize,
                        coord_index: column as usize,
                        value,
                    },
                ),
                None => None,
            },
        }
    }

    /// The state with its dim committed.
    pub open spec fn with_dim(self, dim: usize) -> IndexView {
        IndexView { dim: Some(dim), ..self }
    }

    /// An accepted batch of `dim`-wide rows added. A batch without rows changes
    /// nothing; a first batch that is not committed leaves a lazy index lazy.
    pub open spec fn added_2d(self, vectors: Seq<u32>, dim: usize, work: AddWork) -> (
        IndexView,
        bool,
    ) {
        if vectors.len() == 0 {
            (self, true)
        } else {
            let (after, done) = self.with_dim(dim).added(vectors, work);
            if done || self.dim is Some {
                (after, done)
            } else {
                (
                    IndexView {
                        dim: None,
                        rotation: None,
                        boundaries: None,
                        centroids: None,
                        ..after
                    },
                    false,
                )
            }
        }
    }
}

/// A first batch that is not committed leaves a lazy index exactly as it was.
pub proof fn lemma_lazy_rollback(view: IndexView, vectors: Seq<u32>, dim: usize, work: AddWork)
    requires
        view.wf(),
        view.dim is None,
    ensures
        !view.added_2d(vectors, dim, work).1 ==> view.added_2d(vectors, dim, work).0 == view,
{
    let eager = view.with_dim(dim);
    let n = vectors.len() as int / dim as int;
    let event = eager.single_event(work);
    let ready = eager.seeded(dim, work.codebook);
    if vectors.len() > 0 && !view.added_2d(vectors, dim, work).1 {
        assert(ready.appended(dim as int, n, event) == ready || ready.commits(
            dim as int,
            n,
            event,
        ));
        let bare = IndexView { shift: Seq::empty(), scale: Seq::empty(), ..ready };
        assert(bare =~= ready);
        assert(view.added_2d(vectors, dim, work).0 =~= view);
    }
}

/// Removing a slot keeps the invariant.
pub proof fn lemma_swap_removed_wf(view: IndexView, idx: int)
    requires
        view.wf(),
        0 <= idx < view.n,
    ensures
        view.swap_removed(idx).wf(),
{
    let after = view.swap_removed(idx);
    let d = view.dim->0 as int;
    let width = packed_row_bytes(d, view.bit_width as int);
    crate::rows::lemma_row_fits(0, view.n, width);
    assert(0 <= (view.n - 1) * width && 0 <= (view.n - 1) * d) by (nonlinear_arith)
        requires
            0 < view.n,
            0 <= width,
            0 < d,
    ;
    assert forall|i: int| 0 <= i < after.scales.len() implies !bad_vector_scale(
        #[trigger] after.scales[i],
    ) by {
        assert(after.scales[i] == view.scales[if i == idx {
            view.n - 1
        } else {
            i
        }]);
    }
    if let Some(b) = view.blocked {
        crate::blocked::lemma_blocked_len_monotone(0, view.n - 1, b.groups);
    }
}

} // verus!
