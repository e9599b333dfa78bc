//! Handing the index out: its parts, its caches and what a file holds of it.
use crate::blocked::{blocked_len, blocked_len_for, lanes_appended};
use crate::calibration::{is_identity, repeated, view_opt, CalibrationState};
use crate::construct::{BlockedPayload, CodePayload, StoredIndex};
use crate::float_bits::ZERO;
use crate::index::{level_count, row_bytes, TurboQuantIndex};
use crate::model::{levels, packed_row_bytes, IndexView};
use crate::search::lay_out;
use crate::work::{transformed, Codebook, LaneRows};
use vstd::prelude::*;

verus! {

impl IndexView {
    /// The state once the packed rows have been asked for: reconstructed from the
    /// blocked layout where they were missing. A reconstruction of the wrong size
    /// is not taken.
    pub open spec fn materialized(self, converted: Option<Vec<u8>>) -> IndexView {
        if self.packed is Some {
            self
        } else if self.n == 0 {
            IndexView { packed: Some(Seq::empty()), ..self }
        } else if converted is Some && converted->0@.len() == self.n * packed_row_bytes(
            self.dim->0 as int,
            self.bit_width as int,
        ) {
            IndexView { packed: Some(converted->0@), ..self }
        } else {
            self
        }
    }

    /// The code section a file stores: the blocked layout of the rows, laid out
    /// from `lanes` where it is not cached. Empty for an index without rows;
    /// nothing when the rows are needed and `lanes` does not hold them.
    pub open spec fn code_section(self, lanes: Option<LaneRows>) -> Option<Seq<u8>> {
        if self.n == 0 {
            Some(Seq::empty())
        } else {
            match (self.blocked, lanes) {
                (Some(b), _) => Some(b.data),
                (None, Some(rows)) => if self.all_lanes(rows) {
                    Some(
                        lanes_appended(
                            Seq::empty(),
                            rows.groups as int,
                            0,
                            rows.bytes@,
                            self.n,
                        ),
                    )
                } else {
                    None
                },
                (None, None) => None,
            }
        }
    }

    /// Bytes of the code section of rows that have `groups` bytes each; a lazy index
    /// has none.
    pub open spec fn codes_len(self, groups: int) -> int {
        if self.dim is None {
            0
        } else {
            blocked_len(self.n, groups)
        }
    }

    /// Bytes per slot of the code section.
    pub open spec fn section_groups(self, lanes: Option<LaneRows>) -> int {
        if self.n == 0 {
            0
        } else {
            match (self.blocked, lanes) {
                (Some(b), _) => b.groups,
                (None, Some(rows)) => rows.groups as int,
                (None, None) => 0,
            }
        }
    }
}

impl StoredIndex {
    /// These are the fields a file holds of an index in this state: a dim of 0
    /// when none is committed, and a codebook of zeros when there are no rows.
    pub open spec fn describes(self, view: IndexView, lanes: Option<LaneRows>) -> bool {
        &&& self.bit_width == view.bit_width
        &&& self.dim == match view.dim {
            Some(d) => d,
            None => 0,
        }
        &&& self.n_vectors == view.n
        &&& self.scales@ == view.scales
        &&& self.tqplus_shift@ == view.shift
        &&& self.tqplus_scale@ == view.scale
        &&& self.codes matches CodePayload::BlockedSeq(payload)
        &&& payload.groups == view.section_groups(lanes)
        &&& view.code_section(lanes) == Some(payload.codes@)
        &&& Some(payload.boundaries@) == if view.n == 0 {
            Some(repeated(ZERO, levels(view.bit_width as int) - 1))
        } else {
            view.boundaries
        }
        &&& Some(payload.centroids@) == if view.n == 0 {
            Some(repeated(ZERO, levels(view.bit_width as int)))
        } else {
            view.centroids
        }
    }
}

/// The sizes that determine how long the stored form of an index is.
#[derive(Debug, Clone, Copy, PartialEq, Eq, Structural)]
pub struct StoredShape {
    /// Bits per coordinate.
    pub bit_width: usize,
    /// Bytes of the code section.
    pub codes_len: usize,
    /// Number of per-vector scales.
    pub scales_len: usize,
    /// Entries in each half of the calibration.
    pub calibration_len: usize,
}

impl StoredShape {
    /// These are the sizes of an index in this state whose rows have `groups` bytes.
    pub open spec fn announces(self, view: IndexView, groups: int) -> bool {
        &&& self.bit_width == view.bit_width
        &&& self.codes_len == view.codes_len(groups)
        &&& self.scales_len == view.n
        &&& self.calibration_len == view.shift.len()
    }
}

fn copy_of<T: Copy>(values: &Vec<T>) -> (r: Vec<T>)
    ensures
        r@ == values@,
{
    let total: usize = values.len();
    let mut r: Vec<T> = Vec::new();
    let mut i: usize = 0;
    while i < total
        invariant
            i <= total,
            total == values@.len(),
            r@ == values@.take(i as int),
        decreases total - i,
    {
        r.push(values[i]);
        i = i + 1;
        assert(r@ =~= values@.take(i as int));
    }
    assert(r@ =~= values@);
    r
}

impl TurboQuantIndex {
    /// Whether the packed rows are materialized.
    pub fn packed_ready(&self) -> (r: bool)
        ensures
            r == self@.packed is Some,
    {
        self.packed_codes.is_some()
    }

    /// Materialize the packed rows; `converted` is their reconstruction from the
    /// blocked layout, needed when only that is present and holds rows. Returns
    /// whether they are there afterwards.
    pub fn packed(&mut self, converted: Option<Vec<u8>>) -> (ready: bool)
        requires
            old(self).wf(),
        ensures
            final(self).wf(),
            final(self)@ == old(self)@.materialized(converted),
            ready == old(self)@.materialized(converted).packed is Some,
    {
        if self.packed_codes.is_some() {
            return true;
        }
        if self.n_vectors == 0 {
            self.packed_codes = Some(Vec::new());
            return true;
        }
        let d: usize = match self.dim {
            Some(d) => d,
            None => {
                return false;
            },
        };
        let width: usize = row_bytes(d, self.bit_width);
        match converted {
            Some(rows) => {
                let have: usize = rows.len();
                match self.n_vectors.checked_mul(width) {
                    Some(total) => {
                        if have == total {
                            self.packed_codes = Some(rows);
                            return true;
                        }
                    },
                    None => {},
                }
                false
            },
            None => false,
        }
    }

    /// The packed rows, when they are materialized.
    pub fn packed_codes(&self) -> (r: Option<&[u8]>)
        ensures
            match r {
                Some(codes) => self@.packed == Some(codes@),
                None => self@.packed is None,
            },
    {
        match &self.packed_codes {
            Some(codes) => Some(codes.as_slice()),
            None => None,
        }
    }

    /// The warm blocked layout as the scan kernels of this machine read it, for a
    /// writer that takes it in that form; `to_native` makes it of the stored layout.
    /// `None` for an index without rows or with a cold cache.
    pub fn blocked_native_for_write<N: Fn(Vec<u8>) -> Vec<u8>>(&self, to_native: &N) -> (r: Option<
        Vec<u8>,
    >)
        requires
            self.wf(),
            forall|codes: Vec<u8>| call_requires(*to_native, (codes,)),
        ensures
            match r {
                Some(native) => self@.n > 0 && self@.blocked is Some && transformed(
                    *to_native,
                    self@.blocked->0.data,
                    native@,
                ),
                None => self@.n == 0 || self@.blocked is None,
            },
    {
        if self.n_vectors == 0 || self.dim.is_none() {
            return None;
        }
        match &self.blocked {
            Some(cache) => {
                let stored = copy_of(&cache.data);
                let ghost before = stored;
                let native = to_native(stored);
                assert(call_ensures(*to_native, (before,), native));
                Some(native)
            },
            None => None,
        }
    }

    /// The code section a file stores; `lanes` holds every stored row in lane
    /// order, needed when there are rows and their blocked layout is cold.
    pub fn codes_blocked_seq(&self, lanes: &Option<LaneRows>) -> (r: Option<Vec<u8>>)
        requires
            self.wf(),
        ensures
            view_opt(r) == self@.code_section(*lanes),
    {
        if self.n_vectors == 0 {
            let none: Vec<u8> = Vec::new();
            assert(none@ =~= Seq::<u8>::empty());
            return Some(none);
        }
        match &self.blocked {
            Some(cache) => Some(copy_of(&cache.data)),
            None => match lanes {
                Some(rows) => lay_out(self.n_vectors, rows),
                None => None,
            },
        }
    }

    /// The codebook a file stores: the cached or freshly solved one when there
    /// are rows, else zeros. `None` when a codebook is needed and `solved` is not
    /// one.
    pub fn codebook_for_write(&mut self, solved: Option<Codebook>) -> (r: Option<Codebook>)
        requires
            old(self).wf(),
        ensures
            final(self).wf(),
            final(self)@ == if old(self)@.n == 0 {
                old(self)@
            } else {
                old(self)@.with_codebook(solved)
            },
            match r {
                Some(book) => if old(self)@.n == 0 {
                    &&& book.boundaries@ == repeated(
                        ZERO,
                        levels(old(self)@.bit_width as int) - 1,
                    )
                    &&& book.centroids@ == repeated(ZERO, levels(old(self)@.bit_width as int))
                } else {
                    &&& final(self)@.boundaries == Some(book.boundaries@)
                    &&& final(self)@.centroids == Some(book.centroids@)
                },
                None => old(self)@.n > 0 && !old(self)@.has_codebook(solved),
            },
    {
        let n_levels: usize = level_count(self.bit_width);
        if self.n_vectors == 0 {
            let boundaries: Vec<u32> = vec![ZERO; n_levels - 1];
            let centroids: Vec<u32> = vec![ZERO; n_levels];
            assert(boundaries@ =~= repeated(ZERO, n_levels - 1));
            assert(centroids@ =~= repeated(ZERO, n_levels as int));
            return Some(Codebook { boundaries, centroids });
        }
        self.fill_codebook(solved);
        match (&self.boundaries, &self.centroids) {
            (Some(boundaries), Some(centroids)) => Some(
                Codebook { boundaries: copy_of(boundaries), centroids: copy_of(centroids) },
            ),
            _ => None,
        }
    }

    /// The fields a file holds of this index. `solved` and `lanes` are needed
    /// when there are rows and the codebook or the blocked layout is cold; `None`
    /// when one of them is needed and does not fit.
    pub fn to_stored(&mut self, solved: Option<Codebook>, lanes: &Option<LaneRows>) -> (r: Option<
        StoredIndex,
    >)
        requires
            old(self).wf(),
        ensures
            final(self).wf(),
            final(self)@ == if old(self)@.n == 0 {
                old(self)@
            } else {
                old(self)@.with_codebook(solved)
            },
            match r {
                Some(stored) => stored.describes(final(self)@, *lanes),
                None => old(self)@.n > 0 && (!old(self)@.has_codebook(solved) || old(
                    self,
                )@.code_section(*lanes) is None),
            },
    {
        let book = match self.codebook_for_write(solved) {
            Some(book) => book,
            None => {
                return None;
            },
        };
        let codes = match self.codes_blocked_seq(lanes) {
            Some(codes) => codes,
            None => {
                return None;
            },
        };
        let groups: usize = if self.n_vectors == 0 {
            0
        } else {
            match (&self.blocked, lanes) {
                (Some(cache), _) => cache.groups,
                (None, Some(rows)) => rows.groups,
                (None, None) => 0,
            }
        };
        let Codebook { boundaries, centroids } = book;
        Some(
            StoredIndex {
                bit_width: self.bit_width,
                dim: self.dim(),
                n_vectors: self.n_vectors,
                codes: CodePayload::BlockedSeq(
                    BlockedPayload { groups, codes, boundaries, centroids },
                ),
                scales: copy_of(&self.scales),
                tqplus_shift: copy_of(&self.tqplus_shift),
                tqplus_scale: copy_of(&self.tqplus_scale),
            },
        )
    }

    /// The sizes that determine how long the stored form is, without building it;
    /// `groups` is the number of bytes per slot. `None` when the code section
    /// could not be addressed.
    pub fn stored_shape(&self, groups: usize) -> (r: Option<StoredShape>)
        requires
            self.wf(),
        ensures
            match r {
                Some(shape) => shape.announces(self@, groups as int),
                None => self@.codes_len(groups as int) > usize::MAX,
            },
    {
        let codes_len: usize = match self.dim {
            Some(_) => match blocked_len_for(self.n_vectors, groups) {
                Some(len) => len,
                None => {
                    return None;
                },
            },
            None => 0,
        };
        Some(
            StoredShape {
                bit_width: self.bit_width,
                codes_len,
                scales_len: self.scales.len(),
                calibration_len: self.tqplus_shift.len(),
            },
        )
    }

    /// The calibration as its shift and scale halves, once one is committed.
    pub fn calibration(&self) -> (r: Option<(&[u32], &[u32])>)
        ensures
            match r {
                Some((shift, scale)) => self@.shift.len() > 0 && shift@ == self@.shift && scale@
                    == self@.scale,
                None => self@.shift.len() == 0,
            },
    {
        if self.tqplus_shift.len() == 0 {
            None
        } else {
            Some((self.tqplus_shift.as_slice(), self.tqplus_scale.as_slice()))
        }
    }

    /// Whether a calibration is fitted, still to come, or fixed to identity.
    pub fn calibration_state(&self) -> (r: CalibrationState)
        ensures
            r == self@.calibration_state(),
    {
        if self.warmup.is_some() {
            return CalibrationState::WarmingUp;
        }
        if is_identity(self.tqplus_shift.as_slice(), self.tqplus_scale.as_slice()) {
            CalibrationState::Identity
        } else {
            CalibrationState::Fitted
        }
    }

    /// The raw rows buffered for a first fit, while there is a buffer.
    pub fn warmup_rows(&self) -> (r: Option<&[u32]>)
        ensures
            match r {
                Some(rows) => self@.warmup == Some(rows@),
                None => self@.warmup is None,
            },
    {
        match &self.warmup {
            Some(rows) => Some(rows.as_slice()),
            None => None,
        }
    }

    /// The cached codebook halves.
    pub fn cached_codebook(&self) -> (r: (Option<&[u32]>, Option<&[u32]>))
        ensures
            match r.0 {
                Some(values) => self@.boundaries == Some(values@),
                None => self@.boundaries is None,
            },
            match r.1 {
                Some(values) => self@.centroids == Some(values@),
                None => self@.centroids is None,
            },
    {
        let boundaries: Option<&[u32]> = match &self.boundaries {
            Some(values) => Some(values.as_slice()),
            None => None,
        };
        let centroids: Option<&[u32]> = match &self.centroids {
            Some(values) => Some(values.as_slice()),
            None => None,
        };
        (boundaries, centroids)
    }

    /// The cached blocked layout: its bytes as a file stores them, the bytes per slot
    /// and the number of blocks.
    pub fn blocked_layout(&self) -> (r: Option<(&[u8], usize, usize)>)
        ensures
            match r {
                Some((data, groups, n_blocks)) => {
                    &&& self@.blocked is Some
                    &&& self@.blocked->0.data == data@
                    &&& self@.blocked->0.groups == groups
                    &&& self@.blocked->0.n_blocks == n_blocks
                },
                None => self@.blocked is None,
            },
    {
        match &self.blocked {
            Some(cache) => Some((cache.data.as_slice(), cache.groups, cache.n_blocks)),
            None => None,
        }
    }

    /// Elements the latest encode asked of its scratch buffer.
    pub fn scratch_demand(&self) -> (r: usize)
        ensures
            r == self@.scratch_demand,
    {
        self.encode_scratch_prev
    }

    /// One scale per row.
    pub fn scales(&self) -> (r: &[u32])
        ensures
            r@ == self@.scales,
    {
        self.scales.as_slice()
    }

    /// The shift half of the calibration, empty when there is none.
    pub fn tqplus_shift(&self) -> (r: &[u32])
        ensures
            r@ == self@.shift,
    {
        self.tqplus_shift.as_slice()
    }

    /// The scale half of the calibration, empty when there is none.
    pub fn tqplus_scale(&self) -> (r: &[u32])
        ensures
            r@ == self@.scale,
    {
        self.tqplus_scale.as_slice()
    }

    /// Number of stored vectors.
    pub fn len(&self) -> (r: usize)
        ensures
            r == self@.n,
    {
        self.n_vectors
    }

    /// Whether no vector is stored.
    pub fn is_empty(&self) -> (r: bool)
        ensures
            r == (self@.n == 0),
    {
        self.n_vectors == 0
    }

    /// The dim, or 0 when none is committed yet. Prefer [`Self::dim_opt`], which
    /// cannot be mistaken for a number to calculate with.
    pub fn dim(&self) -> (r: usize)
        ensures
            r == match self@.dim {
                Some(d) => d,
                None => 0,
            },
    {
        match self.dim {
            Some(d) => d,
            None => 0,
        }
    }

    /// The dim, once one is committed.
    pub fn dim_opt(&self) -> (r: Option<usize>)
        ensures
            r == self@.dim,
    {
        self.dim
    }

    /// Bits per coordinate.
    pub fn bit_width(&self) -> (r: usize)
        ensures
            r == self@.bit_width,
    {
        self.bit_width
    }
}

} // verus!
