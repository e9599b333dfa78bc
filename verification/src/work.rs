//! What the numeric kernels hand back to the index.
//!
//! Encoding, fitting and the codebook solve are floating-point work done outside
//! this crate. The index decides what has to be done, and commits or rolls back
//! by what came back; these are the shapes of both.
use vstd::prelude::*;

verus! {

/// What an add of a validated batch has to do.
#[derive(Debug, Clone, Copy, PartialEq, Eq, Structural)]
pub enum AddPlan {
    /// The batch has no rows.
    Nothing,
    /// Encode the batch under the committed calibration, or under the one the
    /// encoder settles on when none is committed yet.
    Append,
    /// Encode the batch with no calibration committed, so that the encoder fits
    /// one; the index leaves warm-up.
    FreshFit,
    /// Fit a calibration, then encode the buffered rows and the batch under it;
    /// the index leaves warm-up.
    Refit {
        /// The sample to fit is the batch alone; otherwise it is the buffered
        /// rows followed by the batch.
        fit_on_batch: bool,
    },
}

/// Rows as an encoder returns them.
#[derive(Debug)]
pub struct EncodedRows {
    /// Bit-plane packed codes, row after row.
    pub codes: Vec<u8>,
    /// One scale per row.
    pub scales: Vec<u32>,
    /// Shift half of the calibration the encoder settled on, empty when it used
    /// a committed one.
    pub shift: Vec<u32>,
    /// Scale half, alike.
    pub scale: Vec<u32>,
}

/// How encoding a batch ended.
#[derive(Debug)]
pub enum EncodeEvent {
    /// The encoder failed; nothing came back.
    Failed,
    /// The rows were encoded, but laying out the lanes they change failed. The
    /// calibration they were encoded under goes with them.
    RepackFailed(EncodedRows),
    /// The rows were encoded. When the blocked cache is populated, the second
    /// part holds the lane rows it needs, row after row, starting at the slot
    /// the index names in `lanes_from`; otherwise it is ignored.
    Encoded(EncodedRows, Vec<u8>),
}

/// The quantizer's codebook.
#[derive(Debug)]
pub struct Codebook {
    /// Cell boundaries, one fewer than there are levels.
    pub boundaries: Vec<u32>,
    /// Reconstruction levels.
    pub centroids: Vec<u32>,
}

/// How the kernels ran for one add.
#[derive(Debug)]
pub enum EncodeRun {
    /// One encoding of the batch.
    Single(EncodeEvent),
    /// The calibration fit failed.
    FitFailed,
    /// The fitted pair, then the encodings of the buffered rows and of the batch
    /// under it.
    Refitted {
        /// Shift half of the fitted pair.
        shift: Vec<u32>,
        /// Scale half of the fitted pair.
        scale: Vec<u32>,
        /// Encoding of the buffered rows.
        buffer: EncodeEvent,
        /// Encoding of the batch.
        batch: EncodeEvent,
    },
}

/// Everything the kernels produced for one add.
#[derive(Debug)]
pub struct AddWork {
    /// The solved codebook, needed when the index holds none yet.
    pub codebook: Option<Codebook>,
    /// The encoding itself.
    pub run: EncodeRun,
}

/// Rows in lane order: each row's bytes as the blocked layout stores them.
#[derive(Debug)]
pub struct LaneRows {
    /// Bytes per row.
    pub groups: usize,
    /// The rows, one after another.
    pub bytes: Vec<u8>,
}

/// `to` is what `f` may turn the bytes `from` into.
pub open spec fn transformed<N: Fn(Vec<u8>) -> Vec<u8>>(f: N, from: Seq<u8>, to: Seq<u8>) -> bool {
    exists|a: Vec<u8>, b: Vec<u8>|
        a@ == from && b@ == to && #[trigger] call_ensures(f, (a,), b)
}

/// The relation between codes as the file stores them and as `f` lays them out.
pub open spec fn native_by<N: Fn(Vec<u8>) -> Vec<u8>>(f: N) -> spec_fn(Seq<u8>, Seq<u8>) -> bool {
    |from: Seq<u8>, to: Seq<u8>| transformed(f, from, to)
}

} // verus!
