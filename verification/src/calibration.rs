//! Per-coordinate calibration: what it is, and when an index may still fit one.
use crate::float_bits::{equal, is_equal, ONE, ZERO};
use vstd::prelude::*;

verus! {

/// Number of vectors from which on a calibration can be fitted.
pub const TQPLUS_MIN_SAMPLES: usize = 1000;

/// State of an index's per-coordinate calibration.
#[derive(Debug, Clone, Copy, PartialEq, Eq, Structural)]
pub enum CalibrationState {
    /// Fewer than [`TQPLUS_MIN_SAMPLES`] vectors have been added and their raw
    /// rows are still buffered. A later add that reaches the threshold fits a
    /// calibration and re-encodes every stored row.
    WarmingUp,
    /// A fitted calibration is committed; every stored row is encoded in it and
    /// every later add reuses it.
    Fitted,
    /// The index is committed to the identity calibration for good.
    Identity,
}

/// A pair that applies no transform: every shift is zero and every scale one.
pub open spec fn identity(shift: Seq<u32>, scale: Seq<u32>) -> bool {
    &&& forall|i: int| 0 <= i < shift.len() ==> equal(#[trigger] shift[i], ZERO)
    &&& forall|i: int| 0 <= i < scale.len() ==> equal(#[trigger] scale[i], ONE)
}

/// The state an index with this calibration pair is in; `warming` says whether
/// it still holds its warm-up buffer.
pub open spec fn state_of(
    warming: bool,
    shift: Seq<u32>,
    scale: Seq<u32>,
) -> CalibrationState {
    if warming {
        CalibrationState::WarmingUp
    } else if identity(shift, scale) {
        CalibrationState::Identity
    } else {
        CalibrationState::Fitted
    }
}

/// `n` copies of `v`.
pub open spec fn repeated(v: u32, n: int) -> Seq<u32> {
    Seq::new(n as nat, |i: int| v)
}

/// The calibration and warm-up buffer an index starts from when it is built
/// from stored parts.
///
/// Stored rows always come with a declared calibration: an empty pair beside
/// rows stands for identity, written out. Nothing stored and nothing declared
/// (an empty pair, or one that applies no transform) means warm-up. Any other
/// pair is kept as it is and ends warm-up.
pub open spec fn normalized(
    dim: Option<usize>,
    n: int,
    shift: Seq<u32>,
    scale: Seq<u32>,
) -> (Seq<u32>, Seq<u32>, Option<Seq<u32>>) {
    let nothing = Seq::<u32>::empty();
    if shift.len() > 0 {
        if n == 0 && identity(shift, scale) {
            (nothing, nothing, Some(nothing))
        } else {
            (shift, scale, None)
        }
    } else {
        match dim {
            Some(d) => if n > 0 {
                (repeated(ZERO, d as int), repeated(ONE, d as int), None)
            } else {
                (shift, scale, Some(nothing))
            },
            None => (shift, scale, Some(nothing)),
        }
    }
}

/// The view of an optional buffer.
pub open spec fn view_opt<T>(buffer: Option<Vec<T>>) -> Option<Seq<T>> {
    match buffer {
        Some(v) => Some(v@),
        None => None,
    }
}

fn all_equal(values: &[u32], target: u32) -> (r: bool)
    ensures
        r == (forall|i: int| 0 <= i < values@.len() ==> equal(#[trigger] values@[i], target)),
{
    let mut i: usize = 0;
    while i < values.len()
        invariant
            i <= values@.len(),
            forall|j: int| 0 <= j < i ==> equal(#[trigger] values@[j], target),
        decreases values@.len() - i,
    {
        if !is_equal(values[i], target) {
            assert(!equal(values@[i as int], target));
            return false;
        }
        i = i + 1;
    }
    true
}

/// Whether the pair applies no transform.
pub fn is_identity(shift: &[u32], scale: &[u32]) -> (r: bool)
    ensures
        r == identity(shift@, scale@),
{
    all_equal(shift, ZERO) && all_equal(scale, ONE)
}

/// Bring a decoded calibration into the form every construction path agrees on;
/// see [`normalized`].
pub fn normalize_calibration(
    dim: Option<usize>,
    n_vectors: usize,
    tqplus_shift: Vec<u32>,
    tqplus_scale: Vec<u32>,
) -> (r: (Vec<u32>, Vec<u32>, Option<Vec<u32>>))
    ensures
        (r.0@, r.1@, view_opt(r.2)) == normalized(
            dim,
            n_vectors as int,
            tqplus_shift@,
            tqplus_scale@,
        ),
{
    if tqplus_shift.len() > 0 {
        if n_vectors == 0 && is_identity(tqplus_shift.as_slice(), tqplus_scale.as_slice()) {
            let r = (Vec::new(), Vec::new(), Some(Vec::new()));
            assert(r.0@ =~= Seq::<u32>::empty());
            return r;
        }
        return (tqplus_shift, tqplus_scale, None);
    }
    match dim {
        Some(d) if n_vectors > 0 => {
            let zeros: Vec<u32> = vec![ZERO; d];
            let ones: Vec<u32> = vec![ONE; d];
            assert(zeros@ =~= repeated(ZERO, d as int));
            assert(ones@ =~= repeated(ONE, d as int));
            (zeros, ones, None)
        },
        _ => (tqplus_shift, tqplus_scale, Some(Vec::new())),
    }
}

} // verus!
