//! Value checks on coordinates, scales and calibrations.
use crate::float_bits::{
    finite, is_finite, is_less, is_less_eq, less, less_eq, magnitude, ZERO,
};
use vstd::prelude::*;

verus! {

/// Magnitude (`1e16`) from which on a coordinate is refused: the sum of squares
/// of such values could overflow when a norm is taken.
pub const MAX_INPUT_MAGNITUDE: u32 = 0x5a0e_1bca;

/// Norm (`1e-10`) at or below which a vector has no representable direction.
/// Such a vector is stored with scale 0 and scores 0 against every query.
pub const MIN_INPUT_NORM: u32 = 0x2edb_e6ff;

/// The absolute value of a bit pattern.
pub open spec fn absolute(v: u32) -> u32 {
    magnitude(v) as u32
}

/// A coordinate that is not finite, or whose magnitude is `1e16` or more.
pub open spec fn bad_coord(v: u32) -> bool {
    !finite(v) || less_eq(MAX_INPUT_MAGNITUDE, absolute(v))
}

/// A per-vector scale no encoder emits: not finite, or negative.
pub open spec fn bad_vector_scale(v: u32) -> bool {
    !finite(v) || less(v, ZERO)
}

/// A calibration shift that is not finite.
pub open spec fn bad_shift(v: u32) -> bool {
    !finite(v)
}

/// A calibration scale that is not finite, or not positive.
pub open spec fn bad_calibration_scale(v: u32) -> bool {
    !finite(v) || less_eq(v, ZERO)
}

/// The first index at or behind `from` whose value is `bad`.
pub open spec fn first_from(s: Seq<u32>, bad: spec_fn(u32) -> bool, from: int) -> Option<int>
    decreases s.len() - from,
{
    if from >= s.len() {
        None
    } else if bad(s[from]) {
        Some(from)
    } else {
        first_from(s, bad, from + 1)
    }
}

/// The first index whose value is `bad`.
pub open spec fn first_where(s: Seq<u32>, bad: spec_fn(u32) -> bool) -> Option<int> {
    first_from(s, bad, 0)
}

/// What [`first_where`] finds: the lowest offending index, or none when no
/// value offends.
pub proof fn lemma_first_where(s: Seq<u32>, bad: spec_fn(u32) -> bool)
    ensures
        match first_where(s, bad) {
            Some(i) => {
                &&& 0 <= i < s.len()
                &&& bad(s[i])
                &&& forall|j: int| 0 <= j < i ==> !bad(#[trigger] s[j])
            },
            None => forall|j: int| 0 <= j < s.len() ==> !bad(#[trigger] s[j]),
        },
{
    lemma_first_from(s, bad, 0);
}

proof fn lemma_first_from(s: Seq<u32>, bad: spec_fn(u32) -> bool, from: int)
    requires
        0 <= from,
    ensures
        match first_from(s, bad, from) {
            Some(i) => {
                &&& from <= i < s.len()
                &&& bad(s[i])
                &&& forall|j: int| from <= j < i ==> !bad(#[trigger] s[j])
            },
            None => forall|j: int| from <= j < s.len() ==> !bad(#[trigger] s[j]),
        },
    decreases s.len() - from,
{
    if from < s.len() && !bad(s[from]) {
        lemma_first_from(s, bad, from + 1);
    }
}

/// The first offending coordinate of a batch of `dim`-wide rows, as row, column
/// and value.
pub open spec fn invalid_coord(values: Seq<u32>, dim: int) -> Option<(int, int, u32)> {
    match first_where(values, |v: u32| bad_coord(v)) {
        Some(i) => Some((i / dim, i % dim, values[i])),
        None => None,
    }
}

/// The first coordinate that is not finite or has magnitude `1e16` or more, as
/// `(row, column, value)`; `None` when the batch is clean.
pub fn first_invalid_coord(values: &[u32], dim: usize) -> (r: Option<(usize, usize, u32)>)
    requires
        dim > 0,
    ensures
        match (r, invalid_coord(values@, dim as int)) {
            (Some(a), Some(b)) => a.0 == b.0 && a.1 == b.1 && a.2 == b.2,
            (None, None) => true,
            _ => false,
        },
{
    let ghost bad = |v: u32| bad_coord(v);
    let mut i: usize = 0;
    while i < values.len()
        invariant
            i <= values@.len(),
            dim > 0,
            bad == (|v: u32| bad_coord(v)),
            first_where(values@, bad) == first_from(values@, bad, i as int),
        decreases values@.len() - i,
    {
        let v: u32 = values[i];
        if !is_finite(v) || is_less_eq(MAX_INPUT_MAGNITUDE, v % 0x8000_0000) {
            return Some((i / dim, i % dim, v));
        }
        i = i + 1;
    }
    None
}

/// Whether scanning `len` values in pieces of `chunk` takes more than one piece.
pub fn validation_parallelizes(len: usize, chunk: usize) -> (r: bool)
    ensures
        r == (len > chunk),
        chunk > 0 ==> r == ((len + chunk - 1) / chunk as int > 1),
{
    proof {
        if chunk > 0 {
            let c = chunk as int;
            let total = len + chunk - 1;
            vstd::arithmetic::div_mod::lemma_fundamental_div_mod(total, c);
            assert(len > chunk <==> total / c > 1) by (nonlinear_arith)
                requires
                    c > 0,
                    total == len + c - 1,
                    total == c * (total / c) + total % c,
                    0 <= total % c < c,
                    c == chunk,
            ;
        }
    }
    len > chunk
}

/// Position of the first per-vector scale that is not finite or is negative.
pub fn first_bad_vector_scale(values: &[u32]) -> (r: Option<usize>)
    ensures
        match (r, first_where(values@, |v: u32| bad_vector_scale(v))) {
            (Some(a), Some(b)) => a == b && a < values@.len(),
            (None, None) => true,
            _ => false,
        },
{
    let ghost bad = |v: u32| bad_vector_scale(v);
    let mut i: usize = 0;
    while i < values.len()
        invariant
            i <= values@.len(),
            bad == (|v: u32| bad_vector_scale(v)),
            first_where(values@, bad) == first_from(values@, bad, i as int),
        decreases values@.len() - i,
    {
        if !is_finite(values[i]) || is_less(values[i], ZERO) {
            return Some(i);
        }
        i = i + 1;
    }
    None
}

/// Position of the first calibration shift that is not finite.
pub fn first_bad_shift(values: &[u32]) -> (r: Option<usize>)
    ensures
        match (r, first_where(values@, |v: u32| bad_shift(v))) {
            (Some(a), Some(b)) => a == b && a < values@.len(),
            (None, None) => true,
            _ => false,
        },
{
    let ghost bad = |v: u32| bad_shift(v);
    let mut i: usize = 0;
    while i < values.len()
        invariant
            i <= values@.len(),
            bad == (|v: u32| bad_shift(v)),
            first_where(values@, bad) == first_from(values@, bad, i as int),
        decreases values@.len() - i,
    {
        if !is_finite(values[i]) {
            return Some(i);
        }
        i = i + 1;
    }
    None
}

/// Position of the first calibration scale that is not finite or not positive.
pub fn first_bad_calibration_scale(values: &[u32]) -> (r: Option<usize>)
    ensures
        match (r, first_where(values@, |v: u32| bad_calibration_scale(v))) {
            (Some(a), Some(b)) => a == b && a < values@.len(),
            (None, None) => true,
            _ => false,
        },
{
    let ghost bad = |v: u32| bad_calibration_scale(v);
    let mut i: usize = 0;
    while i < values.len()
        invariant
            i <= values@.len(),
            bad == (|v: u32| bad_calibration_scale(v)),
            first_where(values@, bad) == first_from(values@, bad, i as int),
        decreases values@.len() - i,
    {
        if !is_finite(values[i]) || is_less_eq(values[i], ZERO) {
            return Some(i);
        }
        i = i + 1;
    }
    None
}

} // verus!
