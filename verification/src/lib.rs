//! Verified core of a quantized vector index.
//!
//! A [`TurboQuantIndex`] stores vectors compressed to 2, 3 or 4 bits per
//! coordinate. This crate holds everything about it that is decided rather than
//! computed in floating point: which inputs are accepted, what the stores hold
//! after every operation, when a calibration is fitted and when it is fixed, what
//! is rolled back when a kernel fails, what a search is answered, and what a file
//! holds of an index. Numbers appear as their bit patterns, see [`float_bits`].
//!
//! The numeric kernels (encoding, fitting, the codebook solve, scoring, and the
//! conversion between packed rows and lanes) stay outside. An operation that needs
//! them comes in two halves: one says what has to be done, the other takes what
//! the kernels returned, or that they failed. The invariant kept throughout is
//! that every store which is present describes exactly the `len()` rows the index
//! holds; [`model`] states it, and [`laws`] states what follows.
use vstd::prelude::*;

pub mod blocked;
pub mod calibration;
pub mod construct;
pub mod error;
pub mod float_bits;
pub mod index;
pub mod laws;
pub mod mapped;
pub mod mask;
pub mod model;
pub mod paged_cache;
pub mod persist;
pub mod results;
pub mod rows;
pub mod scratch;
pub mod search;
pub mod text;
pub mod validate;
pub mod work;

pub use calibration::CalibrationState;
pub use error::{AddError, ConstructError, FromPartsError, SearchError};
pub use index::TurboQuantIndex;
pub use results::SearchResults;
pub use validate::{first_invalid_coord, validation_parallelizes, MIN_INPUT_NORM};

verus! {

/// Upper bound on vector dimensionality, enforced alike at construction, at the
/// first add and on load.
pub const MAX_DIM: usize = 16384;

} // verus!
