# turbovec

The verified core of a quantized vector index. Vectors are stored compressed to 2,
3 or 4 bits per coordinate and known by their slot; a removal moves the last vector
into the vacated slot.

Everything that is decided rather than computed in floating point is written in
Verus and proved:

- which inputs are accepted, and which error each refused one gets;
- what every store holds after an add, a removal, a load or a failed kernel;
- when a calibration is fitted, when it is fixed, and what it is after a round
  trip through a file;
- what a search is answered, and how many results it is owed;
- how chunks of a mapped image are assembled and cached.

Numbers are handled by their bit patterns, and compared exactly.

## Layout

| Place | What it holds |
|---|---|
| `src/model.rs` | the state of an index, its invariant, what an add and a removal do |
| `src/index.rs` | the index, adding and removing |
| `src/construct.rs` | empty, seeded, from parts, from a loaded payload |
| `src/search.rs`, `src/mask.rs`, `src/results.rs` | checking a search, the scan caches, results |
| `src/persist.rs` | parts, caches and what a file holds |
| `src/calibration.rs`, `src/validate.rs`, `src/float_bits.rs` | calibrations, value checks, bit patterns |
| `src/rows.rs`, `src/blocked.rs` | row-major buffers and the blocked layout |
| `src/mapped.rs`, `src/paged_cache.rs` | serving an image chunk by chunk |
| `src/work.rs` | what the numeric kernels hand back |
| `src/scratch.rs`, `src/text.rs`, `src/error.rs` | scratch retention, message text, errors |
| `src/laws/` | what holds across operations |
| `app/` | `f32` interface, kernels, files, memory maps |
| `tests/` | the library on concrete values |

## Kernels

Encoding, fitting, the codebook solve, scoring and the conversion between packed
rows and lanes are floating-point or bit-level kernels outside the library. An
operation that needs them is split: the library says what has to be done, the
caller runs the kernels, and the library commits or rolls back by what came back.
