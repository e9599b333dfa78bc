//! An image served chunk by chunk from the bytes of its file.
//!
//! A block unit of the file stores its 32 rows' codes in the blocked layout and
//! their 32 scales right behind them. A chunk gathers the code bytes of its
//! blocks, applies the redo ops that the commit header carries, and takes the rows
//! of a last, partial block from the header itself. The bytes come from a memory
//! map; this module only reads them.
use crate::blocked::{block_bytes, blocked_len, blocks, blocks_for, lane_written, write_lane};
use crate::float_bits::{finite, is_finite, is_less_eq, less_eq, ZERO};
use crate::paged_cache::{inserted, lemma_total_nonnegative, position, total, touched, Cached, Chunk, PagedCache};
use crate::text::{digits, push_number};
use crate::work::{native_by, transformed};
use std::sync::Arc;
use vstd::prelude::*;

verus! {

/// Where things lie in an image.
#[derive(Debug)]
pub struct Geo {
    /// Code bytes per row.
    pub row_bytes: usize,
    /// Bytes of a block unit.
    pub unit_len: usize,
    /// Where each block unit starts.
    pub units: Vec<usize>,
}

/// An absolute write of one row: its codes, then its scale.
#[derive(Debug)]
pub struct RedoOp {
    /// The row's slot.
    pub slot: usize,
    /// Code bytes, followed by the scale in little-endian order.
    pub payload: Vec<u8>,
}

/// The pending writes of one block.
#[derive(Debug)]
pub struct BlockOps {
    /// The block.
    pub block: usize,
    /// The writes, oldest first.
    pub ops: Vec<RedoOp>,
}

/// What the superblock and the commit headers of an image say.
#[derive(Debug)]
pub struct ParsedImage {
    /// 0 for a positional image.
    pub kind: u64,
    /// Where things lie.
    pub geo: Geo,
    /// Dim of the vectors.
    pub dim: usize,
    /// Bits per coordinate.
    pub bit_width: usize,
    /// Number of rows.
    pub n_vectors: usize,
    /// Committed whole blocks.
    pub n_blocks: usize,
    /// The rows of the last, partial block.
    pub tail: Vec<u8>,
    /// Bytes of a tail row: codes, scale, and whatever follows.
    pub tail_row: usize,
    /// The pending writes.
    pub ops: Vec<BlockOps>,
    /// Calibration shift.
    pub tqplus_shift: Vec<u32>,
    /// Calibration scale.
    pub tqplus_scale: Vec<u32>,
    /// Generation of the loaded commit header.
    pub generation: u64,
    /// The largest per-vector scale the format admits.
    pub max_scale: u32,
}

/// Why an image or a chunk of it cannot be served.
#[derive(Debug, Clone, Copy, PartialEq, Eq, Structural)]
pub enum ImageError {
    /// Only positional images are served.
    NotPositional,
    /// A block unit ends behind the file.
    TruncatedUnit(usize),
    /// A scale of a block is not one an encoder emits.
    InvalidBlockScale(usize),
    /// A scale in a pending write is not one an encoder emits.
    InvalidOpScale,
    /// The commit header holds fewer rows than the partial block has.
    TruncatedTail,
    /// A scale in the commit header is not one an encoder emits.
    InvalidTailScale,
    /// The blocks of a chunk hold fewer rows than were asked for.
    MissingRows {
        /// First row of the chunk.
        base: usize,
        /// Rows found.
        got: usize,
        /// Rows asked for.
        live: usize,
    },
}

impl ImageError {
    /// The message text for an image that came from `src`.
    pub open spec fn text(self, src: Seq<char>) -> Seq<char> {
        match self {
            ImageError::NotPositional => "mapped serving covers positional images (kind 0) only"@,
            ImageError::TruncatedUnit(b) => src + ": truncated block unit "@ + digits(b as nat),
            ImageError::InvalidBlockScale(b) => src + ": invalid per-vector scale in block "@
                + digits(b as nat),
            ImageError::InvalidOpScale => src + ": invalid per-vector scale in a pending op"@,
            ImageError::TruncatedTail => src + ": truncated commit tail"@,
            ImageError::InvalidTailScale => src + ": invalid per-vector scale in the commit tail"@,
            ImageError::MissingRows { base, got, live } => src + ": chunk at "@ + digits(
                base as nat,
            ) + " holds "@ + digits(got as nat) + " scales for "@ + digits(live as nat)
                + " rows"@,
        }
    }

    /// Render the message for an image that came from `src`.
    pub fn message(&self, src: &str) -> (r: String)
        ensures
            r@ == self.text(src@),
    {
        if let ImageError::NotPositional = self {
            return String::from_str("mapped serving covers positional images (kind 0) only");
        }
        let mut text = String::from_str(src);
        match self {
            ImageError::NotPositional => {},
            ImageError::TruncatedUnit(b) => {
                text.append(": truncated block unit ");
                push_number(&mut text, *b as u64);
            },
            ImageError::InvalidBlockScale(b) => {
                text.append(": invalid per-vector scale in block ");
                push_number(&mut text, *b as u64);
            },
            ImageError::InvalidOpScale => {
                text.append(": invalid per-vector scale in a pending op");
            },
            ImageError::TruncatedTail => {
                text.append(": truncated commit tail");
            },
            ImageError::InvalidTailScale => {
                text.append(": invalid per-vector scale in the commit tail");
            },
            ImageError::MissingRows { base, got, live } => {
                text.append(": chunk at ");
                push_number(&mut text, *base as u64);
                text.append(" holds ");
                push_number(&mut text, *got as u64);
                text.append(" scales for ");
                push_number(&mut text, *live as u64);
                text.append(" rows");
            },
        }
        text
    }
}

/// The number stored little-endian at `at`.
pub open spec fn le32(bytes: Seq<u8>, at: int) -> u32 {
    (bytes[at] + 256 * bytes[at + 1] + 65536 * bytes[at + 2] + 16777216 * bytes[at + 3]) as u32
}

fn read_le32(bytes: &[u8], at: usize) -> (r: u32)
    requires
        at + 4 <= bytes@.len(),
    ensures
        r == le32(bytes@, at as int),
{
    assert(bytes.len() == bytes@.len());
    let a: u32 = bytes[at] as u32;
    let b: u32 = bytes[at + 1] as u32;
    let c: u32 = bytes[at + 2] as u32;
    let d: u32 = bytes[at + 3] as u32;
    a + 256 * b + 65536 * c + 16777216 * d
}

/// A scale that is not finite, negative, or larger than the format admits.
pub open spec fn bad_image_scale(v: u32, max: u32) -> bool {
    !finite(v) || !(less_eq(ZERO, v) && less_eq(v, max))
}

fn scale_is_bad(v: u32, max: u32) -> (r: bool)
    ensures
        r == bad_image_scale(v, max),
{
    !is_finite(v) || !(is_less_eq(ZERO, v) && is_less_eq(v, max))
}

/// The pending writes of block `b`: those of the first entry that names it.
pub open spec fn block_ops(all: Seq<BlockOps>, b: int) -> Seq<RedoOp>
    decreases all.len(),
{
    if all.len() == 0 {
        Seq::empty()
    } else if all[0].block == b {
        all[0].ops@
    } else {
        block_ops(all.drop_first(), b)
    }
}

/// The codes and scales of one block.
pub type BlockRows = (Seq<u8>, Seq<u32>);

/// A block after the first `k` of `ops`, or nothing when one of them carries a bad
/// scale. A later write to a lane replaces an earlier one.
pub open spec fn redone(
    codes: Seq<u8>,
    scales: Seq<u32>,
    ops: Seq<RedoOp>,
    row_bytes: int,
    max: u32,
    k: int,
) -> Option<BlockRows>
    decreases k,
{
    if k <= 0 {
        Some((codes, scales))
    } else {
        let payload = ops[k - 1].payload@;
        let lane = ops[k - 1].slot as int % 32;
        let scale = le32(payload, row_bytes);
        match redone(codes, scales, ops, row_bytes, max, k - 1) {
            Some((c, s)) => if bad_image_scale(scale, max) {
                None
            } else {
                Some((lane_written(c, row_bytes, lane, payload, 0), s.update(lane, scale)))
            },
            None => None,
        }
    }
}

/// The scales a block unit stores behind `codes_len` bytes of codes.
pub open spec fn unit_scales(unit: Seq<u8>, codes_len: int) -> Seq<u32> {
    Seq::new(32, |lane: int| le32(unit, codes_len + 4 * lane))
}

/// Row `k` of the commit header's tail.
pub open spec fn tail_payload(tail: Seq<u8>, tail_row: int, k: int) -> Seq<u8> {
    tail.subrange(k * tail_row, k * tail_row + tail_row)
}

/// The partial block holding the first `k` tail rows.
pub open spec fn tail_rows(
    tail: Seq<u8>,
    tail_row: int,
    row_bytes: int,
    max: u32,
    k: int,
) -> Result<BlockRows, ImageError>
    decreases k,
{
    if k <= 0 {
        Ok((Seq::new(block_bytes(row_bytes) as nat, |p: int| 0u8), Seq::empty()))
    } else {
        match tail_rows(tail, tail_row, row_bytes, max, k - 1) {
            Ok((c, s)) => {
                let payload = tail_payload(tail, tail_row, k - 1);
                if k * tail_row > tail.len() {
                    Err(ImageError::TruncatedTail)
                } else if bad_image_scale(le32(payload, row_bytes), max) {
                    Err(ImageError::InvalidTailScale)
                } else {
                    Ok(
                        (
                            lane_written(c, row_bytes, k - 1, payload, 0),
                            s.push(le32(payload, row_bytes)),
                        ),
                    )
                }
            },
            Err(e) => Err(e),
        }
    }
}

impl ParsedImage {
    /// The parts are large enough for everything that can be read out of them.
    pub open spec fn consistent(self) -> bool {
        &&& self.geo.units@.len() >= self.n_blocks
        &&& self.geo.unit_len >= block_bytes(self.geo.row_bytes as int) + 128
        &&& self.tail_row >= self.geo.row_bytes + 4
        &&& forall|i: int, j: int|
            0 <= i < self.ops@.len() && 0 <= j < self.ops@[i].ops@.len() ==> (
            #[trigger] self.ops@[i].ops@[j]).payload@.len() >= self.geo.row_bytes + 4
    }

    /// The parts are large enough for what is read of block `b`: a unit inside the
    /// file holds 32 rows of codes and as many scales, and each of its pending
    /// writes a whole row; so does each row of the tail.
    pub open spec fn block_readable(self, bytes: Seq<u8>, b: int) -> bool {
        let row_bytes = self.geo.row_bytes as int;
        if b < self.n_blocks {
            let ops = block_ops(self.ops@, b);
            &&& b < self.geo.units@.len()
            &&& self.geo.units@[b] + self.geo.unit_len <= bytes.len() ==> {
                &&& self.geo.unit_len >= block_bytes(row_bytes) + 128
                &&& forall|j: int|
                    0 <= j < ops.len() ==> (#[trigger] ops[j]).payload@.len() >= row_bytes + 4
            }
        } else {
            self.n_vectors as int % 32 > 0 ==> self.tail_row >= row_bytes + 4
        }
    }

    /// Block `b` of the image: a committed unit with its pending writes applied,
    /// or the partial block that the commit header carries.
    pub open spec fn block(self, bytes: Seq<u8>, b: int) -> Result<BlockRows, ImageError> {
        let row_bytes = self.geo.row_bytes as int;
        let codes_len = block_bytes(row_bytes);
        if b < self.n_blocks {
            let at = self.geo.units@[b];
            let unit = bytes.subrange(at as int, at + self.geo.unit_len);
            let scales = unit_scales(unit, codes_len);
            let ops = block_ops(self.ops@, b);
            if at + self.geo.unit_len > bytes.len() {
                Err(ImageError::TruncatedUnit(b as usize))
            } else if exists|lane: int|
                0 <= lane < 32 && bad_image_scale(#[trigger] scales[lane], self.max_scale) {
                Err(ImageError::InvalidBlockScale(b as usize))
            } else {
                match redone(
                    unit.take(codes_len),
                    scales,
                    ops,
                    row_bytes,
                    self.max_scale,
                    ops.len() as int,
                ) {
                    Some(rows) => Ok(rows),
                    None => Err(ImageError::InvalidOpScale),
                }
            }
        } else {
            tail_rows(
                self.tail@,
                self.tail_row as int,
                row_bytes,
                self.max_scale,
                self.n_vectors as int % 32,
            )
        }
    }

    /// `count` blocks from `first` on, end to end, or the first error among them.
    pub open spec fn gathered(self, bytes: Seq<u8>, first: int, count: int) -> Result<
        BlockRows,
        ImageError,
    >
        decreases count,
    {
        if count <= 0 {
            Ok((Seq::empty(), Seq::empty()))
        } else {
            match self.gathered(bytes, first, count - 1) {
                Ok((codes, scales)) => match self.block(bytes, first + count - 1) {
                    Ok((c, s)) => Ok((codes + c, scales + s)),
                    Err(e) => Err(e),
                },
                Err(e) => Err(e),
            }
        }
    }

    /// The parts are large enough for every block that gathering `count` blocks from
    /// `first` on comes to.
    pub open spec fn readable(self, bytes: Seq<u8>, first: int, count: int) -> bool {
        forall|i: int|
            0 <= i < count && (#[trigger] self.gathered(bytes, first, i)) is Ok
                ==> self.block_readable(bytes, first + i)
    }

    /// The chunk of `live` rows from row `base`, in the layout the file stores:
    /// whole blocks of codes, and the scales of the rows asked for.
    pub open spec fn chunk(self, bytes: Seq<u8>, base: int, live: int) -> Result<
        BlockRows,
        ImageError,
    > {
        match self.gathered(bytes, base / 32, blocks(live)) {
            Ok((codes, scales)) => if scales.len() < live {
                Err(
                    ImageError::MissingRows {
                        base: base as usize,
                        got: scales.len() as usize,
                        live: live as usize,
                    },
                )
            } else {
                Ok((codes, scales.take(live)))
            },
            Err(e) => Err(e),
        }
    }
}

/// An image that is open for reading.
#[derive(Debug)]
pub struct MappedImage {
    pub(crate) image: ParsedImage,
}

/// Whether every pending write carries a whole row.
fn payloads_ok(all: &Vec<BlockOps>, least: usize) -> (r: bool)
    ensures
        r == (forall|i: int, j: int|
            0 <= i < all@.len() && 0 <= j < all@[i].ops@.len() ==> (
            #[trigger] all@[i].ops@[j]).payload@.len() >= least),
{
    let n: usize = all.len();
    let mut i: usize = 0;
    while i < n
        invariant
            i <= n,
            n == all@.len(),
            forall|a: int, j: int|
                0 <= a < i && 0 <= j < all@[a].ops@.len() ==> (
                #[trigger] all@[a].ops@[j]).payload@.len() >= least,
        decreases n - i,
    {
        let m: usize = all[i].ops.len();
        let mut j: usize = 0;
        while j < m
            invariant
                i < n,
                n == all@.len(),
                j <= m,
                m == all@[i as int].ops@.len(),
                forall|c: int|
                    0 <= c < j ==> (#[trigger] all@[i as int].ops@[c]).payload@.len() >= least,
            decreases m - j,
        {
            if all[i].ops[j].payload.len() < least {
                assert(all@[i as int].ops@[j as int].payload@.len() < least);
                return false;
            }
            j = j + 1;
        }
        i = i + 1;
    }
    true
}

impl MappedImage {
    /// What the headers of the open image say.
    pub open(crate) spec fn view(&self) -> ParsedImage {
        self.image
    }

    /// Open a parsed image for reading. Only a positional image can be served.
    pub fn open(parsed: ParsedImage) -> (r: Result<MappedImage, ImageError>)
        ensures
            match r {
                Ok(image) => parsed.kind == 0 && image@ == parsed,
                Err(e) => parsed.kind != 0 && e == ImageError::NotPositional,
            },
    {
        if parsed.kind != 0 {
            return Err(ImageError::NotPositional);
        }
        Ok(MappedImage { image: parsed })
    }

    /// Whether the headers are large enough for everything that can be read out of
    /// them.
    pub fn is_consistent(&self) -> (r: bool)
        ensures
            r == self@.consistent(),
    {
        let image = &self.image;
        let row_bytes: usize = image.geo.row_bytes;
        let least: usize = match row_bytes.checked_add(4) {
            Some(least) => least,
            None => {
                return false;
            },
        };
        let unit: usize = match row_bytes.checked_mul(32) {
            Some(codes) => match codes.checked_add(128) {
                Some(unit) => unit,
                None => {
                    return false;
                },
            },
            None => {
                return false;
            },
        };
        image.geo.units.len() >= image.n_blocks && image.geo.unit_len >= unit && image.tail_row
            >= least && payloads_ok(&image.ops, least)
    }
}

/// Consistent headers are large enough for every chunk.
pub proof fn lemma_consistent_readable(image: ParsedImage, bytes: Seq<u8>, first: int, count: int)
    requires
        image.consistent(),
    ensures
        image.readable(bytes, first, count),
{
    assert forall|i: int|
        0 <= i < count && (#[trigger] image.gathered(bytes, first, i)) is Ok implies
        image.block_readable(bytes, first + i) by {
        lemma_block_ops_payloads(image.ops@, first + i, image.geo.row_bytes + 4);
    }
}

proof fn lemma_block_ops_payloads(all: Seq<BlockOps>, b: int, least: int)
    requires
        forall|i: int, j: int|
            0 <= i < all.len() && 0 <= j < all[i].ops@.len() ==> (
            #[trigger] all[i].ops@[j]).payload@.len() >= least,
    ensures
        forall|j: int|
            0 <= j < block_ops(all, b).len() ==> (#[trigger] block_ops(
                all,
                b,
            )[j]).payload@.len() >= least,
    decreases all.len(),
{
    if all.len() > 0 {
        if all[0].block == b {
            assert forall|j: int| 0 <= j < block_ops(all, b).len() implies (#[trigger] block_ops(
                all,
                b,
            )[j]).payload@.len() >= least by {
                assert(all[0].ops@[j].payload@.len() >= least);
            }
        } else {
            let rest = all.drop_first();
            assert forall|i: int, j: int|
                0 <= i < rest.len() && 0 <= j < rest[i].ops@.len() implies (
            #[trigger] rest[i].ops@[j]).payload@.len() >= least by {
                assert(all[i + 1].ops@[j].payload@.len() >= least);
            }
            lemma_block_ops_payloads(rest, b, least);
            assert(block_ops(all, b) == block_ops(rest, b));
        }
    }
}

/// A block that was read agrees with what the image says of it.
pub open spec fn same_rows(
    read: Result<(Vec<u8>, Vec<u32>), ImageError>,
    said: Result<BlockRows, ImageError>,
) -> bool {
    match (read, said) {
        (Ok((codes, scales)), Ok((c, s))) => codes@ == c && scales@ == s,
        (Err(e), Err(expected)) => e == expected,
        _ => false,
    }
}

proof fn lemma_redone_none(
    codes: Seq<u8>,
    scales: Seq<u32>,
    ops: Seq<RedoOp>,
    row_bytes: int,
    max: u32,
    k: int,
    end: int,
)
    requires
        0 <= k <= end,
        redone(codes, scales, ops, row_bytes, max, k) is None,
    ensures
        redone(codes, scales, ops, row_bytes, max, end) is None,
    decreases end - k,
{
    if k < end {
        lemma_redone_none(codes, scales, ops, row_bytes, max, k + 1, end);
    }
}

proof fn lemma_tail_rows_err(
    tail: Seq<u8>,
    tail_row: int,
    row_bytes: int,
    max: u32,
    k: int,
    end: int,
)
    requires
        0 <= k <= end,
        tail_rows(tail, tail_row, row_bytes, max, k) is Err,
    ensures
        tail_rows(tail, tail_row, row_bytes, max, end) == tail_rows(
            tail,
            tail_row,
            row_bytes,
            max,
            k,
        ),
    decreases end - k,
{
    if k < end {
        lemma_tail_rows_err(tail, tail_row, row_bytes, max, k + 1, end);
    }
}

impl MappedImage {
    /// Apply the pending writes of block `b` to its codes and scales. Returns
    /// whether every one of them carries a usable scale.
    fn redo(&self, b: usize, codes: &mut Vec<u8>, scales: &mut Vec<u32>) -> (done: bool)
        requires
            forall|j: int|
                0 <= j < block_ops(self@.ops@, b as int).len() ==> (#[trigger] block_ops(
                    self@.ops@,
                    b as int,
                )[j]).payload@.len() >= self@.geo.row_bytes + 4,
            old(codes)@.len() == block_bytes(self@.geo.row_bytes as int),
            old(scales)@.len() == 32,
        ensures
            ({
                let ops = block_ops(self@.ops@, b as int);
                match redone(
                    old(codes)@,
                    old(scales)@,
                    ops,
                    self@.geo.row_bytes as int,
                    self@.max_scale,
                    ops.len() as int,
                ) {
                    Some((c, s)) => done && final(codes)@ == c && final(scales)@ == s,
                    None => !done,
                }
            }),
    {
        let image = &self.image;
        let row_bytes: usize = image.geo.row_bytes;
        let n: usize = image.ops.len();
        let mut i: usize = 0;
        assert(image.ops@.skip(0) =~= image.ops@);
        while i < n && image.ops[i].block != b
            invariant
                i <= n,
                n == image.ops@.len(),
                block_ops(image.ops@, b as int) == block_ops(image.ops@.skip(i as int), b as int),
            decreases n - i,
        {
            assert(image.ops@.skip(i as int).drop_first() =~= image.ops@.skip(i + 1));
            i = i + 1;
        }
        if i == n {
            return true;
        }
        let ops = &image.ops[i].ops;
        assert(image.ops@.skip(i as int)[0] == image.ops@[i as int]);
        let m: usize = ops.len();
        let mut k: usize = 0;
        while k < m
            invariant
                k <= m,
                m == ops@.len(),
                row_bytes == image.geo.row_bytes,
                forall|j: int|
                    0 <= j < ops@.len() ==> (#[trigger] ops@[j]).payload@.len() >= row_bytes + 4,
                image == self.image,
                ops@ == block_ops(self@.ops@, b as int),
                codes@.len() == block_bytes(row_bytes as int),
                scales@.len() == 32,
                redone(
                    old(codes)@,
                    old(scales)@,
                    ops@,
                    row_bytes as int,
                    image.max_scale,
                    k as int,
                ) == Some((codes@, scales@)),
            decreases m - k,
        {
            let lane: usize = ops[k].slot % 32;
            let payload = &ops[k].payload;
            assert(ops@[k as int].payload@.len() >= row_bytes + 4);
            assert(payload.len() == payload@.len());
            let scale: u32 = read_le32(payload.as_slice(), row_bytes);
            if scale_is_bad(scale, image.max_scale) {
                proof {
                    lemma_redone_none(
                        old(codes)@,
                        old(scales)@,
                        ops@,
                        row_bytes as int,
                        image.max_scale,
                        k + 1,
                        m as int,
                    );
                }
                return false;
            }
            proof {
                assert(blocked_len(32, row_bytes as int) == block_bytes(row_bytes as int));
            }
            write_lane(codes, row_bytes, 32, lane, payload.as_slice(), 0);
            scales[lane] = scale;
            k = k + 1;
        }
        true
    }

    /// Read a committed block out of its unit.
    fn unit_block(&self, bytes: &[u8], b: usize) -> (r: Result<(Vec<u8>, Vec<u32>), ImageError>)
        requires
            b < self@.n_blocks,
            self@.block_readable(bytes@, b as int),
        ensures
            same_rows(r, self@.block(bytes@, b as int)),
    {
        let image = &self.image;
        let row_bytes: usize = image.geo.row_bytes;
        let at: usize = image.geo.units[b];
        let total: usize = bytes.len();
        let end: usize = match at.checked_add(image.geo.unit_len) {
            Some(end) => end,
            None => {
                return Err(ImageError::TruncatedUnit(b));
            },
        };
        if end > total {
            return Err(ImageError::TruncatedUnit(b));
        }
        let codes_len: usize = 32 * row_bytes;
        let unit = vstd::slice::slice_subrange(bytes, at, end);
        let mut codes: Vec<u8> = Vec::new();
        codes.extend_from_slice(vstd::slice::slice_subrange(unit, 0, codes_len));
        assert(codes@ =~= unit@.take(codes_len as int));
        let ghost stored = unit_scales(unit@, codes_len as int);
        let mut scales: Vec<u32> = Vec::new();
        let mut lane: usize = 0;
        while lane < 32
            invariant
                lane <= 32,
                b < image.n_blocks,
                codes_len == block_bytes(row_bytes as int),
                unit@.len() >= codes_len + 128,
                unit@.len() <= usize::MAX,
                stored == unit_scales(unit@, codes_len as int),
                scales@ == stored.take(lane as int),
                forall|l: int|
                    0 <= l < lane ==> !bad_image_scale(#[trigger] stored[l], image.max_scale),
                image == self.image,
                at == image.geo.units@[b as int],
                at + image.geo.unit_len <= bytes@.len(),
                unit@ == bytes@.subrange(at as int, at + image.geo.unit_len),
                row_bytes == image.geo.row_bytes,
            decreases 32 - lane,
        {
            let scale: u32 = read_le32(unit, codes_len + lane * 4);
            assert(scale == stored[lane as int]);
            if scale_is_bad(scale, image.max_scale) {
                return Err(ImageError::InvalidBlockScale(b));
            }
            scales.push(scale);
            lane = lane + 1;
            assert(scales@ =~= stored.take(lane as int));
        }
        assert(scales@ =~= stored);
        if !self.redo(b, &mut codes, &mut scales) {
            return Err(ImageError::InvalidOpScale);
        }
        Ok((codes, scales))
    }

    /// Read the partial last block out of the commit header.
    fn tail_block(&self, bytes: &[u8], b: usize) -> (r: Result<(Vec<u8>, Vec<u32>), ImageError>)
        requires
            b >= self@.n_blocks,
            self@.block_readable(bytes@, b as int),
            block_bytes(self@.geo.row_bytes as int) <= usize::MAX,
        ensures
            same_rows(r, self@.block(bytes@, b as int)),
    {
        let image = &self.image;
        let row_bytes: usize = image.geo.row_bytes;
        let tail_row: usize = image.tail_row;
        let n_tail: usize = image.n_vectors % 32;
        let mut codes: Vec<u8> = vec![0u8; 32 * row_bytes];
        let mut scales: Vec<u32> = Vec::new();
        assert(codes@ =~= Seq::new(block_bytes(row_bytes as int) as nat, |p: int| 0u8));
        assert(scales@ =~= Seq::<u32>::empty());
        let mut k: usize = 0;
        let mut at: usize = 0;
        while k < n_tail
            invariant
                k <= n_tail < 32,
                image == self.image,
                n_tail > 0 ==> tail_row >= row_bytes + 4,
                b >= image.n_blocks,
                n_tail == image.n_vectors as int % 32,
                row_bytes == image.geo.row_bytes,
                tail_row == image.tail_row,
                at == k * tail_row,
                codes@.len() == block_bytes(row_bytes as int),
                tail_rows(
                    image.tail@,
                    tail_row as int,
                    row_bytes as int,
                    image.max_scale,
                    k as int,
                ) == Ok::<BlockRows, ImageError>((codes@, scales@)),
            decreases n_tail - k,
        {
            let have: usize = image.tail.len();
            proof {
                assert((k + 1) * tail_row == k * tail_row + tail_row) by (nonlinear_arith);
            }
            let end: Option<usize> = at.checked_add(tail_row);
            let whole: bool = match end {
                Some(end) => end <= have,
                None => false,
            };
            if !whole {
                proof {
                    lemma_tail_rows_err(
                        image.tail@,
                        tail_row as int,
                        row_bytes as int,
                        image.max_scale,
                        k + 1,
                        n_tail as int,
                    );
                }
                return Err(ImageError::TruncatedTail);
            }
            let row = vstd::slice::slice_subrange(image.tail.as_slice(), at, at + tail_row);
            assert(row@ == tail_payload(image.tail@, tail_row as int, k as int));
            let scale: u32 = read_le32(row, row_bytes);
            if scale_is_bad(scale, image.max_scale) {
                proof {
                    lemma_tail_rows_err(
                        image.tail@,
                        tail_row as int,
                        row_bytes as int,
                        image.max_scale,
                        k + 1,
                        n_tail as int,
                    );
                }
                return Err(ImageError::InvalidTailScale);
            }
            proof {
                assert(blocked_len(32, row_bytes as int) == block_bytes(row_bytes as int));
            }
            write_lane(&mut codes, row_bytes, 32, k, row, 0);
            scales.push(scale);
            k = k + 1;
            at = at + tail_row;
        }
        Ok((codes, scales))
    }

    /// Gather the chunk of `live` rows from row `base` out of the file's bytes, in
    /// the layout the file stores.
    fn gather(&self, bytes: &[u8], base: usize, live: usize) -> (r: Result<Chunk, ImageError>)
        requires
            self@.readable(bytes@, base as int / 32, blocks(live as int)),
            blocked_len(live as int, self@.geo.row_bytes as int) <= usize::MAX,
        ensures
            match (r, self@.chunk(bytes@, base as int, live as int)) {
                (Ok(chunk), Ok((codes, scales))) => chunk.codes@ == codes && chunk.scales@
                    == scales,
                (Err(e), Err(expected)) => e == expected,
                _ => false,
            },
    {
        let first: usize = base / 32;
        let count: usize = blocks_for(live);
        let mut codes: Vec<u8> = Vec::new();
        let mut scales: Vec<u32> = Vec::new();
        assert(codes@ =~= Seq::<u8>::empty());
        assert(scales@ =~= Seq::<u32>::empty());
        let mut i: usize = 0;
        while i < count
            invariant
                i <= count,
                count == blocks(live as int),
                first == base / 32,
                self@.readable(bytes@, first as int, count as int),
                blocked_len(live as int, self@.geo.row_bytes as int) <= usize::MAX,
                self@.gathered(bytes@, first as int, i as int) == Ok::<BlockRows, ImageError>(
                    (codes@, scales@),
                ),
            decreases count - i,
        {
            let b: usize = first + i;
            proof {
                assert(self@.gathered(bytes@, first as int, i as int) is Ok);
                let bb = block_bytes(self@.geo.row_bytes as int);
                assert(bb <= count * bb) by (nonlinear_arith)
                    requires
                        1 <= count,
                        0 <= bb,
                ;
            }
            let read = if b < self.image.n_blocks {
                self.unit_block(bytes, b)
            } else {
                self.tail_block(bytes, b)
            };
            let ghost before = (codes@, scales@);
            match read {
                Ok((block_codes, block_scales)) => {
                    codes.extend_from_slice(block_codes.as_slice());
                    scales.extend_from_slice(block_scales.as_slice());
                    assert(codes@ =~= before.0 + block_codes@);
                    assert(scales@ =~= before.1 + block_scales@);
                    assert(self@.block(bytes@, first + (i + 1) - 1)
                        == Ok::<BlockRows, ImageError>((block_codes@, block_scales@)));
                },
                Err(e) => {
                    proof {
                        lemma_gathered_err(self@, bytes@, first as int, i + 1, count as int);
                    }
                    return Err(e);
                },
            }
            i = i + 1;
        }
        let got: usize = scales.len();
        if got < live {
            return Err(ImageError::MissingRows { base, got, live });
        }
        scales.truncate(live);
        Ok(Chunk { codes, scales })
    }

    /// The chunk of `live` rows from row `base`, gathered out of the file's bytes
    /// and brought into the layout a scan reads by `to_native`.
    pub fn assemble<N: Fn(Vec<u8>) -> Vec<u8>>(
        &self,
        bytes: &[u8],
        base: usize,
        live: usize,
        to_native: &N,
    ) -> (r: Result<Chunk, ImageError>)
        requires
            self@.readable(bytes@, base as int / 32, blocks(live as int)),
            blocked_len(live as int, self@.geo.row_bytes as int) <= usize::MAX,
            forall|codes: Vec<u8>| call_requires(*to_native, (codes,)),
        ensures
            match r {
                Ok(chunk) => self@.is_chunk(
                    bytes@,
                    base as int,
                    live as int,
                    native_by(*to_native),
                    chunk,
                ),
                Err(e) => self@.chunk(bytes@, base as int, live as int) == Err::<
                    BlockRows,
                    ImageError,
                >(e),
            },
    {
        match self.gather(bytes, base, live) {
            Ok(stored) => {
                let Chunk { codes, scales } = stored;
                let ghost gathered = codes;
                let native = to_native(codes);
                proof {
                    assert(call_ensures(*to_native, (gathered,), native));
                    assert(transformed(*to_native, gathered@, native@));
                }
                Ok(Chunk { codes: native, scales })
            },
            Err(e) => Err(e),
        }
    }
}

proof fn lemma_gathered_err(image: ParsedImage, bytes: Seq<u8>, first: int, k: int, end: int)
    requires
        0 <= k <= end,
        image.gathered(bytes, first, k) is Err,
    ensures
        image.gathered(bytes, first, end) == image.gathered(bytes, first, k),
    decreases end - k,
{
    if k < end {
        lemma_gathered_err(image, bytes, first, k + 1, end);
    }
}

proof fn lemma_redone_len(
    codes: Seq<u8>,
    scales: Seq<u32>,
    ops: Seq<RedoOp>,
    row_bytes: int,
    max: u32,
    k: int,
)
    requires
        scales.len() == 32,
    ensures
        redone(codes, scales, ops, row_bytes, max, k) matches Some((c, s)) ==> c.len()
            == codes.len() && s.len() == 32,
    decreases k,
{
    if k > 0 {
        lemma_redone_len(codes, scales, ops, row_bytes, max, k - 1);
    }
}

proof fn lemma_tail_rows_len(tail: Seq<u8>, tail_row: int, row_bytes: int, max: u32, k: int)
    requires
        0 <= row_bytes,
        0 <= k,
    ensures
        tail_rows(tail, tail_row, row_bytes, max, k) matches Ok((c, s)) ==> c.len() == block_bytes(
            row_bytes,
        ) && s.len() == k,
    decreases k,
{
    if k > 0 {
        lemma_tail_rows_len(tail, tail_row, row_bytes, max, k - 1);
    }
}

/// A block holds 32 rows of codes, padding included; a committed one holds 32
/// scales and the partial one as many as there are rows behind the last whole
/// block.
pub proof fn lemma_block_len(image: ParsedImage, bytes: Seq<u8>, b: int)
    requires
        image.block_readable(bytes, b),
        0 <= b,
    ensures
        image.block(bytes, b) matches Ok((codes, scales)) ==> {
            &&& codes.len() == block_bytes(image.geo.row_bytes as int)
            &&& scales.len() == if b < image.n_blocks {
                32
            } else {
                image.n_vectors as int % 32
            }
        },
{
    let row_bytes = image.geo.row_bytes as int;
    if b < image.n_blocks {
        let at = image.geo.units@[b];
        let unit = bytes.subrange(at as int, at + image.geo.unit_len);
        let ops = block_ops(image.ops@, b);
        lemma_redone_len(
            unit.take(block_bytes(row_bytes)),
            unit_scales(unit, block_bytes(row_bytes)),
            ops,
            row_bytes,
            image.max_scale,
            ops.len() as int,
        );
    } else {
        lemma_tail_rows_len(
            image.tail@,
            image.tail_row as int,
            row_bytes,
            image.max_scale,
            image.n_vectors as int % 32,
        );
    }
}

/// Gathered blocks hold 32 rows of codes each.
pub proof fn lemma_gathered_len(image: ParsedImage, bytes: Seq<u8>, first: int, count: int)
    requires
        image.readable(bytes, first, count),
        0 <= first,
        0 <= count,
    ensures
        image.gathered(bytes, first, count) matches Ok((codes, scales)) ==> codes.len() == count
            * block_bytes(image.geo.row_bytes as int),
    decreases count,
{
    let bb = block_bytes(image.geo.row_bytes as int);
    if count > 0 {
        lemma_gathered_len(image, bytes, first, count - 1);
        if image.gathered(bytes, first, count) is Ok {
            assert(image.gathered(bytes, first, count - 1) is Ok);
            lemma_block_len(image, bytes, first + count - 1);
        }
        assert(count * bb == (count - 1) * bb + bb) by (nonlinear_arith);
    } else {
        assert(0 * bb == 0);
    }
}

impl ParsedImage {
    /// `chunk` is the chunk of `live` rows from `base`, its codes laid out as
    /// `is_native` relates them to the stored ones.
    pub open spec fn is_chunk(
        self,
        bytes: Seq<u8>,
        base: int,
        live: int,
        is_native: spec_fn(Seq<u8>, Seq<u8>) -> bool,
        chunk: Chunk,
    ) -> bool {
        match self.chunk(bytes, base, live) {
            Ok((codes, scales)) => is_native(codes, chunk.codes@) && chunk.scales@ == scales,
            Err(_) => false,
        }
    }

    /// Every cached chunk is one of this image.
    pub open spec fn fills(
        self,
        bytes: Seq<u8>,
        is_native: spec_fn(Seq<u8>, Seq<u8>) -> bool,
        entries: Seq<Cached>,
    ) -> bool {
        forall|i: int|
            0 <= i < entries.len() ==> self.is_chunk(
                bytes,
                (#[trigger] entries[i]).0 as int,
                entries[i].1 as int,
                is_native,
                entries[i].2,
            )
    }
}

impl MappedImage {
    /// The chunk of `live` rows from row `base`, a block boundary: from the cache,
    /// or gathered out of the file's bytes, brought into the layout a scan reads by
    /// `to_native`, and then cached.
    pub fn chunk<N: Fn(Vec<u8>) -> Vec<u8>>(
        &self,
        bytes: &[u8],
        cache: &mut PagedCache,
        base: usize,
        live: usize,
        to_native: &N,
    ) -> (r: Result<Arc<Chunk>, ImageError>)
        requires
            self@.readable(bytes@, base as int / 32, blocks(live as int)),
            old(cache).wf(),
            base % 32 == 0,
            total(old(cache)@) + blocked_len(live as int, self@.geo.row_bytes as int) + 4 * live
                <= usize::MAX,
            forall|codes: Vec<u8>| call_requires(*to_native, (codes,)),
            forall|codes: Vec<u8>, native: Vec<u8>|
                call_ensures(*to_native, (codes,), native) ==> native@.len() == codes@.len(),
        ensures
            final(cache).wf(),
            final(cache).budget() == old(cache).budget(),
            match position(old(cache)@, base, live) {
                Some(i) => {
                    &&& r matches Ok(chunk)
                    &&& *chunk == old(cache)@[i].2
                    &&& final(cache)@ == touched(old(cache)@, base, live)
                },
                None => match r {
                    Ok(chunk) => {
                        &&& self@.is_chunk(
                            bytes@,
                            base as int,
                            live as int,
                            native_by(*to_native),
                            *chunk,
                        )
                        &&& final(cache)@ == inserted(
                            old(cache)@,
                            old(cache).budget(),
                            base,
                            live,
                            *chunk,
                        )
                    },
                    Err(e) => {
                        &&& self@.chunk(bytes@, base as int, live as int) == Err::<
                            BlockRows,
                            ImageError,
                        >(e)
                        &&& final(cache)@ == old(cache)@
                    },
                },
            },
    {
        proof {
            lemma_total_nonnegative(cache@);
        }
        if let Some(chunk) = cache.get(base, live) {
            return Ok(chunk);
        }
        let chunk = match self.assemble(bytes, base, live, to_native) {
            Ok(chunk) => chunk,
            Err(e) => {
                return Err(e);
            },
        };
        proof {
            lemma_gathered_len(self@, bytes@, base as int / 32, blocks(live as int));
        }
        let chunk = Arc::new(chunk);
        cache.insert(base, live, Arc::clone(&chunk));
        Ok(chunk)
    }

    /// Dim of the image's vectors.
    pub fn dim(&self) -> (r: usize)
        ensures
            r == self@.dim,
    {
        self.image.dim
    }

    /// Bits per coordinate.
    pub fn bit_width(&self) -> (r: usize)
        ensures
            r == self@.bit_width,
    {
        self.image.bit_width
    }

    /// Number of rows.
    pub fn n_vectors(&self) -> (r: usize)
        ensures
            r == self@.n_vectors,
    {
        self.image.n_vectors
    }

    /// The calibration as its shift and scale halves.
    pub fn calibration(&self) -> (r: (&[u32], &[u32]))
        ensures
            r.0@ == self@.tqplus_shift@,
            r.1@ == self@.tqplus_scale@,
    {
        (self.image.tqplus_shift.as_slice(), self.image.tqplus_scale.as_slice())
    }

    /// Generation of the commit header the image was opened at.
    pub fn generation(&self) -> (r: u64)
        ensures
            r == self@.generation,
    {
        self.image.generation
    }
}

} // verus!
