//! What a served image holds, row by row, in plain numbers.
use crate::blocked::block_bytes;
use crate::laws::numbers::{beyond_infinity, law_accepted_numbers, place, usable_scale};
use crate::laws::serving::law_chunk_holds_the_blocks;
use crate::laws::sizes::{lane_byte, law_blocked_size, law_single_lanes, whole_blocks};
use crate::mapped::{
    block_ops, le32, lemma_block_len, lemma_consistent_readable, redone, tail_payload, tail_rows,
    unit_scales, BlockOps, ImageError, ParsedImage, RedoOp,
};
use crate::paged_cache::{
    evicted, inserted, lemma_evicted, lemma_position_from, position, total, touched, Cached, Chunk,
};
use crate::rows::lemma_row_fits;
use crate::work::{native_by, transformed};
use vstd::prelude::*;

verus! {

/// A scale that an image may hold: accepted, and no larger than its format admits.
pub open spec fn admitted(v: u32, max: u32) -> bool {
    usable_scale(v) && !beyond_infinity(max) && place(v) <= place(max)
}

/// The headers of an image are large enough: a unit for each whole block, in each unit
/// 32 rows of codes and 32 scales of four bytes, and a row of codes with its scale in
/// each tail row and each pending write.
pub open spec fn large_enough(image: ParsedImage) -> bool {
    let row = image.geo.row_bytes;
    &&& image.n_blocks <= image.geo.units@.len()
    &&& 32 * row + 32 * 4 <= image.geo.unit_len
    &&& row + 4 <= image.tail_row
    &&& forall|i: int, k: int|
        0 <= i < image.ops@.len() && 0 <= k < image.ops@[i].ops@.len() ==> row + 4 <= (
        #[trigger] image.ops@[i].ops@[k]).payload@.len()
}

/// Headers are consistent exactly when they are large enough, and every chunk can then
/// be asked for.
pub proof fn law_large_enough_headers(image: ParsedImage, bytes: Seq<u8>, first: int, count: int)
    ensures
        image.consistent() <==> large_enough(image),
        large_enough(image) ==> image.readable(bytes, first, count),
        large_enough(image) ==> image.block_readable(bytes, first),
{
    if image.consistent() {
        lemma_consistent_readable(image, bytes, first, count);
        lemma_consistent_readable(image, bytes, first, 1);
        assert(image.gathered(bytes, first, 0) is Ok);
        assert(image.block_readable(bytes, first + 0));
    }
}

/// Entry `entry` is the first that names block `b`.
pub open spec fn names_block(all: Seq<BlockOps>, b: int, entry: int) -> bool {
    &&& 0 <= entry < all.len()
    &&& all[entry].block == b
    &&& forall|i: int| 0 <= i < entry ==> (#[trigger] all[i]).block != b
}

/// No entry names block `b`.
pub open spec fn names_no_block(all: Seq<BlockOps>, b: int) -> bool {
    forall|i: int| 0 <= i < all.len() ==> (#[trigger] all[i]).block != b
}

/// The pending writes of a block are those of the first entry that names it, and none
/// where no entry does.
pub proof fn law_pending_writes(all: Seq<BlockOps>, b: int, entry: int)
    ensures
        names_block(all, b, entry) ==> block_ops(all, b) == all[entry].ops@,
        names_no_block(all, b) ==> block_ops(all, b).len() == 0,
    decreases all.len(),
{
    if all.len() > 0 && all[0].block != b {
        let rest = all.drop_first();
        law_pending_writes(rest, b, entry - 1);
        if names_block(all, b, entry) {
            assert(entry > 0);
            assert forall|i: int| 0 <= i < entry - 1 implies (#[trigger] rest[i]).block != b by {
                assert(all[i + 1].block != b);
            }
            assert(names_block(rest, b, entry - 1));
        }
        if names_no_block(all, b) {
            assert forall|i: int| 0 <= i < rest.len() implies (#[trigger] rest[i]).block != b by {
                assert(all[i + 1].block != b);
            }
        }
    } else if all.len() > 0 {
        if names_block(all, b, entry) {
            assert(entry == 0);
        }
    }
}

/// Write `k` is the last of `ops` to row `lane` of its block, where it is below the
/// number of writes; otherwise none of them is to that row.
pub open spec fn last_write(ops: Seq<RedoOp>, lane: int, k: int) -> bool {
    &&& 0 <= k <= ops.len()
    &&& k < ops.len() ==> ops[k].slot as int % 32 == lane
    &&& forall|i: int|
        k < i < ops.len() || (k == ops.len() && 0 <= i < k) ==> (
        #[trigger] ops[i]).slot as int % 32 != lane
}

proof fn lemma_redone_rows(
    codes: Seq<u8>,
    scales: Seq<u32>,
    ops: Seq<RedoOp>,
    row_bytes: int,
    max: u32,
    k: int,
    lane: int,
    j: int,
    write: int,
)
    requires
        0 <= row_bytes,
        codes.len() == 32 * row_bytes,
        scales.len() == 32,
        0 <= k <= ops.len(),
        0 <= lane < 32,
        -1 <= write < k,
        write >= 0 ==> ops[write].slot as int % 32 == lane,
        forall|i: int| write < i < k && 0 <= i ==> (#[trigger] ops[i]).slot as int % 32 != lane,
        redone(codes, scales, ops, row_bytes, max, k) is Some,
    ensures
        ({
            let (c, s) = redone(codes, scales, ops, row_bytes, max, k)->0;
            &&& c.len() == 32 * row_bytes
            &&& s.len() == 32
            &&& s[lane] == if write >= 0 {
                le32(ops[write].payload@, row_bytes)
            } else {
                scales[lane]
            }
            &&& 0 <= j < row_bytes ==> lane_byte(c, row_bytes, lane, j) == if write >= 0 {
                ops[write].payload@[j]
            } else {
                lane_byte(codes, row_bytes, lane, j)
            }
        }),
    decreases k,
{
    if k > 0 {
        let (c, s) = redone(codes, scales, ops, row_bytes, max, k - 1)->0;
        let payload = ops[k - 1].payload@;
        let at = ops[k - 1].slot as int % 32;
        if write == k - 1 {
            lemma_redone_len(codes, scales, ops, row_bytes, max, k - 1);
        } else {
            lemma_redone_rows(codes, scales, ops, row_bytes, max, k - 1, lane, j, write);
        }
        assert(32 * 1 * row_bytes == 32 * row_bytes);
        if 0 <= j < row_bytes {
            law_single_lanes(c, row_bytes, 1, at, 0, payload, 0, lane, j);
        }
    }
}

proof fn lemma_redone_len(
    codes: Seq<u8>,
    scales: Seq<u32>,
    ops: Seq<RedoOp>,
    row_bytes: int,
    max: u32,
    k: int,
)
    requires
        codes.len() == 32 * row_bytes,
        scales.len() == 32,
        redone(codes, scales, ops, row_bytes, max, k) is Some,
    ensures
        ({
            let (c, s) = redone(codes, scales, ops, row_bytes, max, k)->0;
            c.len() == 32 * row_bytes && s.len() == 32
        }),
    decreases k,
{
    if k > 0 {
        lemma_redone_len(codes, scales, ops, row_bytes, max, k - 1);
    }
}

/// A row of a committed block is what the last pending write to it carries, codes and
/// scale, and what the block's unit stores where there is none: its codes in the lane of
/// the row, its scale behind the codes of the block.
pub proof fn law_row_of_a_committed_block(
    image: ParsedImage,
    bytes: Seq<u8>,
    b: int,
    lane: int,
    j: int,
    write: int,
)
    requires
        large_enough(image),
        0 <= b < image.n_blocks,
        0 <= lane < 32,
        image.block(bytes, b) is Ok,
        last_write(block_ops(image.ops@, b), lane, write),
    ensures
        ({
            let row = image.geo.row_bytes as int;
            let at = image.geo.units@[b] as int;
            let ops = block_ops(image.ops@, b);
            let (codes, scales) = image.block(bytes, b)->Ok_0;
            &&& codes.len() == 32 * row
            &&& scales.len() == 32
            &&& scales[lane] == if write < ops.len() {
                le32(ops[write].payload@, row)
            } else {
                le32(bytes, at + 32 * row + 4 * lane)
            }
            &&& 0 <= j < row ==> lane_byte(codes, row, lane, j) == if write < ops.len() {
                ops[write].payload@[j]
            } else {
                bytes[at + 32 * j + lane]
            }
        }),
{
    let row = image.geo.row_bytes as int;
    let at = image.geo.units@[b] as int;
    let ops = block_ops(image.ops@, b);
    let unit = bytes.subrange(at, at + image.geo.unit_len);
    let codes = unit.take(32 * row);
    let scales = unit_scales(unit, 32 * row);
    let last = if write < ops.len() {
        write
    } else {
        -1
    };
    lemma_redone_rows(
        codes,
        scales,
        ops,
        row,
        image.max_scale,
        ops.len() as int,
        lane,
        j,
        last,
    );
    if 0 <= j < row {
        assert((lane / 32) * (32 * row) == 0) by (nonlinear_arith)
            requires
                lane / 32 == 0,
        ;
        assert(lane_byte(codes, row, lane, j) == unit[32 * j + lane]);
    }
    assert(scales[lane] == le32(unit, 32 * row + 4 * lane));
}

/// By slot number: slot `slot` of a committed block holds the codes and the scale of the
/// last pending write that names it, where one does, and what its unit stores where none
/// does. `k` is that write, or the number of writes of the block.
pub proof fn law_slot_of_a_committed_block(
    image: ParsedImage,
    bytes: Seq<u8>,
    slot: int,
    j: int,
    k: int,
)
    requires
        large_enough(image),
        0 <= slot,
        slot / 32 < image.n_blocks,
        image.block(bytes, slot / 32) is Ok,
        ({
            let ops = block_ops(image.ops@, slot / 32);
            &&& forall|i: int|
                0 <= i < ops.len() ==> (#[trigger] ops[i]).slot as int / 32 == slot / 32
            &&& 0 <= k <= ops.len()
            &&& k < ops.len() ==> ops[k].slot == slot
            &&& forall|i: int|
                k < i < ops.len() || (k == ops.len() && 0 <= i < k) ==> (#[trigger] ops[i]).slot
                    != slot
        }),
    ensures
        ({
            let row = image.geo.row_bytes as int;
            let at = image.geo.units@[slot / 32] as int;
            let ops = block_ops(image.ops@, slot / 32);
            let (codes, scales) = image.block(bytes, slot / 32)->Ok_0;
            &&& scales[slot % 32] == if k < ops.len() {
                le32(ops[k].payload@, row)
            } else {
                le32(bytes, at + 32 * row + 4 * (slot % 32))
            }
            &&& 0 <= j < row ==> lane_byte(codes, row, slot % 32, j) == if k < ops.len() {
                ops[k].payload@[j]
            } else {
                bytes[at + 32 * j + slot % 32]
            }
        }),
{
    let ops = block_ops(image.ops@, slot / 32);
    assert forall|i: int| k < i < ops.len() || (k == ops.len() && 0 <= i < k) implies (
    #[trigger] ops[i]).slot as int % 32 != slot % 32 by {
        assert(ops[i].slot as int / 32 == slot / 32);
        assert(ops[i].slot != slot);
    }
    law_row_of_a_committed_block(image, bytes, slot / 32, slot % 32, j, k);
}

proof fn lemma_redone_fails(
    codes: Seq<u8>,
    scales: Seq<u32>,
    ops: Seq<RedoOp>,
    row_bytes: int,
    max: u32,
    k: int,
)
    requires
        0 <= k <= ops.len(),
    ensures
        redone(codes, scales, ops, row_bytes, max, k) is Some <==> forall|i: int|
            0 <= i < k ==> admitted(le32((#[trigger] ops[i]).payload@, row_bytes), max),
    decreases k,
{
    if k > 0 {
        lemma_redone_fails(codes, scales, ops, row_bytes, max, k - 1);
        law_accepted_numbers(le32(ops[k - 1].payload@, row_bytes), max);
        if redone(codes, scales, ops, row_bytes, max, k) is Some {
            assert forall|i: int| 0 <= i < k implies admitted(
                le32((#[trigger] ops[i]).payload@, row_bytes),
                max,
            ) by {}
        } else if forall|i: int|
            0 <= i < k ==> admitted(le32((#[trigger] ops[i]).payload@, row_bytes), max) {
            assert(admitted(le32(ops[k - 1].payload@, row_bytes), max));
        }
    }
}

/// A committed block is served when its unit lies inside the file and every scale of it
/// and of its pending writes is admitted; otherwise the first of these that fails is
/// reported, with the block.
pub proof fn law_committed_blocks_that_are_served(image: ParsedImage, bytes: Seq<u8>, b: int)
    requires
        large_enough(image),
        0 <= b < image.n_blocks,
    ensures
        ({
            let row = image.geo.row_bytes as int;
            let at = image.geo.units@[b] as int;
            let ops = block_ops(image.ops@, b);
            let inside = at + image.geo.unit_len <= bytes.len();
            let stored = forall|lane: int|
                0 <= lane < 32 ==> admitted(
                    #[trigger] le32(bytes, at + 32 * row + 4 * lane),
                    image.max_scale,
                );
            let written = forall|k: int|
                0 <= k < ops.len() ==> admitted(
                    le32((#[trigger] ops[k]).payload@, row),
                    image.max_scale,
                );
            match image.block(bytes, b) {
                Ok(_) => inside && stored && written,
                Err(ImageError::TruncatedUnit(got)) => got == b && !inside,
                Err(ImageError::InvalidBlockScale(got)) => got == b && inside && !stored,
                Err(ImageError::InvalidOpScale) => inside && stored && !written,
                Err(_) => false,
            }
        }),
{
    let row = image.geo.row_bytes as int;
    let at = image.geo.units@[b] as int;
    let ops = block_ops(image.ops@, b);
    let unit = bytes.subrange(at, at + image.geo.unit_len);
    let scales = unit_scales(unit, 32 * row);
    if at + image.geo.unit_len <= bytes.len() {
        assert forall|lane: int| 0 <= lane < 32 implies #[trigger] scales[lane] == le32(
            bytes,
            at + 32 * row + 4 * lane,
        ) && crate::mapped::bad_image_scale(scales[lane], image.max_scale) == !admitted(
            scales[lane],
            image.max_scale,
        ) by {
            law_accepted_numbers(scales[lane], image.max_scale);
            assert(scales[lane] == le32(unit, 32 * row + 4 * lane));
        }
        if forall|lane: int|
            0 <= lane < 32 ==> admitted(
                #[trigger] le32(bytes, at + 32 * row + 4 * lane),
                image.max_scale,
            ) {
            assert forall|lane: int| 0 <= lane < 32 implies !crate::mapped::bad_image_scale(
                #[trigger] scales[lane],
                image.max_scale,
            ) by {
                assert(admitted(le32(bytes, at + 32 * row + 4 * lane), image.max_scale));
            }
        } else {
            let lane = choose|lane: int|
                0 <= lane < 32 && !admitted(
                    #[trigger] le32(bytes, at + 32 * row + 4 * lane),
                    image.max_scale,
                );
            assert(crate::mapped::bad_image_scale(scales[lane], image.max_scale));
        }
        lemma_redone_fails(
            unit.take(32 * row),
            scales,
            ops,
            row,
            image.max_scale,
            ops.len() as int,
        );
    }
}

/// Tail row `k` is whole and its scale admitted.
pub open spec fn sound_tail_row(image: ParsedImage, k: int) -> bool {
    &&& (k + 1) * image.tail_row <= image.tail@.len()
    &&& admitted(
        le32(image.tail@, k * image.tail_row + image.geo.row_bytes),
        image.max_scale,
    )
}

proof fn lemma_tail_rows(image: ParsedImage, k: int)
    requires
        large_enough(image),
        0 <= k <= 32,
        forall|i: int| 0 <= i < k ==> #[trigger] sound_tail_row(image, i),
    ensures
        ({
            let row = image.geo.row_bytes as int;
            let r = tail_rows(image.tail@, image.tail_row as int, row, image.max_scale, k);
            &&& r is Ok
            &&& r->Ok_0.0.len() == 32 * row
            &&& r->Ok_0.1.len() == k
            &&& forall|i: int|
                0 <= i < k ==> #[trigger] r->Ok_0.1[i] == le32(
                    image.tail@,
                    i * image.tail_row + row,
                )
        }),
    decreases k,
{
    let row = image.geo.row_bytes as int;
    let tail_row = image.tail_row as int;
    if k > 0 {
        lemma_tail_rows(image, k - 1);
        assert(sound_tail_row(image, k - 1));
        lemma_tail_payload(image, k - 1);
        law_accepted_numbers(le32(image.tail@, (k - 1) * tail_row + row), image.max_scale);
    }
}

proof fn lemma_tail_payload(image: ParsedImage, k: int)
    requires
        large_enough(image),
        0 <= k,
        (k + 1) * image.tail_row <= image.tail@.len(),
    ensures
        ({
            let row = image.geo.row_bytes as int;
            let tail_row = image.tail_row as int;
            let payload = tail_payload(image.tail@, tail_row, k);
            &&& payload.len() == tail_row
            &&& le32(payload, row) == le32(image.tail@, k * tail_row + row)
            &&& forall|j: int|
                0 <= j < row ==> #[trigger] payload[j] == image.tail@[k * tail_row + j]
        }),
{
    let tail_row = image.tail_row as int;
    assert((k + 1) * tail_row == k * tail_row + tail_row && 0 <= k * tail_row)
        by (nonlinear_arith)
        requires
            0 <= k,
            0 <= tail_row,
    ;
}

proof fn lemma_tail_lane(image: ParsedImage, k: int, lane: int, j: int)
    requires
        large_enough(image),
        0 <= k <= 32,
        forall|i: int| 0 <= i < k ==> #[trigger] sound_tail_row(image, i),
        0 <= lane < 32,
        0 <= j < image.geo.row_bytes,
    ensures
        ({
            let row = image.geo.row_bytes as int;
            let r = tail_rows(image.tail@, image.tail_row as int, row, image.max_scale, k);
            lane_byte(r->Ok_0.0, row, lane, j) == if lane < k {
                image.tail@[lane * image.tail_row + j]
            } else {
                0
            }
        }),
    decreases k,
{
    let row = image.geo.row_bytes as int;
    let tail_row = image.tail_row as int;
    lemma_tail_rows(image, k);
    if k > 0 {
        lemma_tail_rows(image, k - 1);
        lemma_tail_lane(image, k - 1, lane, j);
        assert(sound_tail_row(image, k - 1));
        lemma_tail_payload(image, k - 1);
        law_accepted_numbers(le32(image.tail@, (k - 1) * tail_row + row), image.max_scale);
        let before = tail_rows(image.tail@, tail_row, row, image.max_scale, k - 1)->Ok_0.0;
        let payload = tail_payload(image.tail@, tail_row, k - 1);
        law_single_lanes(before, row, 1, k - 1, 0, payload, 0, lane, j);
    } else {
        assert((lane / 32) * (32 * row) == 0) by (nonlinear_arith)
            requires
                lane / 32 == 0,
        ;
        let zeros = Seq::new(block_bytes(row) as nat, |p: int| 0u8);
        assert(32 * j + lane < 32 * row);
        assert(lane_byte(zeros, row, lane, j) == zeros[32 * j + lane]);
    }
}

/// The rows behind the last whole block come from the commit header, in order, each with
/// its codes first and its scale behind them; the rest of the block is zero.
pub proof fn law_row_of_the_partial_block(
    image: ParsedImage,
    bytes: Seq<u8>,
    b: int,
    lane: int,
    j: int,
)
    requires
        large_enough(image),
        image.n_blocks <= b,
        0 <= lane < 32,
        forall|k: int|
            0 <= k < image.n_vectors as int % 32 ==> #[trigger] sound_tail_row(image, k),
    ensures
        image.block(bytes, b) is Ok,
        ({
            let row = image.geo.row_bytes as int;
            let rows = image.n_vectors as int % 32;
            let (codes, scales) = image.block(bytes, b)->Ok_0;
            &&& codes.len() == 32 * row
            &&& scales.len() == rows
            &&& lane < rows ==> scales[lane] == le32(image.tail@, lane * image.tail_row + row)
            &&& 0 <= j < row ==> lane_byte(codes, row, lane, j) == if lane < rows {
                image.tail@[lane * image.tail_row + j]
            } else {
                0
            }
        }),
{
    let rows = image.n_vectors as int % 32;
    lemma_tail_rows(image, rows);
    if 0 <= j < image.geo.row_bytes {
        lemma_tail_lane(image, rows, lane, j);
    }
}

/// The partial block is refused at its first row that is cut off or whose scale is not
/// admitted.
pub proof fn law_partial_blocks_that_are_refused(
    image: ParsedImage,
    bytes: Seq<u8>,
    b: int,
    k: int,
)
    requires
        large_enough(image),
        image.n_blocks <= b,
        0 <= k < image.n_vectors as int % 32,
        forall|i: int| 0 <= i < k ==> #[trigger] sound_tail_row(image, i),
        !sound_tail_row(image, k),
    ensures
        image.block(bytes, b) is Err,
        image.block(bytes, b)->Err_0 == if (k + 1) * image.tail_row > image.tail@.len() {
            ImageError::TruncatedTail
        } else {
            ImageError::InvalidTailScale
        },
{
    let row = image.geo.row_bytes as int;
    let tail_row = image.tail_row as int;
    lemma_tail_rows(image, k);
    if (k + 1) * image.tail_row <= image.tail@.len() {
        lemma_tail_payload(image, k);
        law_accepted_numbers(le32(image.tail@, k * tail_row + row), image.max_scale);
    }
    lemma_tail_err(
        image.tail@,
        tail_row,
        row,
        image.max_scale,
        k + 1,
        image.n_vectors as int % 32,
    );
}

proof fn lemma_tail_err(tail: Seq<u8>, tail_row: int, row: int, max: u32, k: int, end: int)
    requires
        0 <= k <= end,
        tail_rows(tail, tail_row, row, max, k) is Err,
    ensures
        tail_rows(tail, tail_row, row, max, end) == tail_rows(tail, tail_row, row, max, k),
    decreases end - k,
{
    if k < end {
        lemma_tail_err(tail, tail_row, row, max, k + 1, end);
    }
}

proof fn lemma_gathered(image: ParsedImage, bytes: Seq<u8>, first: int, count: int)
    requires
        large_enough(image),
        0 <= first,
        0 <= count,
        forall|i: int| 0 <= i < count ==> image.block(bytes, #[trigger] (first + i)) is Ok,
    ensures
        image.gathered(bytes, first, count) is Ok,
    decreases count,
{
    if count > 0 {
        assert forall|i: int| 0 <= i < count - 1 implies image.block(
            bytes,
            #[trigger] (first + i),
        ) is Ok by {}
        lemma_gathered(image, bytes, first, count - 1);
        assert(image.block(bytes, first + (count - 1)) is Ok);
    }
}

/// Rows in `count` blocks from block `first` on: 32 in each whole block, and in every
/// other the rows behind the last whole one.
pub open spec fn rows_in_blocks(image: ParsedImage, first: int, count: int) -> int {
    let whole = if first + count <= image.n_blocks {
        count
    } else if first <= image.n_blocks {
        image.n_blocks - first
    } else {
        0
    };
    32 * whole + (count - whole) * (image.n_vectors as int % 32)
}

proof fn lemma_gathered_scales(image: ParsedImage, bytes: Seq<u8>, first: int, count: int)
    requires
        large_enough(image),
        0 <= first,
        0 <= count,
        image.gathered(bytes, first, count) is Ok,
    ensures
        image.gathered(bytes, first, count)->Ok_0.1.len() == rows_in_blocks(image, first, count),
    decreases count,
{
    let rest = image.n_vectors as int % 32;
    if count > 0 {
        lemma_gathered_scales(image, bytes, first, count - 1);
        law_large_enough_headers(image, bytes, first + count - 1, 0);
        lemma_block_len(image, bytes, first + count - 1);
        let whole = if first <= image.n_blocks {
            image.n_blocks - first
        } else {
            0
        };
        assert((count - whole) * rest == (count - 1 - whole) * rest + rest) by (nonlinear_arith);
        assert(0 * rest == 0);
    } else {
        assert(0 * rest == 0);
    }
}

/// A chunk is refused with the error of its first block that is, and otherwise served
/// unless its blocks hold fewer rows than were asked for, which is then reported.
pub proof fn law_chunks_that_are_served(
    image: ParsedImage,
    bytes: Seq<u8>,
    base: int,
    live: int,
    count: int,
    i: int,
)
    requires
        large_enough(image),
        0 <= base <= usize::MAX,
        0 <= live <= usize::MAX,
        whole_blocks(live, count),
        0 <= i <= count,
        forall|e: int| 0 <= e < i ==> image.block(bytes, #[trigger] (base / 32 + e)) is Ok,
        i < count ==> image.block(bytes, base / 32 + i) is Err,
    ensures
        ({
            let found = rows_in_blocks(image, base / 32, count);
            match image.chunk(bytes, base, live) {
                Ok(_) => i == count && live <= found,
                Err(ImageError::MissingRows { base: from, got, live: asked }) => {
                    &&& i == count
                    &&& found < live
                    &&& from == base
                    &&& got == found
                    &&& asked == live
                },
                Err(e) => i < count && image.block(bytes, base / 32 + i)->Err_0 == e,
            }
        }),
{
    let first = base / 32;
    law_blocked_size(live, 1, count);
    lemma_gathered(image, bytes, first, i);
    if i < count {
        assert(image.gathered(bytes, first, i + 1) is Err);
        lemma_gathered_err(image, bytes, first, i + 1, count);
        lemma_no_missing_rows(image, bytes, first + i);
    } else {
        lemma_gathered_scales(image, bytes, first, count);
    }
}

proof fn lemma_no_missing_rows(image: ParsedImage, bytes: Seq<u8>, b: int)
    ensures
        image.block(bytes, b) is Err ==> !(image.block(bytes, b)->Err_0 is MissingRows),
{
    lemma_no_missing_tail_rows(
        image.tail@,
        image.tail_row as int,
        image.geo.row_bytes as int,
        image.max_scale,
        image.n_vectors as int % 32,
    );
}

proof fn lemma_no_missing_tail_rows(tail: Seq<u8>, tail_row: int, row: int, max: u32, k: int)
    ensures
        tail_rows(tail, tail_row, row, max, k) is Err ==> !(tail_rows(
            tail,
            tail_row,
            row,
            max,
            k,
        )->Err_0 is MissingRows),
    decreases k,
{
    if k > 0 {
        lemma_no_missing_tail_rows(tail, tail_row, row, max, k - 1);
    }
}

/// A chunk that ends with the last row of its image, or before it, is never short of
/// rows.
pub proof fn law_chunks_inside_the_image(image: ParsedImage, base: int, live: int, count: int)
    requires
        image.n_vectors as int / 32 == image.n_blocks,
        0 <= base,
        base % 32 == 0,
        0 <= live,
        base + live <= image.n_vectors,
        whole_blocks(live, count),
    ensures
        live <= rows_in_blocks(image, base / 32, count),
{
    let rest = image.n_vectors as int % 32;
    assert(0 * rest == 0 && 1 * rest == rest);
}

proof fn lemma_gathered_err(image: ParsedImage, bytes: Seq<u8>, first: int, k: int, end: int)
    requires
        0 <= k <= end,
        image.gathered(bytes, first, k) is Err,
    ensures
        image.gathered(bytes, first, end) == image.gathered(bytes, first, k),
    decreases end - k,
{
    if k < end {
        lemma_gathered_err(image, bytes, first, k + 1, end);
    }
}

/// Row `i` of a chunk is row `base + i` of the image: its codes stand in the lane of
/// that row, and its scale at its place. A chunk has whole blocks of codes and as many
/// scales as rows.
pub proof fn law_row_of_a_chunk(
    image: ParsedImage,
    bytes: Seq<u8>,
    base: int,
    live: int,
    count: int,
    i: int,
    j: int,
)
    requires
        large_enough(image),
        image.n_vectors as int / 32 == image.n_blocks,
        0 <= base,
        base % 32 == 0,
        base + live <= image.n_vectors,
        whole_blocks(live, count),
        0 <= i < live,
        image.chunk(bytes, base, live) is Ok,
    ensures
        image.block(bytes, (base + i) / 32) is Ok,
        ({
            let row = image.geo.row_bytes as int;
            let (codes, scales) = image.chunk(bytes, base, live)->Ok_0;
            let (block_codes, block_scales) = image.block(bytes, (base + i) / 32)->Ok_0;
            let lane = (base + i) % 32;
            &&& codes.len() == 32 * count * row
            &&& scales.len() == live
            &&& scales[i] == block_scales[lane]
            &&& 0 <= j < row ==> lane_byte(codes, row, i, j) == lane_byte(
                block_codes,
                row,
                lane,
                j,
            )
        }),
{
    let row = image.geo.row_bytes as int;
    let first = base / 32;
    let bb = 32 * row;
    law_blocked_size(live, row, count);
    law_large_enough_headers(image, bytes, first, count);
    crate::mapped::lemma_gathered_len(image, bytes, first, count);
    assert(count * bb == 32 * count * row) by (nonlinear_arith)
        requires
            bb == 32 * row,
    ;
    law_chunk_holds_the_blocks(image, bytes, first, count, i / 32);
    assert(first + i / 32 == (base + i) / 32);
    let (codes, scales) = image.gathered(bytes, first, count)->Ok_0;
    let (block_codes, block_scales) = image.block(bytes, first + i / 32)->Ok_0;
    law_large_enough_headers(image, bytes, first + i / 32, 0);
    lemma_block_len(image, bytes, first + i / 32);
    let lane = (base + i) % 32;
    assert(lane == i % 32);
    let at = 32 * (i / 32);
    assert(scales.subrange(at, at + block_scales.len())[lane] == scales[i]);
    if 0 <= j < row {
        let q = i / 32;
        lemma_row_fits(q, count, bb);
        assert((lane / 32) * (32 * row) == 0) by (nonlinear_arith)
            requires
                lane / 32 == 0,
        ;
        assert(codes.subrange(q * bb, q * bb + bb)[32 * j + lane] == codes[q * bb + (32 * j
            + lane)]);
    }
}

/// A chunk that was assembled is the one gathered out of the file, its codes laid out as
/// the scan reads them and its scales as they are.
pub proof fn law_assembled_chunk(
    image: ParsedImage,
    bytes: Seq<u8>,
    base: int,
    live: int,
    is_native: spec_fn(Seq<u8>, Seq<u8>) -> bool,
    chunk: Chunk,
)
    ensures
        image.is_chunk(bytes, base, live, is_native, chunk) <==> {
            &&& image.chunk(bytes, base, live) is Ok
            &&& is_native(image.chunk(bytes, base, live)->Ok_0.0, chunk.codes@)
            &&& chunk.scales@ == image.chunk(bytes, base, live)->Ok_0.1
        },
{
}

/// What a layout function makes of bytes is what it returns for them: where it returns
/// `expected(bytes)` for every buffer, so is the layout.
pub proof fn law_native_layout<N: Fn(Vec<u8>) -> Vec<u8>>(
    f: N,
    from: Seq<u8>,
    to: Seq<u8>,
    expected: spec_fn(Seq<u8>) -> Seq<u8>,
)
    requires
        forall|a: Vec<u8>, b: Vec<u8>| #[trigger] call_ensures(f, (a,), b) ==> b@ == expected(a@),
    ensures
        transformed(f, from, to) ==> to == expected(from),
        native_by(f)(from, to) ==> to == expected(from),
{
}

/// The bytes that cached chunks count for: each code byte once and each scale four
/// times.
pub proof fn law_cached_bytes(entries: Seq<Cached>, entry: Cached)
    ensures
        total(Seq::empty()) == 0,
        total(entries.push(entry)) == total(entries) + entry.2.codes@.len() + 4
            * entry.2.scales@.len(),
{
    crate::paged_cache::lemma_total_push(entries, entry);
}

/// A chunk is found under its first row and its number of rows, at the first place that
/// holds it; it is missing only where no place does.
pub proof fn law_cached_chunks_are_found(entries: Seq<Cached>, base: usize, live: usize, i: int)
    requires
        0 <= i < entries.len(),
    ensures
        match position(entries, base, live) {
            Some(at) => {
                &&& 0 <= at < entries.len()
                &&& entries[at].0 == base
                &&& entries[at].1 == live
                &&& i < at ==> !(entries[i].0 == base && entries[i].1 == live)
            },
            None => !(entries[i].0 == base && entries[i].1 == live),
        },
{
    lemma_position_from(entries, base, live, 0);
}

/// A chunk that is used becomes the most recent one, and the others keep their order; a
/// range that is not there changes nothing.
pub proof fn law_used_chunk_becomes_the_most_recent(
    entries: Seq<Cached>,
    base: usize,
    live: usize,
)
    ensures
        match position(entries, base, live) {
            Some(at) => {
                let after = touched(entries, base, live);
                &&& 0 <= at < entries.len()
                &&& after.len() == entries.len()
                &&& after.last() == entries[at]
                &&& after.drop_last() == entries.subrange(0, at) + entries.subrange(
                    at + 1,
                    entries.len() as int,
                )
            },
            None => touched(entries, base, live) == entries,
        },
{
    lemma_position_from(entries, base, live, 0);
    if let Some(at) = position(entries, base, live) {
        let after = touched(entries, base, live);
        assert(after.drop_last() =~= entries.subrange(0, at) + entries.subrange(
            at + 1,
            entries.len() as int,
        ));
    }
}

/// A chunk that is offered under a range that is there changes nothing. Otherwise it is
/// put behind the others and the oldest are dropped, as many as it takes to come within
/// the budget and no more, down to the one that was offered.
pub proof fn law_offered_chunk(
    entries: Seq<Cached>,
    budget: int,
    base: usize,
    live: usize,
    chunk: Chunk,
)
    ensures
        ({
            let after = inserted(entries, budget, base, live, chunk);
            let all = entries.push((base, live, chunk));
            let dropped = all.len() - after.len();
            if position(entries, base, live) is Some {
                after == entries
            } else {
                &&& 0 <= dropped < all.len()
                &&& after == all.subrange(dropped, all.len() as int)
                &&& total(after) <= budget || after.len() == 1
                &&& dropped > 0 ==> total(all.subrange(dropped - 1, all.len() as int)) > budget
            }
        }),
{
    let all = entries.push((base, live, chunk));
    lemma_evicted(all, budget);
    lemma_no_more_than_needed(all, budget);
    let after = evicted(all, budget);
    assert(all.skip(all.len() - after.len()) =~= all.subrange(
        all.len() - after.len(),
        all.len() as int,
    ));
}

proof fn lemma_no_more_than_needed(entries: Seq<Cached>, budget: int)
    ensures
        ({
            let dropped = entries.len() - evicted(entries, budget).len();
            dropped > 0 ==> total(entries.subrange(dropped - 1, entries.len() as int)) > budget
        }),
    decreases entries.len(),
{
    if total(entries) > budget && entries.len() > 1 {
        let rest = entries.drop_first();
        lemma_no_more_than_needed(rest, budget);
        lemma_evicted(rest, budget);
        let dropped = entries.len() - evicted(entries, budget).len();
        if dropped == 1 {
            assert(entries.subrange(0, entries.len() as int) =~= entries);
        } else {
            assert(entries.subrange(dropped - 1, entries.len() as int) =~= rest.subrange(
                dropped - 2,
                rest.len() as int,
            ));
        }
    }
}

} // verus!
