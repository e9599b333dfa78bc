//! How large everything is, and where its bytes stand, in plain numbers.
use crate::blocked::{
    blocked_len, blocks, lane_moved, lane_row, lane_written, lane_zeroed, lanes_appended,
    lanes_swap_removed, lemma_block_prefix, lemma_lane_inside, lemma_lane_offset, padding_zero,
};
use crate::laws::numbers::{
    all_usable, law_accepted_numbers, usable_factor, usable_scale, usable_shift,
};
use crate::model::{
    good_codebook, good_pair, good_scales, levels, packed_row_bytes, valid_bit_width, valid_dim,
    IndexView,
};
use crate::rows::{lemma_row_fits, row, swap_removed};
use crate::work::Codebook;
use vstd::arithmetic::power2::pow2;
use vstd::prelude::*;

verus! {

/// A shape an index can have.
pub open spec fn supported(d: int, bit_width: int) -> bool {
    &&& 8 <= d <= 16384
    &&& d % 8 == 0
    &&& 2 <= bit_width <= 4
}

/// `count` is the smallest number of blocks of 32 that hold `n` slots.
pub open spec fn whole_blocks(n: int, count: int) -> bool {
    32 * count - 32 < n <= 32 * count
}

/// Byte `j` of slot `slot` in a blocked buffer whose slots have `groups` bytes: blocks
/// of 32 slots follow each other, in a block byte `j` of all its slots, then byte
/// `j + 1` of all of them.
pub open spec fn lane_byte(data: Seq<u8>, groups: int, slot: int, j: int) -> u8 {
    data[(slot / 32) * (32 * groups) + 32 * j + slot % 32]
}

/// Which shapes are supported, how many levels a bit width has, and how many bytes a
/// packed row: `bit_width` bits for each of its `d` coordinates.
pub proof fn law_row_width(d: int, bit_width: int)
    ensures
        valid_dim(d) && valid_bit_width(bit_width) <==> supported(d, bit_width),
        valid_dim(d) <==> 8 <= d <= 16384 && d % 8 == 0,
        valid_bit_width(bit_width) <==> 2 <= bit_width <= 4,
        2 <= bit_width <= 4 ==> levels(bit_width) == pow2(bit_width as nat),
        d % 8 == 0 ==> 8 * packed_row_bytes(d, bit_width) == d * bit_width,
{
    vstd::arithmetic::power2::lemma2_to64();
    if d % 8 == 0 {
        let e = d / 8;
        assert(d * bit_width == 8 * (e * bit_width)) by (nonlinear_arith)
            requires
                d == 8 * e,
        ;
    }
}

/// So many rows have so many bytes: every row has its bits and no others.
pub proof fn law_packed_size(n: int, d: int, bit_width: int)
    requires
        d % 8 == 0,
    ensures
        8 * (n * packed_row_bytes(d, bit_width)) == n * d * bit_width,
{
    law_row_width(d, bit_width);
    let width = packed_row_bytes(d, bit_width);
    assert(8 * (n * width) == n * d * bit_width) by (nonlinear_arith)
        requires
            8 * width == d * bit_width,
    ;
}

/// Slots occupy whole blocks, no more than they need, and every block has 32 times as
/// many bytes as a slot.
pub proof fn law_blocked_size(n: int, groups: int, count: int)
    requires
        whole_blocks(n, count),
    ensures
        blocks(n) == count,
        blocked_len(n, groups) == 32 * count * groups,
{
    assert(count * (32 * groups) == 32 * count * groups) by (nonlinear_arith);
}

/// A codebook has one level for each code and one boundary between neighbours.
pub proof fn law_codebook_size(book: Codebook, bit_width: int)
    requires
        2 <= bit_width <= 4,
    ensures
        good_codebook(book, bit_width) <==> book.centroids@.len() == pow2(bit_width as nat)
            && book.boundaries@.len() + 1 == pow2(bit_width as nat),
{
    law_row_width(8, bit_width);
}

/// Scales and calibrations are good exactly when each of their numbers is accepted and
/// the two halves of a pair are equally long.
pub proof fn law_good_numbers(scales: Seq<u32>, shift: Seq<u32>, scale: Seq<u32>)
    ensures
        good_scales(scales) <==> all_usable(scales, |v: u32| usable_scale(v)),
        good_pair(shift, scale) <==> shift.len() == scale.len() && all_usable(
            shift,
            |v: u32| usable_shift(v),
        ) && all_usable(scale, |v: u32| usable_factor(v)),
{
    assert forall|v: u32| true implies #[trigger] usable_scale(v)
        == !crate::validate::bad_vector_scale(v) by {
        law_accepted_numbers(v, 0);
    }
    assert forall|v: u32| true implies #[trigger] usable_shift(v)
        == !crate::validate::bad_shift(v) by {
        law_accepted_numbers(v, 0);
    }
    assert forall|v: u32| true implies #[trigger] usable_factor(v)
        == !crate::validate::bad_calibration_scale(v) by {
        law_accepted_numbers(v, 0);
    }
    let s = |v: u32| usable_scale(v);
    let h = |v: u32| usable_shift(v);
    let f = |v: u32| usable_factor(v);
    if good_scales(scales) {
        assert forall|i: int| 0 <= i < scales.len() implies s(#[trigger] scales[i]) by {}
    }
    if all_usable(scales, s) {
        assert forall|i: int| 0 <= i < scales.len() implies !crate::validate::bad_vector_scale(
            #[trigger] scales[i],
        ) by {
            assert(s(scales[i]));
        }
    }
    if good_pair(shift, scale) {
        assert forall|i: int| 0 <= i < shift.len() implies h(#[trigger] shift[i]) by {}
        assert forall|i: int| 0 <= i < scale.len() implies f(#[trigger] scale[i]) by {}
    }
    if shift.len() == scale.len() && all_usable(shift, h) && all_usable(scale, f) {
        assert forall|i: int| 0 <= i < shift.len() implies !crate::validate::bad_shift(
            #[trigger] shift[i],
        ) by {
            assert(h(shift[i]));
        }
        assert forall|i: int|
            0 <= i < scale.len() implies !crate::validate::bad_calibration_scale(
            #[trigger] scale[i],
        ) by {
            assert(f(scale[i]));
        }
    }
}

/// The state of an index, in sizes and accepted numbers: every store that is there has
/// the size that so many rows give it, and nothing else bounds it.
pub open spec fn in_order(view: IndexView) -> bool {
    let w = view.bit_width as int;
    &&& 0 <= view.n
    &&& 2 <= w <= 4
    &&& view.scales.len() == view.n
    &&& all_usable(view.scales, |v: u32| usable_scale(v))
    &&& view.shift.len() == view.scale.len()
    &&& all_usable(view.shift, |v: u32| usable_shift(v))
    &&& all_usable(view.scale, |v: u32| usable_factor(v))
    &&& view.n > 0 ==> view.shift.len() > 0
    &&& view.boundaries is Some ==> view.boundaries->0.len() + 1 == pow2(w as nat)
    &&& view.centroids is Some ==> view.centroids->0.len() == pow2(w as nat)
    &&& match view.dim {
        Some(d) => {
            &&& 8 <= d <= 16384
            &&& d % 8 == 0
            &&& view.shift.len() == 0 || view.shift.len() == d
            &&& view.packed is Some ==> 8 * view.packed->0.len() == view.n * d * w
            &&& view.packed is None ==> view.blocked is Some
            &&& view.blocked is Some ==> {
                &&& view.blocked->0.groups > 0
                &&& whole_blocks(view.n, view.blocked->0.n_blocks)
                &&& view.blocked->0.data.len() == 32 * view.blocked->0.n_blocks
                    * view.blocked->0.groups
            }
            &&& view.rotation is Some ==> view.rotation->0 == d
            &&& view.warmup is Some ==> {
                &&& view.warmup->0.len() == view.n * d
                &&& view.n < 1000
                &&& view.packed is Some
            }
            &&& view.warmup is None ==> view.shift.len() == d
        },
        None => {
            &&& view.n == 0
            &&& view.packed is Some
            &&& view.packed->0.len() == 0
            &&& view.blocked is None
            &&& view.shift.len() == 0
            &&& view.rotation is None
            &&& view.boundaries is None
            &&& view.centroids is None
            &&& view.warmup is Some
            &&& view.warmup->0.len() == 0
        },
    }
}

/// An index can be in every state whose stores are in order, and in no other.
pub proof fn law_states_of_an_index(view: IndexView)
    ensures
        view.wf() <==> in_order(view),
{
    law_good_numbers(view.scales, view.shift, view.scale);
    law_row_width(8, view.bit_width as int);
    if let Some(d) = view.dim {
        law_row_width(d as int, view.bit_width as int);
        if d % 8 == 0 {
            law_packed_size(view.n, d as int, view.bit_width as int);
        }
        if let Some(b) = view.blocked {
            law_blocked_size(view.n, b.groups, blocks(view.n));
            if whole_blocks(view.n, b.n_blocks) {
                law_blocked_size(view.n, b.groups, b.n_blocks);
            }
        }
    } else {
        if view.packed is Some && view.packed->0.len() == 0 {
            assert(view.packed->0 =~= Seq::<u8>::empty());
        }
    }
}

/// Row `i` of a flat buffer is the run of `width` elements behind the first
/// `i * width`.
pub proof fn law_rows_of_a_buffer<T>(flat: Seq<T>, width: int, i: int, j: int)
    requires
        0 <= j < width,
        0 <= i,
        i * width + width <= flat.len(),
    ensures
        row(flat, width, i).len() == width,
        row(flat, width, i)[j] == flat[i * width + j],
{
    assert(0 <= i * width) by (nonlinear_arith)
        requires
            0 <= i,
            0 < width,
    ;
}

/// A removal leaves one row fewer: the last one stands where the removed one did, every
/// other one where it was.
pub proof fn law_removed_rows<T>(flat: Seq<T>, width: int, n: int, idx: int, slot: int, j: int)
    requires
        0 <= j < width,
        flat.len() == n * width,
        0 <= idx < n,
        0 <= slot < n - 1,
    ensures
        swap_removed(flat, width, n, idx).len() == (n - 1) * width,
        swap_removed(flat, width, n, idx)[slot * width + j] == flat[if slot == idx {
            (n - 1) * width + j
        } else {
            slot * width + j
        }],
{
    lemma_row_fits(slot, n - 1, width);
    crate::rows::lemma_swap_removed_rows(flat, width, n, idx, slot);
    let out = swap_removed(flat, width, n, idx);
    lemma_row_fits(n - 1, n, width);
    lemma_row_fits(slot, n, width);
    assert(row(out, width, slot)[j] == out[slot * width + j]);
    assert(row(flat, width, n - 1)[j] == flat[(n - 1) * width + j]);
    assert(row(flat, width, slot)[j] == flat[slot * width + j]);
}

/// The lane of a slot holds its bytes in order.
pub proof fn law_lanes_of_a_buffer(data: Seq<u8>, groups: int, slot: int, j: int)
    requires
        0 <= j < groups,
    ensures
        lane_row(data, groups, slot).len() == groups,
        lane_row(data, groups, slot)[j] == lane_byte(data, groups, slot, j),
{
}

/// Writing, copying and clearing a lane change that lane and no other.
pub proof fn law_single_lanes(
    data: Seq<u8>,
    groups: int,
    count: int,
    slot: int,
    from: int,
    rows: Seq<u8>,
    at: int,
    other: int,
    j: int,
)
    requires
        0 <= j < groups,
        data.len() == 32 * count * groups,
        0 <= slot < 32 * count,
        0 <= from < 32 * count,
        0 <= other < 32 * count,
    ensures
        lane_written(data, groups, slot, rows, at).len() == data.len(),
        lane_moved(data, groups, from, slot).len() == data.len(),
        lane_zeroed(data, groups, slot).len() == data.len(),
        other != slot ==> {
            &&& lane_byte(lane_written(data, groups, slot, rows, at), groups, other, j)
                == lane_byte(data, groups, other, j)
            &&& lane_byte(lane_moved(data, groups, from, slot), groups, other, j) == lane_byte(
                data,
                groups,
                other,
                j,
            )
            &&& lane_byte(lane_zeroed(data, groups, slot), groups, other, j) == lane_byte(
                data,
                groups,
                other,
                j,
            )
        },
        lane_byte(lane_written(data, groups, slot, rows, at), groups, slot, j) == rows[at + j],
        lane_byte(lane_moved(data, groups, from, slot), groups, slot, j) == lane_byte(
            data,
            groups,
            from,
            j,
        ),
        lane_byte(lane_zeroed(data, groups, slot), groups, slot, j) == 0,
{
    law_blocked_size(32 * count, groups, count);
    lemma_lane_inside(groups, 32 * count, slot, j);
    lemma_lane_inside(groups, 32 * count, other, j);
    lemma_lane_offset(groups, slot, j);
    lemma_lane_offset(groups, other, j);
}

/// Appending rows to the lanes keeps every slot that was there, puts the new rows
/// behind them in order, and fills the last block up with zeros, wherever there were
/// zeros before.
pub proof fn law_appended_bytes(
    data: Seq<u8>,
    groups: int,
    n: int,
    rows: Seq<u8>,
    m: int,
    before: int,
    after: int,
    slot: int,
    j: int,
)
    requires
        0 <= j < groups,
        0 <= n,
        0 <= m,
        whole_blocks(n, before),
        whole_blocks(n + m, after),
        data.len() == 32 * before * groups,
        rows.len() == m * groups,
        0 <= slot < 32 * after,
    ensures
        lanes_appended(data, groups, n, rows, m).len() == 32 * after * groups,
        lane_byte(lanes_appended(data, groups, n, rows, m), groups, slot, j) == if n <= slot < n
            + m {
            rows[(slot - n) * groups + j]
        } else if slot < 32 * before {
            lane_byte(data, groups, slot, j)
        } else {
            0
        },
{
    law_blocked_size(n, groups, before);
    law_blocked_size(n + m, groups, after);
    law_blocked_size(32 * after, groups, after);
    lemma_lane_inside(groups, 32 * after, slot, j);
    lemma_lane_offset(groups, slot, j);
    let p = crate::blocked::lane_offset(groups, slot, j);
    lemma_block_prefix(groups, before, p);
    assert(before * (32 * groups) == 32 * before * groups) by (nonlinear_arith);
    assert(0 <= 32 * after * groups) by (nonlinear_arith)
        requires
            0 <= after,
            0 <= groups,
    ;
}

/// Removing a slot from the lanes leaves one slot fewer in as many blocks as it needs:
/// the last slot stands where the removed one did, every other one where it was, and
/// the lane it left is zero.
pub proof fn law_removed_bytes(
    data: Seq<u8>,
    groups: int,
    n: int,
    idx: int,
    before: int,
    after: int,
    slot: int,
    j: int,
)
    requires
        0 <= j < groups,
        0 <= idx < n,
        whole_blocks(n, before),
        whole_blocks(n - 1, after),
        data.len() == 32 * before * groups,
        0 <= slot < 32 * after,
    ensures
        lanes_swap_removed(data, groups, n, idx).len() == 32 * after * groups,
        lane_byte(lanes_swap_removed(data, groups, n, idx), groups, slot, j) == if slot == n - 1 {
            0
        } else if slot == idx {
            lane_byte(data, groups, n - 1, j)
        } else {
            lane_byte(data, groups, slot, j)
        },
{
    law_blocked_size(n - 1, groups, after);
    law_blocked_size(32 * after, groups, after);
    lemma_lane_inside(groups, 32 * after, slot, j);
    lemma_lane_offset(groups, slot, j);
    assert(0 <= 32 * after * groups) by (nonlinear_arith)
        requires
            0 <= after,
            0 <= groups,
    ;
}

/// Where the padding of a buffer is zero, so is every lane behind its last slot.
pub proof fn law_zero_padding(data: Seq<u8>, groups: int, n: int, count: int, slot: int, j: int)
    requires
        0 <= j < groups,
        0 <= n <= slot < 32 * count,
        data.len() == 32 * count * groups,
        padding_zero(data, groups, n),
    ensures
        lane_byte(data, groups, slot, j) == 0,
{
    law_blocked_size(32 * count, groups, count);
    lemma_lane_inside(groups, 32 * count, slot, j);
    lemma_lane_offset(groups, slot, j);
}

} // verus!
