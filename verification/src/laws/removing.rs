//! What a removal leaves in every store, in plain numbers.
use crate::blocked::blocks;
use crate::laws::sizes::{
    lane_byte, law_blocked_size, law_packed_size, law_removed_bytes, law_removed_rows,
    law_row_width, whole_blocks,
};
use crate::model::IndexView;
use vstd::prelude::*;

verus! {

/// The slot whose row stands at `slot` once slot `idx` of `n` has been removed: the last
/// one at the removed one, every other one at its own.
pub open spec fn moved_from(n: int, idx: int, slot: int) -> int {
    if slot == idx {
        n - 1
    } else {
        slot
    }
}

/// A removal leaves one slot fewer and touches nothing but the rows: the shape, the
/// calibration, the codebook, the rotation and the stores that are kept stay.
pub proof fn law_removal_drops_one_slot(view: IndexView, idx: int)
    requires
        view.wf(),
        0 <= idx < view.n,
    ensures
        ({
            let after = view.swap_removed(idx);
            &&& after.n == view.n - 1
            &&& after.dim == view.dim
            &&& after.bit_width == view.bit_width
            &&& after.shift == view.shift
            &&& after.scale == view.scale
            &&& after.rotation == view.rotation
            &&& after.boundaries == view.boundaries
            &&& after.centroids == view.centroids
            &&& after.scratch_demand == view.scratch_demand
            &&& after.scales.len() == view.n - 1
            &&& after.packed is Some == view.packed is Some
            &&& after.blocked is Some == view.blocked is Some
            &&& after.warmup is Some == view.warmup is Some
            &&& view.packed is Some ==> 8 * after.packed->0.len() == (view.n - 1) * view.dim->0
                * view.bit_width
            &&& view.warmup is Some ==> after.warmup->0.len() == (view.n - 1) * view.dim->0
            &&& view.blocked is Some ==> {
                &&& after.blocked->0.groups == view.blocked->0.groups
                &&& whole_blocks(view.n - 1, after.blocked->0.n_blocks)
                &&& after.blocked->0.data.len() == 32 * after.blocked->0.n_blocks
                    * view.blocked->0.groups
            }
        }),
{
    let d = view.dim->0 as int;
    crate::model::lemma_swap_removed_wf(view, idx);
    law_packed_size(view.n - 1, d, view.bit_width as int);
    if let Some(b) = view.blocked {
        law_blocked_size(view.n - 1, b.groups, blocks(view.n - 1));
    }
}

/// A removal moves the last row into the removed one's slot in the scales, the packed
/// rows and the warm-up buffer, and leaves every other row where it was.
pub proof fn law_removal_moves_the_last_row_everywhere(
    view: IndexView,
    idx: int,
    slot: int,
    byte: int,
    coord: int,
)
    requires
        view.wf(),
        0 <= idx < view.n,
        0 <= slot < view.n - 1,
        0 <= byte < view.dim->0 * view.bit_width as int / 8,
        0 <= coord < view.dim->0,
    ensures
        ({
            let after = view.swap_removed(idx);
            let from = moved_from(view.n, idx, slot);
            let d = view.dim->0 as int;
            let width = d * view.bit_width / 8;
            &&& after.scales[slot] == view.scales[from]
            &&& view.packed is Some ==> after.packed->0[slot * width + byte]
                == view.packed->0[from * width + byte]
            &&& view.warmup is Some ==> after.warmup->0[slot * d + coord]
                == view.warmup->0[from * d + coord]
        }),
{
    let d = view.dim->0 as int;
    let w = view.bit_width as int;
    let width = d * w / 8;
    law_row_width(d, w);
    assert(width == crate::model::packed_row_bytes(d, w));
    law_removed_rows(view.scales, 1, view.n, idx, slot, 0);
    if let Some(p) = view.packed {
        law_removed_rows(p, width, view.n, idx, slot, byte);
    }
    if let Some(buffer) = view.warmup {
        law_removed_rows(buffer, d, view.n, idx, slot, coord);
    }
}

/// A removal moves the last row's lane into the removed one's and leaves a zero lane
/// behind it; every other slot keeps its bytes.
pub proof fn law_removal_moves_the_last_lane(view: IndexView, idx: int, slot: int, j: int)
    requires
        view.wf(),
        0 <= idx < view.n,
        view.blocked is Some,
        0 <= j < view.blocked->0.groups,
        0 <= slot < 32 * ((view.n + 30) / 32),
    ensures
        ({
            let before = view.blocked->0;
            let after = view.swap_removed(idx).blocked->0;
            lane_byte(after.data, before.groups, slot, j) == if slot == view.n - 1 {
                0
            } else {
                lane_byte(before.data, before.groups, moved_from(view.n, idx, slot), j)
            }
        }),
{
    let b = view.blocked->0;
    let old_blocks = (view.n + 31) / 32;
    law_blocked_size(view.n, b.groups, old_blocks);
    law_removed_bytes(
        b.data,
        b.groups,
        view.n,
        idx,
        old_blocks,
        (view.n + 30) / 32,
        slot,
        j,
    );
}

} // verus!
