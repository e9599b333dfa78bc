//! What the caches are filled with, and what a file is given of an index, in plain
//! numbers.
use crate::blocked::blocks;
use crate::construct::{CodePayload, StoredIndex};
use crate::laws::committing::{codebook_at_hand, handed_over};
use crate::laws::sizes::{
    lane_byte, law_appended_bytes, law_blocked_size, law_codebook_size, law_packed_size,
    law_row_width, whole_blocks,
};
use crate::model::IndexView;
use crate::persist::StoredShape;
use crate::work::{Codebook, LaneRows};
use vstd::arithmetic::power2::pow2;
use vstd::prelude::*;

verus! {

/// `lanes` holds one lane row for each slot, and a blocked buffer of them can be
/// addressed.
pub open spec fn every_lane(view: IndexView, lanes: LaneRows) -> bool {
    &&& lanes.groups > 0
    &&& lanes.bytes@.len() == view.n * lanes.groups
    &&& 32 * ((view.n + 31) / 32) * lanes.groups <= usize::MAX
}

proof fn lemma_every_lane(view: IndexView, lanes: LaneRows)
    ensures
        view.all_lanes(lanes) <==> every_lane(view, lanes),
{
    law_blocked_size(view.n, lanes.groups as int, (view.n + 31) / 32);
}

/// Preparing a scan fills each cache that was empty, from what was handed over and fits,
/// and leaves everything else alone. An index without rows is left as it is.
pub proof fn law_prepared_caches(
    view: IndexView,
    centroids: Option<Vec<u32>>,
    lanes: Option<LaneRows>,
)
    requires
        view.wf(),
    ensures
        ({
            let after = view.prepared(centroids, lanes);
            &&& view.n == 0 ==> after == view
            &&& after.dim == view.dim
            &&& after.bit_width == view.bit_width
            &&& after.n == view.n
            &&& after.packed == view.packed
            &&& after.scales == view.scales
            &&& after.shift == view.shift
            &&& after.scale == view.scale
            &&& after.warmup == view.warmup
            &&& after.boundaries == view.boundaries
            &&& after.scratch_demand == view.scratch_demand
            &&& view.n > 0 ==> after.rotation == view.dim
            &&& view.n > 0 ==> after.centroids == if view.centroids is None && centroids is Some
                && centroids->0@.len() == pow2(view.bit_width as nat) {
                Some(centroids->0@)
            } else {
                view.centroids
            }
            &&& view.blocked is Some ==> after.blocked == view.blocked
            &&& view.n > 0 && view.blocked is None ==> {
                &&& after.blocked is Some <==> lanes is Some && every_lane(view, lanes->0)
                &&& after.blocked is Some ==> {
                    &&& after.blocked->0.groups == lanes->0.groups
                    &&& whole_blocks(view.n, after.blocked->0.n_blocks)
                    &&& after.blocked->0.data.len() == 32 * after.blocked->0.n_blocks
                        * lanes->0.groups
                }
            }
        }),
{
    law_row_width(8, view.bit_width as int);
    if let Some(rows) = lanes {
        lemma_every_lane(view, rows);
        law_blocked_size(view.n, rows.groups as int, blocks(view.n));
        assert(0 <= 32 * blocks(view.n) * rows.groups) by (nonlinear_arith)
            requires
                0 <= blocks(view.n),
                0 <= rows.groups,
        ;
    }
    assert(view.n == 0 ==> view.prepared(centroids, lanes) =~= view);
}

/// A blocked buffer that was laid out afresh holds each row that was handed over in its
/// slot's lane, and zeros behind the last one, for a scan as for a file.
pub proof fn law_laid_out_rows(
    view: IndexView,
    centroids: Option<Vec<u32>>,
    lanes: LaneRows,
    slot: int,
    j: int,
)
    requires
        view.wf(),
        view.n > 0,
        view.blocked is None,
        every_lane(view, lanes),
        0 <= j < lanes.groups,
        0 <= slot < 32 * ((view.n + 31) / 32),
    ensures
        ({
            let g = lanes.groups as int;
            let cached = view.prepared(centroids, Some(lanes)).blocked->0.data;
            let stored = view.code_section(Some(lanes))->0;
            let expected = if slot < view.n {
                lanes.bytes@[slot * g + j]
            } else {
                0
            };
            &&& lane_byte(cached, g, slot, j) == expected
            &&& lane_byte(stored, g, slot, j) == expected
        }),
{
    lemma_every_lane(view, lanes);
    let count = (view.n + 31) / 32;
    assert(32 * 0 * lanes.groups == 0) by (nonlinear_arith);
    law_appended_bytes(
        Seq::empty(),
        lanes.groups as int,
        0,
        lanes.bytes@,
        view.n,
        0,
        count,
        slot,
        j,
    );
}

/// The packed rows after they have been asked for: those that are there, none where
/// there are no rows, or what was made of the lanes, where it has the size of so many
/// rows. Nothing else changes.
pub proof fn law_materialized_rows(view: IndexView, made: Option<Vec<u8>>)
    requires
        view.wf(),
    ensures
        ({
            let after = view.materialized(made);
            let fits = made is Some && 8 * made->0@.len() == view.n * view.dim->0 * view.bit_width;
            &&& after == (IndexView { packed: after.packed, ..view })
            &&& view.packed is Some ==> after.packed == view.packed
            &&& view.packed is None && view.n == 0 ==> after.packed is Some
                && after.packed->0.len() == 0
            &&& view.packed is None && view.n > 0 ==> {
                &&& after.packed is Some <==> fits
                &&& fits ==> after.packed->0 == made->0@
            }
        }),
{
    if view.dim is Some {
        law_packed_size(view.n, view.dim->0 as int, view.bit_width as int);
    }
}

/// A codebook is taken over half by half, only where a half is missing and only when
/// both have the size of a codebook; nothing else changes.
pub proof fn law_taken_codebook(view: IndexView, book: Option<Codebook>)
    requires
        2 <= view.bit_width <= 4,
    ensures
        ({
            let after = view.with_codebook(book);
            let taken = book is Some && handed_over(view, book->0);
            &&& after == (IndexView {
                boundaries: after.boundaries,
                centroids: after.centroids,
                ..view
            })
            &&& after.boundaries == if view.boundaries is None && taken {
                Some(book->0.boundaries@)
            } else {
                view.boundaries
            }
            &&& after.centroids == if view.centroids is None && taken {
                Some(book->0.centroids@)
            } else {
                view.centroids
            }
            &&& view.has_codebook(book) <==> codebook_at_hand(view, book)
        }),
{
    if let Some(b) = book {
        law_codebook_size(b, view.bit_width as int);
    }
}

/// The code section of a file: nothing without rows, the blocked buffer where it is
/// cached, and otherwise the rows laid out, where every one was handed over. It has 32
/// times as many bytes as a slot for each block.
pub proof fn law_code_section(view: IndexView, lanes: Option<LaneRows>)
    requires
        view.wf(),
    ensures
        view.n == 0 ==> view.code_section(lanes) == Some(Seq::<u8>::empty())
            && view.section_groups(lanes) == 0,
        view.n > 0 && view.blocked is Some ==> view.code_section(lanes) == Some(
            view.blocked->0.data,
        ) && view.section_groups(lanes) == view.blocked->0.groups,
        view.n > 0 && view.blocked is None ==> {
            &&& view.code_section(lanes) is Some <==> lanes is Some && every_lane(view, lanes->0)
            &&& lanes is Some ==> view.section_groups(lanes) == lanes->0.groups
            &&& view.code_section(lanes) is Some ==> view.code_section(lanes)->0.len() == 32 * ((
            view.n + 31) / 32) * lanes->0.groups
        },
{
    if let Some(rows) = lanes {
        lemma_every_lane(view, rows);
        law_blocked_size(view.n, rows.groups as int, (view.n + 31) / 32);
        assert(0 <= 32 * ((view.n + 31) / 32) * rows.groups) by (nonlinear_arith)
            requires
                0 <= (view.n + 31) / 32,
                0 <= rows.groups,
        ;
    }
}

/// What a file holds of an index: its shape, its rows in blocked form, its scales, its
/// calibration and its codebook. The dim is 0 where none is committed, and the codebook
/// is all zeros where there are no rows.
pub proof fn law_stored_fields(stored: StoredIndex, view: IndexView, lanes: Option<LaneRows>)
    requires
        view.wf(),
    ensures
        stored.describes(view, lanes) <==> {
            let levels = pow2(view.bit_width as nat);
            &&& stored.bit_width == view.bit_width
            &&& stored.dim == if view.dim is Some {
                view.dim->0
            } else {
                0
            }
            &&& stored.n_vectors == view.n
            &&& stored.scales@ == view.scales
            &&& stored.tqplus_shift@ == view.shift
            &&& stored.tqplus_scale@ == view.scale
            &&& stored.codes matches CodePayload::BlockedSeq(p)
            &&& p.groups == view.section_groups(lanes)
            &&& view.code_section(lanes) == Some(p.codes@)
            &&& view.n > 0 ==> {
                &&& view.boundaries == Some(p.boundaries@)
                &&& view.centroids == Some(p.centroids@)
            }
            &&& view.n == 0 ==> {
                &&& p.boundaries@ == Seq::new((levels - 1) as nat, |i: int| 0u32)
                &&& p.centroids@ == Seq::new(levels as nat, |i: int| 0u32)
            }
        },
{
    law_row_width(8, view.bit_width as int);
    let levels = pow2(view.bit_width as nat) as int;
    assert(crate::calibration::repeated(0, levels - 1) =~= Seq::new(
        (levels - 1) as nat,
        |i: int| 0u32,
    ));
    assert(crate::calibration::repeated(0, levels) =~= Seq::new(levels as nat, |i: int| 0u32));
}

/// The announced sizes: the rows in whole blocks where there is a dim, a scale for each
/// row, and the entries of the calibration.
pub proof fn law_announced_sizes(shape: StoredShape, view: IndexView, groups: int, count: int)
    requires
        view.wf(),
        whole_blocks(view.n, count),
    ensures
        shape.announces(view, groups) <==> {
            &&& shape.bit_width == view.bit_width
            &&& shape.codes_len == if view.dim is Some {
                32 * count * groups
            } else {
                0
            }
            &&& shape.scales_len == view.n
            &&& shape.calibration_len == view.shift.len()
        },
        view.codes_len(groups) == if view.dim is Some {
            32 * count * groups
        } else {
            0
        },
{
    law_blocked_size(view.n, groups, count);
}

} // verus!
