//! The two encodings of the rows, and the padding behind them.
use crate::blocked::{
    block_bytes, blocked_len, blocks, group_at, lane_row, lanes_appended, lanes_swap_removed,
    lemma_blocked_len_monotone, lemma_lane_inside, lemma_lane_offset, lemma_slot_at, padding_zero,
    slot_at,
};
use crate::model::{lemma_seeded_wf, packed_row_bytes, IndexView};
use crate::rows::{lemma_appended_rows, lemma_row_fits, lemma_swap_removed_rows, row};
use crate::work::{AddPlan, AddWork, EncodeEvent, EncodeRun, EncodedRows, LaneRows};
use vstd::prelude::*;

verus! {

/// What removing by swapping does to whole lanes: the last slot's bytes take the
/// place of the removed one's, every other remaining slot keeps its own.
pub proof fn law_removed_lanes(data: Seq<u8>, groups: int, n: int, idx: int, slot: int)
    requires
        0 < groups,
        data.len() == blocked_len(n, groups),
        0 <= idx < n,
        0 <= slot < n - 1,
    ensures
        lane_row(lanes_swap_removed(data, groups, n, idx), groups, slot) == lane_row(
            data,
            groups,
            if slot == idx {
                n - 1
            } else {
                slot
            },
        ),
{
    let out = lane_row(lanes_swap_removed(data, groups, n, idx), groups, slot);
    let source = if slot == idx {
        n - 1
    } else {
        slot
    };
    assert forall|g: int| 0 <= g < groups implies out[g] == lane_row(data, groups, source)[g] by {
        lemma_lane_inside(groups, n - 1, slot, g);
        lemma_lane_offset(groups, slot, g);
    }
    assert(out =~= lane_row(data, groups, source));
}

/// What appending does to whole lanes: the slots already there keep their bytes,
/// the new ones hold the rows that were handed over.
pub proof fn law_appended_lanes(
    data: Seq<u8>,
    groups: int,
    n: int,
    rows: Seq<u8>,
    m: int,
    slot: int,
)
    requires
        0 < groups,
        0 <= n,
        0 <= m,
        data.len() == blocked_len(n, groups),
        rows.len() == m * groups,
        0 <= slot < n + m,
    ensures
        lane_row(lanes_appended(data, groups, n, rows, m), groups, slot) == if slot < n {
            lane_row(data, groups, slot)
        } else {
            row(rows, groups, slot - n)
        },
{
    let out = lane_row(lanes_appended(data, groups, n, rows, m), groups, slot);
    assert forall|g: int| 0 <= g < groups implies out[g] == (if slot < n {
        lane_row(data, groups, slot)
    } else {
        row(rows, groups, slot - n)
    })[g] by {
        lemma_lane_inside(groups, n + m, slot, g);
        lemma_lane_offset(groups, slot, g);
        if slot < n {
            lemma_lane_inside(groups, n, slot, g);
        } else {
            lemma_row_fits(slot - n, m, groups);
        }
    }
    if slot >= n {
        lemma_row_fits(slot - n, m, groups);
        assert(out =~= row(rows, groups, slot - n));
    } else {
        assert(out =~= lane_row(data, groups, slot));
    }
}

/// A blocked buffer is determined by the rows it holds: two buffers with the same
/// rows and zeros in the padding are byte for byte the same.
pub proof fn law_blocked_bytes_determined(a: Seq<u8>, b: Seq<u8>, groups: int, n: int)
    requires
        0 < groups,
        0 <= n,
        a.len() == blocked_len(n, groups),
        b.len() == blocked_len(n, groups),
        padding_zero(a, groups, n),
        padding_zero(b, groups, n),
        forall|slot: int| 0 <= slot < n ==> #[trigger] lane_row(a, groups, slot) == lane_row(b, groups, slot),
    ensures
        a == b,
{
    assert forall|p: int| 0 <= p < a.len() implies a[p] == b[p] by {
        lemma_slot_at(groups, p);
        let slot = slot_at(groups, p);
        let g = group_at(groups, p);
        if slot < n {
            assert(lane_row(a, groups, slot)[g] == lane_row(b, groups, slot)[g]);
        }
    }
    assert(a =~= b);
}

/// The padding of the blocked cache, when there is one, is zero.
pub open spec fn clean_padding(view: IndexView) -> bool {
    view.blocked matches Some(b) ==> padding_zero(b.data, b.groups, view.n)
}

/// Removing a slot leaves no stale byte in the padding.
pub proof fn law_remove_keeps_padding_clean(view: IndexView, idx: int)
    requires
        view.wf(),
        clean_padding(view),
        0 <= idx < view.n,
    ensures
        clean_padding(view.swap_removed(idx)),
{
    if let Some(b) = view.blocked {
        let out = lanes_swap_removed(b.data, b.groups, view.n, idx);
        lemma_blocked_len_monotone(view.n - 1, view.n, b.groups);
        assert forall|p: int|
            0 <= p < out.len() && slot_at(b.groups, p) >= view.n - 1 implies out[p] == 0 by {
            assert(0 <= p < b.data.len());
        }
    }
}

/// Appending rows leaves no stale byte in the padding.
pub proof fn law_append_keeps_padding_clean(
    view: IndexView,
    d: usize,
    n: int,
    event: EncodeEvent,
)
    requires
        view.stores_wf(),
        view.dim == Some(d),
        0 <= n,
        clean_padding(view),
    ensures
        clean_padding(view.appended(d as int, n, event)),
{
    if let EncodeEvent::Encoded(rows, lanes) = event {
        if view.commits(d as int, n, event) {
            if let Some(b) = view.blocked {
                let from = view.lanes_from();
                let kept = if view.blocked_only() {
                    b.data
                } else {
                    b.data.take((view.n / 32) * block_bytes(b.groups))
                };
                let out = lanes_appended(kept, b.groups, from, lanes@, view.n + n - from);
                lemma_blocked_len_monotone(from, view.n, b.groups);
                assert forall|p: int|
                    0 <= p < out.len() && slot_at(b.groups, p) >= view.n + n implies out[p]
                    == 0 by {
                    if p < kept.len() {
                        assert(kept[p] == b.data[p]);
                    }
                }
            }
        }
    }
}

/// Laying the rows out afresh leaves no stale byte in the padding.
pub proof fn law_prepare_leaves_padding_clean(
    view: IndexView,
    centroids: Option<Vec<u32>>,
    lanes: Option<LaneRows>,
)
    requires
        view.wf(),
        clean_padding(view),
    ensures
        clean_padding(view.prepared(centroids, lanes)),
{
}

/// The two encodings of the rows agree: where both are materialized, the lane of
/// every slot is the lane form of its packed row. `lane_of` is that conversion.
pub open spec fn in_step(view: IndexView, lane_of: spec_fn(Seq<u8>) -> Seq<u8>) -> bool {
    match (view.packed, view.blocked) {
        (Some(p), Some(b)) => forall|slot: int|
            0 <= slot < view.n ==> #[trigger] lane_row(b.data, b.groups, slot) == lane_of(
                row(p, packed_row_bytes(view.dim->0 as int, view.bit_width as int), slot),
            ),
        _ => true,
    }
}

/// Removing a slot keeps the two encodings of the rows in step.
pub proof fn law_remove_keeps_encodings_in_step(
    view: IndexView,
    idx: int,
    lane_of: spec_fn(Seq<u8>) -> Seq<u8>,
)
    requires
        view.wf(),
        in_step(view, lane_of),
        0 <= idx < view.n,
    ensures
        in_step(view.swap_removed(idx), lane_of),
{
    let after = view.swap_removed(idx);
    let width = packed_row_bytes(view.dim->0 as int, view.bit_width as int);
    if let (Some(p), Some(b)) = (view.packed, view.blocked) {
        let out = lanes_swap_removed(b.data, b.groups, view.n, idx);
        assert forall|slot: int| 0 <= slot < view.n - 1 implies #[trigger] lane_row(
            out,
            b.groups,
            slot,
        ) == lane_of(row(after.packed->0, width, slot)) by {
            law_removed_lanes(b.data, b.groups, view.n, idx, slot);
            lemma_swap_removed_rows(p, width, view.n, idx, slot);
            let source = if slot == idx {
                view.n - 1
            } else {
                slot
            };
            assert(lane_row(b.data, b.groups, source) == lane_of(row(p, width, source)));
        }
    }
}

/// The lanes that an encode handed over are the lane form of the packed rows they
/// stand for: those of the block the new rows begin in, and the new ones.
pub open spec fn delivers_lanes(
    view: IndexView,
    d: int,
    n: int,
    event: EncodeEvent,
    lane_of: spec_fn(Seq<u8>) -> Seq<u8>,
) -> bool {
    match event {
        EncodeEvent::Encoded(rows, lanes) => view.blocked is Some && !view.blocked_only() ==> {
            let width = packed_row_bytes(d, view.bit_width as int);
            let packed = view.with_packed().packed->0 + rows.codes@;
            forall|slot: int|
                view.lanes_from() <= slot < view.n + n ==> #[trigger] row(
                    lanes@,
                    view.blocked->0.groups,
                    slot - view.lanes_from(),
                ) == lane_of(row(packed, width, slot))
        },
        _ => true,
    }
}

/// Converting, row by row, the packed rows that the index names delivers the lanes
/// an append needs.
pub proof fn law_named_rows_deliver_the_lanes(
    view: IndexView,
    d: usize,
    n: int,
    rows: EncodedRows,
    lanes: Vec<u8>,
    lane_of: spec_fn(Seq<u8>) -> Seq<u8>,
)
    requires
        view.wf(),
        view.dim == Some(d),
        0 <= n,
        view.rows_fit(d as int, n, rows),
        view.rows_for_lanes(rows.codes@) matches Some(named) ==> forall|i: int|
            0 <= i < view.n + n - view.lanes_from() ==> #[trigger] row(
                lanes@,
                view.blocked->0.groups,
                i,
            ) == lane_of(row(named, packed_row_bytes(d as int, view.bit_width as int), i)),
    ensures
        delivers_lanes(view, d as int, n, EncodeEvent::Encoded(rows, lanes), lane_of),
{
    if view.blocked is Some && !view.blocked_only() {
        let width = packed_row_bytes(d as int, view.bit_width as int);
        let from = view.lanes_from();
        let before = view.with_packed().packed->0;
        let packed = before + rows.codes@;
        let named = view.rows_for_lanes(rows.codes@)->0;
        assert(0 * width == 0);
        assert(0 <= from * width <= view.n * width) by (nonlinear_arith)
            requires
                0 <= from <= view.n,
                0 <= width,
        ;
        assert((view.n + n) * width == view.n * width + n * width) by (nonlinear_arith);
        assert forall|slot: int| from <= slot < view.n + n implies #[trigger] row(
            lanes@,
            view.blocked->0.groups,
            slot - from,
        ) == lane_of(row(packed, width, slot)) by {
            assert((slot - from) * width == slot * width - from * width) by (nonlinear_arith);
            lemma_row_fits(slot, view.n + n, width);
            assert(0 <= (slot - from) * width) by (nonlinear_arith)
                requires
                    from <= slot,
                    0 <= width,
            ;
            assert(row(named, width, slot - from) =~= row(packed, width, slot));
        }
    }
}

proof fn lemma_delivers_lanes(
    a: IndexView,
    b: IndexView,
    d: int,
    n: int,
    event: EncodeEvent,
    lane_of: spec_fn(Seq<u8>) -> Seq<u8>,
)
    requires
        a.n == b.n,
        a.bit_width == b.bit_width,
        a.packed == b.packed,
        a.blocked == b.blocked,
        delivers_lanes(a, d, n, event, lane_of),
    ensures
        delivers_lanes(b, d, n, event, lane_of),
{
    if let EncodeEvent::Encoded(rows, lanes) = event {
        if b.blocked is Some && !b.blocked_only() {
            let width = packed_row_bytes(d, b.bit_width as int);
            let packed = b.with_packed().packed->0 + rows.codes@;
            assert(packed == a.with_packed().packed->0 + rows.codes@);
            assert forall|slot: int|
                b.lanes_from() <= slot < b.n + n implies #[trigger] row(
                lanes@,
                b.blocked->0.groups,
                slot - b.lanes_from(),
            ) == lane_of(row(packed, width, slot)) by {
                assert(row(lanes@, a.blocked->0.groups, slot - a.lanes_from()) == lane_of(
                    row(packed, width, slot),
                ));
            }
        }
    }
}

/// Appending rows keeps the two encodings of the rows in step.
pub proof fn law_append_keeps_encodings_in_step(
    view: IndexView,
    d: usize,
    n: int,
    event: EncodeEvent,
    lane_of: spec_fn(Seq<u8>) -> Seq<u8>,
)
    requires
        view.stores_wf(),
        view.dim == Some(d),
        0 <= n,
        in_step(view, lane_of),
        delivers_lanes(view, d as int, n, event, lane_of),
    ensures
        in_step(view.appended(d as int, n, event), lane_of),
{
    let width = packed_row_bytes(d as int, view.bit_width as int);
    if view.commits(d as int, n, event) && view.blocked is Some && !view.blocked_only() {
        let rows = event->Encoded_0;
        let lanes = event->Encoded_1;
        let b = view.blocked->0;
        let before = view.with_packed().packed->0;
        let packed = before + rows.codes@;
        let from = view.lanes_from();
        let kept = b.data.take((view.n / 32) * block_bytes(b.groups));
        let m = view.n + n - from;
        let out = lanes_appended(kept, b.groups, from, lanes@, m);
        lemma_blocked_len_monotone(from, view.n, b.groups);
        assert(0 * width == 0);
        assert(kept.len() == blocked_len(from, b.groups));
        assert forall|slot: int| 0 <= slot < view.n + n implies #[trigger] lane_row(
            out,
            b.groups,
            slot,
        ) == lane_of(row(packed, width, slot)) by {
            law_appended_lanes(kept, b.groups, from, lanes@, m, slot);
            if slot < from {
                lemma_appended_rows(before, rows.codes@, width, view.n, n, slot);
                assert(lane_row(b.data, b.groups, slot) == lane_of(row(before, width, slot)));
                assert forall|g: int| 0 <= g < b.groups implies lane_row(kept, b.groups, slot)[g]
                    == lane_row(b.data, b.groups, slot)[g] by {
                    lemma_lane_inside(b.groups, from, slot, g);
                }
                assert(lane_row(kept, b.groups, slot) =~= lane_row(b.data, b.groups, slot));
            } else {
                assert(row(lanes@, b.groups, slot - from) == lane_of(row(packed, width, slot)));
            }
        }
    }
}

/// Laying the packed rows out in blocks puts the two encodings in step, as long as
/// what was handed over is the lane form of the packed rows.
pub proof fn law_prepare_puts_encodings_in_step(
    view: IndexView,
    centroids: Option<Vec<u32>>,
    lanes: LaneRows,
    lane_of: spec_fn(Seq<u8>) -> Seq<u8>,
)
    requires
        view.wf(),
        in_step(view, lane_of),
        view.packed is Some && view.blocked is None ==> forall|slot: int|
            0 <= slot < view.n ==> #[trigger] row(lanes.bytes@, lanes.groups as int, slot)
                == lane_of(
                row(
                    view.packed->0,
                    packed_row_bytes(view.dim->0 as int, view.bit_width as int),
                    slot,
                ),
            ),
    ensures
        in_step(view.prepared(centroids, Some(lanes)), lane_of),
{
    let after = view.prepared(centroids, Some(lanes));
    let groups = lanes.groups as int;
    if view.blocked is None && after.blocked is Some && view.packed is Some {
        let width = packed_row_bytes(view.dim->0 as int, view.bit_width as int);
        assert(blocked_len(0, groups) == 0) by (nonlinear_arith)
            requires
                blocks(0) == 0,
        ;
        assert forall|slot: int| 0 <= slot < view.n implies #[trigger] lane_row(
            after.blocked->0.data,
            groups,
            slot,
        ) == lane_of(row(view.packed->0, width, slot)) by {
            law_appended_lanes(Seq::empty(), groups, 0, lanes.bytes@, view.n, slot);
            assert(row(lanes.bytes@, groups, slot - 0) == lane_of(
                row(view.packed->0, width, slot),
            ));
        }
    }
}

/// Adding a batch keeps the two encodings of the rows in step and the padding
/// clean, whether it is committed or not.
pub proof fn law_add_keeps_encodings_in_step(
    view: IndexView,
    vectors: Seq<u32>,
    work: AddWork,
    lane_of: spec_fn(Seq<u8>) -> Seq<u8>,
)
    requires
        view.wf(),
        view.dim is Some,
        in_step(view, lane_of),
        clean_padding(view),
        work.run matches EncodeRun::Single(event) ==> delivers_lanes(
            view,
            view.dim->0 as int,
            vectors.len() as int / view.dim->0 as int,
            event,
            lane_of,
        ),
    ensures
        in_step(view.added(vectors, work).0, lane_of),
        clean_padding(view.added(vectors, work).0),
{
    let d = view.dim->0;
    let n = vectors.len() as int / d as int;
    assert(0 <= n) by (nonlinear_arith)
        requires
            n == vectors.len() as int / d as int,
            0 < d,
    ;
    lemma_seeded_wf(view, d, work.codebook);
    let ready = view.seeded(d, work.codebook);
    let event = view.single_event(work);
    match view.add_plan(n) {
        AddPlan::Nothing => {},
        AddPlan::Append => {
            lemma_delivers_lanes(view, ready, d as int, n, event, lane_of);
            law_append_keeps_encodings_in_step(ready, d, n, event, lane_of);
            law_append_keeps_padding_clean(ready, d, n, event);
        },
        AddPlan::FreshFit => {
            let bare = IndexView { shift: Seq::empty(), scale: Seq::empty(), ..ready };
            assert(view.n == 0) by (nonlinear_arith)
                requires
                    view.n * d == 0,
                    0 < d,
            ;
            lemma_delivers_lanes(view, bare, d as int, n, event, lane_of);
            law_append_keeps_encodings_in_step(bare, d, n, event, lane_of);
            law_append_keeps_padding_clean(bare, d, n, event);
        },
        AddPlan::Refit { .. } => {},
    }
}

} // verus!
