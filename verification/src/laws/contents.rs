//! What an index holds, whatever caches it keeps: its rows in packed form, from
//! which both encodings and the stored code section follow.
use crate::blocked::{
    block_bytes, blocked_len, blocks, lane_row, lanes_appended, lanes_swap_removed,
    lemma_blocked_len_monotone, lemma_lane_inside, padding_zero,
};
use crate::construct::{built, lemma_built_wf, parts_error, CodePayload, StoredIndex};
use crate::laws::layout::{
    clean_padding, law_append_keeps_padding_clean, law_appended_lanes,
    law_blocked_bytes_determined, law_remove_keeps_padding_clean, law_removed_lanes,
};
use crate::laws::storing::{law_parts_build_the_index_again, law_stored_index_reads_back};
use crate::model::{packed_row_bytes, IndexView};
use crate::rows::{
    converted, lemma_appended_rows, lemma_converted_rows, lemma_row_count, lemma_row_fits,
    lemma_rows_determine, lemma_swap_removed_rows, makes_rows, row, swap_removed,
};
use crate::work::{Codebook, EncodeEvent, LaneRows};
use vstd::prelude::*;

verus! {

/// The lane form of a packed row: how many bytes it has, and which.
pub struct LaneForm {
    /// Bytes per row.
    pub groups: int,
    /// The lane form of a packed row.
    pub lane_of: spec_fn(Seq<u8>) -> Seq<u8>,
}

impl LaneForm {
    /// Every packed row of `width` bytes has a lane form of `groups` bytes.
    pub open spec fn fits(self, width: int) -> bool {
        self.groups > 0 && makes_rows(self.lane_of, width, self.groups)
    }

    /// The lane form of a buffer of packed rows.
    pub open spec fn of(self, packed: Seq<u8>, width: int) -> Seq<u8> {
        converted(packed, width, self.groups, self.lane_of)
    }

    /// The code section a file stores for these `n` rows.
    pub open spec fn section(self, packed: Seq<u8>, width: int, n: int) -> Seq<u8> {
        if n == 0 {
            Seq::empty()
        } else {
            lanes_appended(Seq::empty(), self.groups, 0, self.of(packed, width), n)
        }
    }
}

/// Bytes of a packed row of an index whose dim is committed.
pub open spec fn row_width(view: IndexView) -> int {
    packed_row_bytes(view.dim->0 as int, view.bit_width as int)
}

/// A packed row has bytes.
pub proof fn lemma_row_width(view: IndexView)
    requires
        view.stores_wf(),
        view.dim is Some,
    ensures
        0 < row_width(view),
{
    let d = view.dim->0 as int;
    let w = view.bit_width as int;
    assert(d * w >= 16) by (nonlinear_arith)
        requires
            d >= 8,
            w >= 2,
    ;
}

/// The index holds exactly these packed rows: whatever encoding of them is there is
/// theirs, and nothing stands in the padding.
pub open spec fn holds(view: IndexView, packed: Seq<u8>, form: LaneForm) -> bool {
    &&& packed.len() == view.n * row_width(view)
    &&& view.packed matches Some(p) ==> p == packed
    &&& view.blocked matches Some(b) ==> {
        &&& b.groups == form.groups
        &&& padding_zero(b.data, b.groups, view.n)
        &&& forall|slot: int|
            0 <= slot < view.n ==> #[trigger] lane_row(b.data, b.groups, slot) == (form.lane_of)(
                row(packed, row_width(view), slot),
            )
    }
}

/// `lanes` holds the lane form of these packed rows.
pub open spec fn lane_rows_of(
    lanes: LaneRows,
    packed: Seq<u8>,
    width: int,
    form: LaneForm,
) -> bool {
    lanes.groups == form.groups && lanes.bytes@ == form.of(packed, width)
}

/// Where the blocked layout of the rows has to be laid out, `lanes` holds their
/// lane form.
pub open spec fn lanes_supplied(
    view: IndexView,
    lanes: Option<LaneRows>,
    packed: Seq<u8>,
    form: LaneForm,
) -> bool {
    view.n > 0 && view.blocked is None ==> lanes is Some && lane_rows_of(
        lanes->0,
        packed,
        row_width(view),
        form,
    )
}

/// The lanes an append was given are the lane form of the packed rows that the
/// index named for it.
pub open spec fn lanes_delivered(view: IndexView, event: EncodeEvent, form: LaneForm) -> bool {
    match event {
        EncodeEvent::Encoded(rows, lanes) => match view.rows_for_lanes(rows.codes@) {
            Some(named) => lanes@ == form.of(named, row_width(view)),
            None => true,
        },
        _ => true,
    }
}

/// A committed append adds the new packed rows behind those the index held,
/// whichever encodings of them it keeps.
pub proof fn law_append_extends_what_is_held(
    view: IndexView,
    d: usize,
    n: int,
    event: EncodeEvent,
    packed: Seq<u8>,
    form: LaneForm,
)
    requires
        view.stores_wf(),
        view.dim == Some(d),
        0 <= n,
        form.fits(row_width(view)),
        holds(view, packed, form),
        view.commits(d as int, n, event),
        lanes_delivered(view, event, form),
    ensures
        event is Encoded,
        holds(view.appended(d as int, n, event), packed + event->Encoded_0.codes@, form),
{
    let rows = event->Encoded_0;
    let lanes = event->Encoded_1;
    let codes = rows.codes@;
    let width = row_width(view);
    lemma_row_width(view);
    let after = view.appended(d as int, n, event);
    let all = packed + codes;
    assert((view.n + n) * width == view.n * width + n * width) by (nonlinear_arith);
    assert(0 * width == 0);
    if view.packed is None && !view.blocked_only() {
        assert(packed =~= Seq::<u8>::empty());
    }
    if view.blocked is Some {
        let b = view.blocked->0;
        let from = view.lanes_from();
        let kept = if view.blocked_only() {
            b.data
        } else {
            b.data.take((view.n / 32) * block_bytes(b.groups))
        };
        let m = view.n + n - from;
        let out = lanes_appended(kept, b.groups, from, lanes@, m);
        let named = view.rows_for_lanes(codes)->0;
        lemma_blocked_len_monotone(from, view.n, b.groups);
        assert(kept.len() == blocked_len(from, b.groups));
        assert(0 <= from * width <= view.n * width) by (nonlinear_arith)
            requires
                0 <= from <= view.n,
                0 <= width,
        ;
        assert(m * width == (view.n + n) * width - from * width) by (nonlinear_arith)
            requires
                m == view.n + n - from,
        ;
        assert(named =~= all.skip(from * width)) by {
            if view.blocked_only() {
                assert(all.skip(from * width) =~= codes);
            }
        }
        lemma_converted_rows(named, width, form.groups, m, form.lane_of);
        assert forall|slot: int| 0 <= slot < view.n + n implies #[trigger] lane_row(
            out,
            b.groups,
            slot,
        ) == (form.lane_of)(row(all, width, slot)) by {
            law_appended_lanes(kept, b.groups, from, lanes@, m, slot);
            if slot < from {
                lemma_appended_rows(packed, codes, width, view.n, n, slot);
                assert forall|g: int| 0 <= g < b.groups implies lane_row(kept, b.groups, slot)[g]
                    == lane_row(b.data, b.groups, slot)[g] by {
                    lemma_lane_inside(b.groups, from, slot, g);
                }
                assert(lane_row(kept, b.groups, slot) =~= lane_row(b.data, b.groups, slot));
            } else {
                let i = slot - from;
                assert(row(lanes@, form.groups, i) == (form.lane_of)(row(named, width, i)));
                assert(i * width == slot * width - from * width) by (nonlinear_arith)
                    requires
                        i == slot - from,
                ;
                lemma_row_fits(i, m, width);
                lemma_row_fits(slot, view.n + n, width);
                assert(row(named, width, i) =~= row(all, width, slot));
            }
        }
        assert(clean_padding(view));
        law_append_keeps_padding_clean(view, d, n, event);
        assert(after.blocked->0.data == out);
    }
}

/// A removal moves the last packed row into the removed one, whichever encodings
/// the index keeps.
pub proof fn law_removal_shrinks_what_is_held(
    view: IndexView,
    idx: int,
    packed: Seq<u8>,
    form: LaneForm,
)
    requires
        view.wf(),
        0 <= idx < view.n,
        holds(view, packed, form),
    ensures
        holds(view.swap_removed(idx), swap_removed(packed, row_width(view), view.n, idx), form),
{
    let width = row_width(view);
    lemma_row_width(view);
    lemma_row_count(view.n - 1, width);
    let after = view.swap_removed(idx);
    let rest = swap_removed(packed, width, view.n, idx);
    if let Some(b) = view.blocked {
        let out = lanes_swap_removed(b.data, b.groups, view.n, idx);
        assert forall|slot: int| 0 <= slot < view.n - 1 implies #[trigger] lane_row(
            out,
            b.groups,
            slot,
        ) == (form.lane_of)(row(rest, width, slot)) by {
            law_removed_lanes(b.data, b.groups, view.n, idx, slot);
            lemma_swap_removed_rows(packed, width, view.n, idx, slot);
            let source = if slot == idx {
                view.n - 1
            } else {
                slot
            };
            assert(lane_row(b.data, b.groups, source) == (form.lane_of)(
                row(packed, width, source),
            ));
        }
        law_remove_keeps_padding_clean(view, idx);
    }
}

/// The layout of rows given in lane form.
proof fn lemma_section_lanes(packed: Seq<u8>, width: int, n: int, form: LaneForm)
    requires
        0 < width,
        0 < n,
        packed.len() == n * width,
        form.fits(width),
    ensures
        form.section(packed, width, n).len() == blocked_len(n, form.groups),
        padding_zero(form.section(packed, width, n), form.groups, n),
        forall|slot: int|
            0 <= slot < n ==> #[trigger] lane_row(
                form.section(packed, width, n),
                form.groups,
                slot,
            ) == (form.lane_of)(row(packed, width, slot)),
{
    let groups = form.groups;
    let bytes = form.of(packed, width);
    let data = form.section(packed, width, n);
    lemma_converted_rows(packed, width, groups, n, form.lane_of);
    lemma_blocked_len_monotone(0, n, groups);
    assert(blocked_len(0, groups) == 0) by (nonlinear_arith)
        requires
            blocks(0) == 0,
    ;
    assert forall|slot: int| 0 <= slot < n implies #[trigger] lane_row(data, groups, slot) == (
    form.lane_of)(row(packed, width, slot)) by {
        law_appended_lanes(Seq::empty(), groups, 0, bytes, n, slot);
        assert(row(bytes, groups, slot - 0) == (form.lane_of)(row(packed, width, slot)));
    }
}

/// What a file stores of the rows depends on the rows alone: it is the same whether
/// their blocked layout is cached or laid out afresh.
pub proof fn law_code_section_depends_on_the_rows_alone(
    view: IndexView,
    lanes: Option<LaneRows>,
    packed: Seq<u8>,
    form: LaneForm,
)
    requires
        view.stores_wf(),
        view.dim is Some,
        form.fits(row_width(view)),
        holds(view, packed, form),
        lanes_supplied(view, lanes, packed, form),
        view.code_section(lanes) is Some,
    ensures
        view.code_section(lanes) == Some(form.section(packed, row_width(view), view.n)),
        view.n > 0 ==> view.section_groups(lanes) == form.groups,
{
    let width = row_width(view);
    lemma_row_width(view);
    if view.n > 0 {
        lemma_section_lanes(packed, width, view.n, form);
        if let Some(b) = view.blocked {
            let data = form.section(packed, width, view.n);
            assert forall|slot: int| 0 <= slot < view.n implies #[trigger] lane_row(
                b.data,
                b.groups,
                slot,
            ) == lane_row(data, b.groups, slot) by {
                assert(lane_row(data, form.groups, slot) == (form.lane_of)(
                    row(packed, width, slot),
                ));
            }
            law_blocked_bytes_determined(b.data, data, b.groups, view.n);
        }
    }
}

/// Preparing a scan, and materializing the packed rows, change nothing of what is
/// held.
pub proof fn law_caches_are_filled_with_what_is_held(
    view: IndexView,
    centroids: Option<Vec<u32>>,
    lanes: Option<LaneRows>,
    rebuilt: Option<Vec<u8>>,
    packed: Seq<u8>,
    form: LaneForm,
)
    requires
        view.wf(),
        view.dim is Some,
        form.fits(row_width(view)),
        holds(view, packed, form),
        lanes_supplied(view, lanes, packed, form),
        view.packed is None && view.n > 0 ==> rebuilt is Some && rebuilt->0@ == packed,
    ensures
        holds(view.prepared(centroids, lanes), packed, form),
        holds(view.materialized(rebuilt), packed, form),
{
    lemma_row_width(view);
    assert(0 * row_width(view) == 0);
    if view.n > 0 {
        lemma_section_lanes(packed, row_width(view), view.n, form);
    } else {
        assert(packed =~= Seq::<u8>::empty());
    }
}

/// Where different packed rows have different lane forms, the packed rows that a
/// blocked layout stands for are the ones that were held: a reconstruction whose
/// rows have the cached lanes is what was encoded.
pub proof fn law_reconstructed_rows_are_what_was_held(
    view: IndexView,
    rebuilt: Vec<u8>,
    packed: Seq<u8>,
    form: LaneForm,
)
    requires
        view.wf(),
        view.dim is Some,
        holds(view, packed, form),
        view.blocked is Some,
        forall|a: Seq<u8>, b: Seq<u8>|
            a.len() == row_width(view) && b.len() == row_width(view) && #[trigger] (form.lane_of)(a)
                == #[trigger] (form.lane_of)(b) ==> a == b,
        rebuilt@.len() == view.n * row_width(view),
        forall|slot: int|
            0 <= slot < view.n ==> (form.lane_of)(
                #[trigger] row(rebuilt@, row_width(view), slot),
            ) == lane_row(view.blocked->0.data, form.groups, slot),
    ensures
        rebuilt@ == packed,
        view.materialized(Some(rebuilt)).packed == Some(packed),
        holds(view.materialized(Some(rebuilt)), packed, form),
{
    let width = row_width(view);
    lemma_row_width(view);
    assert(0 * width == 0);
    assert forall|slot: int| 0 <= slot < view.n implies #[trigger] row(rebuilt@, width, slot)
        == row(packed, width, slot) by {
        lemma_row_fits(slot, view.n, width);
        let a = row(rebuilt@, width, slot);
        let b = row(packed, width, slot);
        assert(lane_row(view.blocked->0.data, form.groups, slot) == (form.lane_of)(b));
        assert((form.lane_of)(a) == (form.lane_of)(b));
        assert(a.len() == width && b.len() == width);
    }
    lemma_rows_determine(rebuilt@, packed, width, view.n);
    if view.n == 0 {
        assert(packed =~= Seq::<u8>::empty());
    }
}

/// What is read back from a file holds the rows that were stored.
pub proof fn law_reading_back_keeps_what_is_held(
    view: IndexView,
    lanes: Option<LaneRows>,
    stored: StoredIndex,
    packed: Seq<u8>,
    form: LaneForm,
)
    requires
        view.wf(),
        view.dim is Some,
        form.fits(row_width(view)),
        holds(view, packed, form),
        lanes_supplied(view, lanes, packed, form),
        stored.describes(view, lanes),
    ensures
        holds(stored.index(None), packed, form),
{
    lemma_row_width(view);
    law_stored_index_reads_back(view, lanes, stored);
    law_code_section_depends_on_the_rows_alone(view, lanes, packed, form);
    assert(0 * row_width(view) == 0);
    if view.n > 0 {
        lemma_section_lanes(packed, row_width(view), view.n, form);
    } else {
        assert(packed =~= Seq::<u8>::empty());
    }
}

/// Two stored indexes have the same fields, and so the same bytes.
pub open spec fn same_stored(a: StoredIndex, b: StoredIndex) -> bool {
    &&& a.bit_width == b.bit_width
    &&& a.dim == b.dim
    &&& a.n_vectors == b.n_vectors
    &&& a.scales@ == b.scales@
    &&& a.tqplus_shift@ == b.tqplus_shift@
    &&& a.tqplus_scale@ == b.tqplus_scale@
    &&& a.codes matches CodePayload::BlockedSeq(p)
    &&& b.codes matches CodePayload::BlockedSeq(q)
    &&& p.groups == q.groups
    &&& p.codes@ == q.codes@
    &&& p.boundaries@ == q.boundaries@
    &&& p.centroids@ == q.centroids@
}

/// Two indexes agree in everything but their caches.
pub open spec fn same_but_caches(a: IndexView, b: IndexView) -> bool {
    &&& a.dim == b.dim
    &&& a.bit_width == b.bit_width
    &&& a.n == b.n
    &&& a.scales == b.scales
    &&& a.shift == b.shift
    &&& a.scale == b.scale
}

/// Two indexes that hold rows hold the same codebook.
pub open spec fn same_codebook(a: IndexView, b: IndexView) -> bool {
    a.n > 0 ==> a.boundaries == b.boundaries && a.centroids == b.centroids
}

/// What is stored depends on the rows, the calibration and the codebook, and not on
/// which encodings of the rows happen to be cached: two indexes that agree in those
/// store the same.
pub proof fn law_stored_fields_do_not_depend_on_caches(
    a: IndexView,
    lanes_a: Option<LaneRows>,
    stored_a: StoredIndex,
    b: IndexView,
    lanes_b: Option<LaneRows>,
    stored_b: StoredIndex,
    packed: Seq<u8>,
    form: LaneForm,
)
    requires
        a.wf(),
        b.wf(),
        a.dim is Some,
        same_but_caches(a, b),
        same_codebook(a, b),
        form.fits(row_width(a)),
        holds(a, packed, form),
        holds(b, packed, form),
        lanes_supplied(a, lanes_a, packed, form),
        lanes_supplied(b, lanes_b, packed, form),
        stored_a.describes(a, lanes_a),
        stored_b.describes(b, lanes_b),
    ensures
        same_stored(stored_a, stored_b),
{
    law_code_section_depends_on_the_rows_alone(a, lanes_a, packed, form);
    law_code_section_depends_on_the_rows_alone(b, lanes_b, packed, form);
}

/// Warming the caches of an index, or materializing its packed rows, does not change
/// what is stored of it.
pub proof fn law_warm_and_cold_caches_store_the_same(
    view: IndexView,
    lanes: Option<LaneRows>,
    stored: StoredIndex,
    rebuilt: Option<Vec<u8>>,
    other: Option<LaneRows>,
    warm: StoredIndex,
    packed: Seq<u8>,
    form: LaneForm,
)
    requires
        view.wf(),
        view.dim is Some,
        form.fits(row_width(view)),
        holds(view, packed, form),
        lanes_supplied(view, lanes, packed, form),
        view.packed is None && view.n > 0 ==> rebuilt is Some && rebuilt->0@ == packed,
        stored.describes(view, lanes),
        warm.describes(view.prepared(None, lanes).materialized(rebuilt), other),
    ensures
        same_stored(stored, warm),
{
    let ready = view.prepared(None, lanes);
    let width = row_width(view);
    lemma_row_width(view);
    law_caches_are_filled_with_what_is_held(view, None, lanes, rebuilt, packed, form);
    assert(view.code_section(lanes) is Some);
    if view.n > 0 && view.blocked is None {
        lemma_section_lanes(packed, width, view.n, form);
        assert(view.all_lanes(lanes->0));
        assert(ready.blocked is Some);
    }
    assert(ready.wf());
    assert(0 * width == 0);
    law_caches_are_filled_with_what_is_held(ready, None, lanes, rebuilt, packed, form);
    let full = ready.materialized(rebuilt);
    assert(full.wf());
    assert(lanes_supplied(full, other, packed, form));
    law_stored_fields_do_not_depend_on_caches(
        view,
        lanes,
        stored,
        full,
        other,
        warm,
        packed,
        form,
    );
}

/// An index that is rebuilt from its parts is the one they were taken from: it is
/// accepted, every accessor agrees, it is past warm-up, and it stores the same.
pub proof fn law_rebuilt_index_stores_the_same(
    view: IndexView,
    lanes: Option<LaneRows>,
    stored: StoredIndex,
    book: Option<Codebook>,
    other: Option<LaneRows>,
    rebuilt: StoredIndex,
    form: LaneForm,
)
    requires
        view.wf(),
        view.n > 0,
        view.packed is Some,
        view.n <= usize::MAX,
        view.packed->0.len() <= usize::MAX,
        form.fits(row_width(view)),
        holds(view, view.packed->0, form),
        lanes_supplied(view, lanes, view.packed->0, form),
        stored.describes(view, lanes),
        ({
            let again = built(
                view.dim,
                view.bit_width,
                view.n,
                view.packed->0,
                view.scales,
                view.shift,
                view.scale,
            ).with_codebook(book);
            &&& same_codebook(view, again)
            &&& lanes_supplied(again, other, view.packed->0, form)
            &&& rebuilt.describes(again, other)
        }),
    ensures
        parts_error(
            view.dim,
            view.bit_width,
            view.n as usize,
            view.packed->0,
            view.scales,
            view.shift,
            view.scale,
        ) is None,
        ({
            let again = built(
                view.dim,
                view.bit_width,
                view.n,
                view.packed->0,
                view.scales,
                view.shift,
                view.scale,
            );
            &&& same_but_caches(again, view)
            &&& again.packed == view.packed
            &&& again.warmup is None
        }),
        same_stored(stored, rebuilt),
        rebuilt.error(None) is None,
{
    law_parts_build_the_index_again(view);
    lemma_built_wf(
        view.dim,
        view.bit_width,
        view.n as usize,
        view.packed->0,
        view.scales,
        view.shift,
        view.scale,
    );
    let again = built(
        view.dim,
        view.bit_width,
        view.n,
        view.packed->0,
        view.scales,
        view.shift,
        view.scale,
    ).with_codebook(book);
    assert(again.wf());
    assert(holds(again, view.packed->0, form));
    law_stored_fields_do_not_depend_on_caches(
        view,
        lanes,
        stored,
        again,
        other,
        rebuilt,
        view.packed->0,
        form,
    );
    law_stored_index_reads_back(again, other, rebuilt);
}

/// Appending to an index that was read back gives what appending to the index it
/// was stored from gives: the same rows and the same stored fields. The packed rows
/// of the one that was read back stay unmaterialized.
pub proof fn law_append_after_reading_back(
    view: IndexView,
    lanes: Option<LaneRows>,
    stored: StoredIndex,
    d: usize,
    n: int,
    event: EncodeEvent,
    back_event: EncodeEvent,
    packed: Seq<u8>,
    form: LaneForm,
)
    requires
        view.wf(),
        view.dim == Some(d),
        view.n > 0,
        0 <= n,
        form.fits(row_width(view)),
        holds(view, packed, form),
        lanes_supplied(view, lanes, packed, form),
        stored.describes(view, lanes),
        view.commits(d as int, n, event),
        lanes_delivered(view, event, form),
        stored.index(None).commits(d as int, n, back_event),
        lanes_delivered(stored.index(None), back_event, form),
        event->Encoded_0.codes@ == back_event->Encoded_0.codes@,
        event->Encoded_0.scales@ == back_event->Encoded_0.scales@,
    ensures
        ({
            let after = view.appended(d as int, n, event);
            let back = stored.index(None).appended(d as int, n, back_event);
            let rows = packed + event->Encoded_0.codes@;
            &&& back.packed is None
            &&& same_but_caches(after, back)
            &&& same_codebook(after, back)
            &&& holds(after, rows, form)
            &&& holds(back, rows, form)
            &&& forall|la: Option<LaneRows>, sa: StoredIndex, lb: Option<LaneRows>, sb: StoredIndex|
                #[trigger] sa.describes(after, la) && #[trigger] sb.describes(back, lb)
                    && lanes_supplied(after, la, rows, form) ==> same_stored(sa, sb)
        }),
{
    law_stored_index_reads_back(view, lanes, stored);
    law_reading_back_keeps_what_is_held(view, lanes, stored, packed, form);
    let start = stored.index(None);
    law_append_extends_what_is_held(view, d, n, event, packed, form);
    law_append_extends_what_is_held(start, d, n, back_event, packed, form);
    crate::model::lemma_appended_stores_wf(view, d, n, event);
    crate::model::lemma_appended_stores_wf(start, d, n, back_event);
    let after = view.appended(d as int, n, event);
    let back = start.appended(d as int, n, back_event);
    let rows = packed + event->Encoded_0.codes@;
    assert forall|la: Option<LaneRows>, sa: StoredIndex, lb: Option<LaneRows>, sb: StoredIndex|
        #[trigger] sa.describes(after, la) && #[trigger] sb.describes(back, lb) && lanes_supplied(
            after,
            la,
            rows,
            form,
        ) implies same_stored(sa, sb) by {
        law_code_section_depends_on_the_rows_alone(after, la, rows, form);
        law_code_section_depends_on_the_rows_alone(back, lb, rows, form);
    }
}

} // verus!
