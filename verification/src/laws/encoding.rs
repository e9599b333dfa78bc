//! What adding comes to when a row's codes and scale depend on that row alone, as
//! they do under one calibration.
use crate::calibration::TQPLUS_MIN_SAMPLES;
use crate::construct::{fresh, StoredIndex};
use crate::laws::contents::{
    holds, lanes_delivered, lanes_supplied, law_append_extends_what_is_held,
    law_removal_shrinks_what_is_held, law_stored_fields_do_not_depend_on_caches, lemma_row_width,
    row_width, same_but_caches, same_codebook, same_stored, LaneForm,
};
use crate::laws::layout::law_blocked_bytes_determined;
use crate::model::{lemma_added_wf, lemma_seeded_wf, lemma_swap_removed_wf, IndexView};
use crate::rows::{
    converted, lemma_converted_concat, lemma_converted_rows, lemma_converted_swap_removed,
    lemma_row_count, makes_rows, row, swap_removed,
};
use crate::work::{AddWork, EncodeEvent, EncodeRun, EncodedRows, LaneRows};
use vstd::prelude::*;

verus! {

/// An encoder under one calibration: the codes and the scale of a raw row.
pub struct Encoder {
    /// The packed codes of a row.
    pub code_of: spec_fn(Seq<u32>) -> Seq<u8>,
    /// The scale of a row.
    pub scale_of: spec_fn(Seq<u32>) -> u32,
}

impl Encoder {
    /// A row of `d` numbers has `width` bytes of codes.
    pub open spec fn fits(self, d: int, width: int) -> bool {
        makes_rows(self.code_of, d, width)
    }

    /// The codes of a batch of raw rows.
    pub open spec fn codes(self, vectors: Seq<u32>, d: int, width: int) -> Seq<u8> {
        converted(vectors, d, width, self.code_of)
    }

    /// The scales of a batch of raw rows.
    pub open spec fn scales(self, vectors: Seq<u32>, d: int) -> Seq<u32> {
        converted(vectors, d, 1, |r: Seq<u32>| seq![(self.scale_of)(r)])
    }

    /// `rows` is what this encoder makes of a batch.
    pub open spec fn encodes(
        self,
        vectors: Seq<u32>,
        d: int,
        width: int,
        rows: EncodedRows,
    ) -> bool {
        &&& rows.codes@ == self.codes(vectors, d, width)
        &&& rows.scales@ == self.scales(vectors, d)
    }
}

/// Batches of raw rows are encoded one after another.
proof fn lemma_encoder_concat(
    encoder: Encoder,
    x: Seq<u32>,
    y: Seq<u32>,
    d: int,
    width: int,
    n: int,
    m: int,
)
    requires
        0 < d,
        0 < width,
        0 <= n,
        0 <= m,
        x.len() == n * d,
        y.len() == m * d,
        encoder.fits(d, width),
    ensures
        encoder.codes(x + y, d, width) == encoder.codes(x, d, width) + encoder.codes(y, d, width),
        encoder.scales(x + y, d) == encoder.scales(x, d) + encoder.scales(y, d),
{
    lemma_converted_concat(x, y, d, width, n, m, encoder.code_of);
    lemma_converted_concat(x, y, d, 1, n, m, |r: Seq<u32>| seq![(encoder.scale_of)(r)]);
}

/// The kernels ran one encode of the batch, as this encoder does it, and delivered
/// the lanes it needs. A batch without rows needs nothing.
pub open spec fn delivered(
    view: IndexView,
    vectors: Seq<u32>,
    work: AddWork,
    encoder: Encoder,
    form: LaneForm,
) -> bool {
    vectors.len() > 0 ==> {
        &&& work.run matches EncodeRun::Single(event)
        &&& event matches EncodeEvent::Encoded(rows, lanes)
        &&& encoder.encodes(vectors, view.dim->0 as int, row_width(view), rows)
        &&& lanes_delivered(view, event, form)
    }
}

/// A batch of whole rows.
proof fn lemma_batch(vectors: Seq<u32>, d: int)
    requires
        0 < d,
        vectors.len() as int % d == 0,
    ensures
        vectors.len() == (vectors.len() as int / d) * d,
        0 <= vectors.len() as int / d,
        vectors.len() > 0 ==> vectors.len() as int / d > 0,
{
    let n = vectors.len() as int / d;
    vstd::arithmetic::div_mod::lemma_fundamental_div_mod(vectors.len() as int, d);
    assert(vectors.len() == n * d) by (nonlinear_arith)
        requires
            vectors.len() == d * n,
    ;
    assert(0 <= n) by (nonlinear_arith)
        requires
            n == vectors.len() as int / d,
            0 < d,
    ;
    assert(vectors.len() > 0 ==> n > 0) by (nonlinear_arith)
        requires
            vectors.len() == n * d,
            0 < d,
    ;
}

/// What a committed batch does to an index past warm-up, whichever caches it keeps:
/// the encoded rows go behind those it held, and nothing else changes but its
/// caches.
pub proof fn law_committed_batch_extends_what_is_held(
    view: IndexView,
    vectors: Seq<u32>,
    work: AddWork,
    packed: Seq<u8>,
    encoder: Encoder,
    form: LaneForm,
)
    requires
        view.wf(),
        view.dim is Some,
        view.warmup is None,
        vectors.len() as int % (view.dim->0 as int) == 0,
        form.fits(row_width(view)),
        encoder.fits(view.dim->0 as int, row_width(view)),
        holds(view, packed, form),
        delivered(view, vectors, work, encoder, form),
        view.added(vectors, work).1,
    ensures
        ({
            let d = view.dim->0 as int;
            let after = view.added(vectors, work).0;
            &&& after.n == view.n + vectors.len() as int / d
            &&& after.scales == view.scales + encoder.scales(vectors, d)
            &&& holds(after, packed + encoder.codes(vectors, d, row_width(view)), form)
            &&& after.dim == view.dim
            &&& after.bit_width == view.bit_width
            &&& after.shift == view.shift
            &&& after.scale == view.scale
            &&& after.warmup is None
            &&& after.blocked is Some <==> view.blocked is Some
            &&& after.packed is None <==> view.packed is None && (view.n > 0 || vectors.len()
                == 0)
        }),
{
    let d = view.dim->0;
    let n = vectors.len() as int / d as int;
    let width = row_width(view);
    lemma_batch(vectors, d as int);
    lemma_row_width(view);
    lemma_seeded_wf(view, d, work.codebook);
    if vectors.len() > 0 {
        let ready = view.seeded(d, work.codebook);
        let event = view.single_event(work);
        assert(holds(ready, packed, form));
        assert(ready.rows_for_lanes(event->Encoded_0.codes@) == view.rows_for_lanes(
            event->Encoded_0.codes@,
        ));
        law_append_extends_what_is_held(ready, d, n, event, packed, form);
    } else {
        assert(n == 0) by (nonlinear_arith)
            requires
                vectors.len() == n * d,
                vectors.len() == 0,
                0 < d,
        ;
        assert(encoder.codes(vectors, d as int, width) =~= Seq::<u8>::empty()) by {
            lemma_converted_rows(vectors, d as int, width, 0, encoder.code_of);
        }
        assert(encoder.scales(vectors, d as int) =~= Seq::<u32>::empty());
        assert(packed + encoder.codes(vectors, d as int, width) =~= packed);
        assert(view.scales + encoder.scales(vectors, d as int) =~= view.scales);
    }
}

/// Two indexes that hold the same rows and keep the same caches of them are equal in
/// both.
proof fn lemma_same_caches(a: IndexView, b: IndexView, packed: Seq<u8>, form: LaneForm)
    requires
        a.wf(),
        b.wf(),
        a.dim is Some,
        same_but_caches(a, b),
        holds(a, packed, form),
        holds(b, packed, form),
        a.packed is None <==> b.packed is None,
        a.blocked is None <==> b.blocked is None,
        0 < form.groups,
    ensures
        a.packed == b.packed,
        a.blocked == b.blocked,
{
    if let (Some(x), Some(y)) = (a.blocked, b.blocked) {
        assert forall|slot: int| 0 <= slot < a.n implies #[trigger] crate::blocked::lane_row(
            x.data,
            form.groups,
            slot,
        ) == crate::blocked::lane_row(y.data, form.groups, slot) by {
            assert(crate::blocked::lane_row(y.data, y.groups, slot) == (form.lane_of)(
                row(packed, row_width(a), slot),
            ));
        }
        law_blocked_bytes_determined(x.data, y.data, form.groups, a.n);
    }
}

/// Under a committed calibration it does not matter how vectors are split into
/// batches: two batches give what their concatenation gives, in every store and in
/// what is stored.
pub proof fn law_batches_add_up(
    view: IndexView,
    x: Seq<u32>,
    y: Seq<u32>,
    work_x: AddWork,
    work_y: AddWork,
    work_xy: AddWork,
    packed: Seq<u8>,
    encoder: Encoder,
    form: LaneForm,
)
    requires
        view.wf(),
        view.dim is Some,
        view.warmup is None,
        x.len() as int % (view.dim->0 as int) == 0,
        y.len() as int % (view.dim->0 as int) == 0,
        form.fits(row_width(view)),
        encoder.fits(view.dim->0 as int, row_width(view)),
        holds(view, packed, form),
        delivered(view, x, work_x, encoder, form),
        view.added(x, work_x).1,
        delivered(view.added(x, work_x).0, y, work_y, encoder, form),
        view.added(x, work_x).0.added(y, work_y).1,
        delivered(view, x + y, work_xy, encoder, form),
        view.added(x + y, work_xy).1,
    ensures
        ({
            let split = view.added(x, work_x).0.added(y, work_y).0;
            let whole = view.added(x + y, work_xy).0;
            let d = view.dim->0 as int;
            let rows = packed + encoder.codes(x + y, d, row_width(view));
            &&& same_but_caches(split, whole)
            &&& split.warmup == whole.warmup
            &&& split.packed == whole.packed
            &&& split.blocked == whole.blocked
            &&& holds(split, rows, form)
            &&& holds(whole, rows, form)
            &&& same_codebook(split, whole) ==> forall|
                ls: Option<LaneRows>,
                ss: StoredIndex,
                lw: Option<LaneRows>,
                sw: StoredIndex,
            |
                #[trigger] ss.describes(split, ls) && #[trigger] sw.describes(whole, lw)
                    && lanes_supplied(split, ls, rows, form) && lanes_supplied(
                    whole,
                    lw,
                    rows,
                    form,
                ) ==> same_stored(ss, sw)
        }),
{
    let d = view.dim->0 as int;
    let width = row_width(view);
    let n = x.len() as int / d;
    let m = y.len() as int / d;
    lemma_row_width(view);
    lemma_batch(x, d);
    lemma_batch(y, d);
    assert((n + m) * d == n * d + m * d) by (nonlinear_arith);
    lemma_row_count(n + m, d);
    vstd::arithmetic::div_mod::lemma_mod_multiples_basic(n + m, d);
    lemma_encoder_concat(encoder, x, y, d, width, n, m);
    lemma_added_wf(view, x, work_x);
    let mid = view.added(x, work_x).0;
    law_committed_batch_extends_what_is_held(view, x, work_x, packed, encoder, form);
    let held = packed + encoder.codes(x, d, width);
    law_committed_batch_extends_what_is_held(mid, y, work_y, held, encoder, form);
    law_committed_batch_extends_what_is_held(view, x + y, work_xy, packed, encoder, form);
    lemma_added_wf(mid, y, work_y);
    lemma_added_wf(view, x + y, work_xy);
    let split = mid.added(y, work_y).0;
    let whole = view.added(x + y, work_xy).0;
    let rows = packed + encoder.codes(x + y, d, width);
    assert(held + encoder.codes(y, d, width) =~= rows);
    assert(split.scales =~= whole.scales);
    lemma_same_caches(split, whole, rows, form);
    if same_codebook(split, whole) {
        assert forall|
            ls: Option<LaneRows>,
            ss: StoredIndex,
            lw: Option<LaneRows>,
            sw: StoredIndex,
        |
            #[trigger] ss.describes(split, ls) && #[trigger] sw.describes(whole, lw)
                && lanes_supplied(split, ls, rows, form) && lanes_supplied(whole, lw, rows, form)
            implies same_stored(ss, sw) by {
            law_stored_fields_do_not_depend_on_caches(split, ls, ss, whole, lw, sw, rows, form);
        }
    }
}

/// An index that is empty but for a calibration it was seeded with.
pub open spec fn seeded_index(
    d: usize,
    bit_width: usize,
    shift: Seq<u32>,
    scale: Seq<u32>,
) -> IndexView {
    IndexView { shift, scale, warmup: None, ..fresh(Some(d), bit_width) }
}

/// A batch that ends warm-up leaves the index as if it had been seeded with the
/// fitted calibration and been given the buffered rows followed by the batch: every
/// stored row is encoded under that calibration, in slot order.
pub proof fn law_crossing_is_as_if_seeded(
    view: IndexView,
    vectors: Seq<u32>,
    work: AddWork,
    seed_work: AddWork,
    encoder: Encoder,
    form: LaneForm,
)
    requires
        view.wf(),
        view.dim is Some,
        view.warmup is Some,
        vectors.len() as int % (view.dim->0 as int) == 0,
        vectors.len() > 0,
        view.n + (vectors.len() as int / view.dim->0 as int) >= TQPLUS_MIN_SAMPLES,
        view.added(vectors, work).1,
        form.fits(row_width(view)),
        encoder.fits(view.dim->0 as int, row_width(view)),
        work.run matches EncodeRun::Single(EncodeEvent::Encoded(rows, _)) ==> encoder.encodes(
            vectors,
            view.dim->0 as int,
            row_width(view),
            rows,
        ),
        work.run matches EncodeRun::Refitted {
            buffer: EncodeEvent::Encoded(first, _),
            batch: EncodeEvent::Encoded(second, _),
            ..
        } ==> encoder.encodes(view.warmup->0, view.dim->0 as int, row_width(view), first)
            && encoder.encodes(vectors, view.dim->0 as int, row_width(view), second),
        ({
            let after = view.added(vectors, work).0;
            let seeded = seeded_index(view.dim->0, view.bit_width, after.shift, after.scale);
            &&& delivered(seeded, view.warmup->0 + vectors, seed_work, encoder, form)
            &&& seeded.added(view.warmup->0 + vectors, seed_work).1
        }),
    ensures
        ({
            let after = view.added(vectors, work).0;
            let seeded = seeded_index(view.dim->0, view.bit_width, after.shift, after.scale);
            let other = seeded.added(view.warmup->0 + vectors, seed_work).0;
            &&& after.shift.len() == view.dim->0
            &&& same_but_caches(after, other)
            &&& after.packed == other.packed
            &&& after.packed is Some
            &&& after.warmup is None
            &&& other.warmup is None
        }),
{
    let d = view.dim->0;
    let di = d as int;
    let n = vectors.len() as int / di;
    let width = row_width(view);
    let raw = view.warmup->0;
    lemma_row_width(view);
    lemma_batch(vectors, di);
    lemma_added_wf(view, vectors, work);
    lemma_encoder_concat(encoder, raw, vectors, di, width, view.n, n);
    assert((view.n + n) * di == view.n * di + n * di) by (nonlinear_arith);
    lemma_row_count(view.n + n, di);
    vstd::arithmetic::div_mod::lemma_mod_multiples_basic(view.n + n, di);
    let after = view.added(vectors, work).0;
    let ready = view.seeded(d, work.codebook);
    if raw.len() == 0 {
        assert(view.n == 0) by (nonlinear_arith)
            requires
                view.n * d == 0,
                0 < d,
        ;
        assert(0 * width == 0);
        assert(raw + vectors =~= vectors);
        let rows = view.single_event(work)->Encoded_0;
        assert(view.packed->0 =~= Seq::<u8>::empty());
        assert(view.scales =~= Seq::<u32>::empty());
        assert(after.packed->0 =~= rows.codes@);
        assert(after.scales =~= rows.scales@);
        assert(after.shift.len() == d);
    } else {
        assert(view.n > 0) by (nonlinear_arith)
            requires
                view.n * d == raw.len(),
                raw.len() > 0,
                0 < d,
                0 <= view.n,
        ;
        let run = work.run;
        let first = run->buffer->Encoded_0;
        let second = run->batch->Encoded_0;
        assert(after.packed->0 =~= first.codes@ + second.codes@);
        assert(after.scales =~= first.scales@ + second.scales@);
    }
    assert(after.packed == Some(encoder.codes(raw + vectors, di, width)));
    assert(after.scales == encoder.scales(raw + vectors, di));
    let seeded = seeded_index(d, view.bit_width, after.shift, after.scale);
    assert(0 * width == 0);
    assert(seeded.wf());
    let none = Seq::<u8>::empty();
    assert(holds(seeded, none, form));
    law_committed_batch_extends_what_is_held(
        seeded,
        raw + vectors,
        seed_work,
        none,
        encoder,
        form,
    );
    let other = seeded.added(raw + vectors, seed_work).0;
    assert(none + encoder.codes(raw + vectors, di, width) =~= encoder.codes(
        raw + vectors,
        di,
        width,
    ));
    assert(seeded.scales + encoder.scales(raw + vectors, di) =~= encoder.scales(
        raw + vectors,
        di,
    ));
}

/// An index whose rows are all gone while it warmed up ends a batch that reaches the
/// threshold like a fresh one: the pair that the removed rows left behind changes
/// neither the calibration, nor the phase, nor the rows, nor what is stored.
pub proof fn law_drained_index_ends_like_a_fresh_one(
    view: IndexView,
    vectors: Seq<u32>,
    work: AddWork,
    fresh_work: AddWork,
    form: LaneForm,
)
    requires
        view.wf(),
        view.dim is Some,
        view.warmup is Some,
        view.n == 0,
        vectors.len() as int % (view.dim->0 as int) == 0,
        vectors.len() as int / view.dim->0 as int >= TQPLUS_MIN_SAMPLES,
        form.fits(row_width(view)),
        holds(view, Seq::empty(), form),
        work.run matches EncodeRun::Single(event) && lanes_delivered(view, event, form),
        view.added(vectors, work).1,
        fresh(view.dim, view.bit_width).added(vectors, fresh_work).1,
        // Both encoders were given the same batch and no calibration.
        work.run matches EncodeRun::Single(EncodeEvent::Encoded(rows, _)) && fresh_work.run matches
            EncodeRun::Single(EncodeEvent::Encoded(other, _)) && rows.codes@ == other.codes@
            && rows.scales@ == other.scales@ && rows.shift@ == other.shift@ && rows.scale@
            == other.scale@,
    ensures
        ({
            let after = view.added(vectors, work).0;
            let like = fresh(view.dim, view.bit_width).added(vectors, fresh_work).0;
            let rows = after.packed->0;
            &&& same_but_caches(after, like)
            &&& after.packed == like.packed
            &&& after.packed is Some
            &&& after.warmup is None
            &&& like.warmup is None
            &&& after.calibration_state() == like.calibration_state()
            &&& holds(after, rows, form)
            &&& holds(like, rows, form)
            &&& view.blocked is None ==> after.blocked == like.blocked
            &&& same_codebook(after, like) ==> forall|
                la: Option<LaneRows>,
                sa: StoredIndex,
                ll: Option<LaneRows>,
                sl: StoredIndex,
            |
                #[trigger] sa.describes(after, la) && #[trigger] sl.describes(like, ll)
                    && lanes_supplied(after, la, rows, form) && lanes_supplied(
                    like,
                    ll,
                    rows,
                    form,
                ) ==> same_stored(sa, sl)
        }),
{
    let d = view.dim->0;
    let di = d as int;
    let n = vectors.len() as int / di;
    let width = row_width(view);
    let start = fresh(view.dim, view.bit_width);
    lemma_row_width(view);
    lemma_batch(vectors, di);
    assert(0 * width == 0);
    assert(0 * di == 0);
    assert(start.wf());
    lemma_added_wf(view, vectors, work);
    lemma_added_wf(start, vectors, fresh_work);
    lemma_seeded_wf(view, d, work.codebook);
    lemma_seeded_wf(start, d, fresh_work.codebook);
    let none = Seq::<u8>::empty();
    assert(holds(start, none, form));
    let event = view.single_event(work);
    let other = start.single_event(fresh_work);
    let bare = IndexView {
        shift: Seq::empty(),
        scale: Seq::empty(),
        ..view.seeded(d, work.codebook)
    };
    let like = IndexView {
        shift: Seq::empty(),
        scale: Seq::empty(),
        ..start.seeded(d, fresh_work.codebook)
    };
    assert(bare.rows_for_lanes(event->Encoded_0.codes@) == view.rows_for_lanes(
        event->Encoded_0.codes@,
    ));
    assert(holds(bare, none, form));
    assert(holds(like, none, form));
    law_append_extends_what_is_held(bare, d, n, event, none, form);
    law_append_extends_what_is_held(like, d, n, other, none, form);
    let a = view.added(vectors, work).0;
    let b = start.added(vectors, fresh_work).0;
    let rows = a.packed->0;
    assert(view.packed->0 =~= none);
    assert(none + event->Encoded_0.codes@ =~= event->Encoded_0.codes@);
    assert(none + other->Encoded_0.codes@ =~= event->Encoded_0.codes@);
    assert(rows == event->Encoded_0.codes@);
    assert(a.scales =~= b.scales);
    if same_codebook(a, b) {
        assert forall|
            la: Option<LaneRows>,
            sa: StoredIndex,
            ll: Option<LaneRows>,
            sl: StoredIndex,
        |
            #[trigger] sa.describes(a, la) && #[trigger] sl.describes(b, ll) && lanes_supplied(
                a,
                la,
                rows,
                form,
            ) && lanes_supplied(b, ll, rows, form) implies same_stored(sa, sl) by {
            law_stored_fields_do_not_depend_on_caches(a, la, sa, b, ll, sl, rows, form);
        }
    }
}

/// A removed row leaves no trace: what is stored after a removal is what an index
/// stores that was given the remaining rows alone, whichever caches either keeps.
pub proof fn law_removal_leaves_no_trace(
    view: IndexView,
    raw: Seq<u32>,
    idx: int,
    lanes: Option<LaneRows>,
    stored: StoredIndex,
    other: IndexView,
    other_lanes: Option<LaneRows>,
    other_stored: StoredIndex,
    encoder: Encoder,
    form: LaneForm,
)
    requires
        view.wf(),
        other.wf(),
        0 <= idx < view.n,
        form.fits(row_width(view)),
        encoder.fits(view.dim->0 as int, row_width(view)),
        ({
            let d = view.dim->0 as int;
            let width = row_width(view);
            let rest = swap_removed(raw, d, view.n, idx);
            // The one index was given all the rows, the other the remaining ones.
            &&& raw.len() == view.n * d
            &&& holds(view, encoder.codes(raw, d, width), form)
            &&& view.scales == encoder.scales(raw, d)
            &&& other.n == view.n - 1
            &&& holds(other, encoder.codes(rest, d, width), form)
            &&& other.scales == encoder.scales(rest, d)
            &&& lanes_supplied(
                view.swap_removed(idx),
                lanes,
                encoder.codes(rest, d, width),
                form,
            )
            &&& lanes_supplied(other, other_lanes, encoder.codes(rest, d, width), form)
        }),
        other.dim == view.dim,
        other.bit_width == view.bit_width,
        other.shift == view.shift,
        other.scale == view.scale,
        same_codebook(view.swap_removed(idx), other),
        stored.describes(view.swap_removed(idx), lanes),
        other_stored.describes(other, other_lanes),
    ensures
        same_stored(stored, other_stored),
{
    let d = view.dim->0 as int;
    let width = row_width(view);
    let rest = swap_removed(raw, d, view.n, idx);
    let packed = encoder.codes(raw, d, width);
    lemma_row_width(view);
    law_removal_shrinks_what_is_held(view, idx, packed, form);
    lemma_converted_swap_removed(raw, d, width, view.n, idx, encoder.code_of);
    lemma_converted_swap_removed(
        raw,
        d,
        1,
        view.n,
        idx,
        |r: Seq<u32>| seq![(encoder.scale_of)(r)],
    );
    lemma_swap_removed_wf(view, idx);
    law_stored_fields_do_not_depend_on_caches(
        view.swap_removed(idx),
        lanes,
        stored,
        other,
        other_lanes,
        other_stored,
        encoder.codes(rest, d, width),
        form,
    );
}

/// Rows encoded under one calibration are the same wherever they stand: slot `slot`
/// of any index that was given `raw` holds the codes and the scale of its own row.
pub proof fn law_codes_depend_on_the_row_alone(
    view: IndexView,
    raw: Seq<u32>,
    slot: int,
    packed: Seq<u8>,
    encoder: Encoder,
    form: LaneForm,
)
    requires
        view.wf(),
        view.dim is Some,
        raw.len() == view.n * view.dim->0,
        encoder.fits(view.dim->0 as int, row_width(view)),
        holds(view, packed, form),
        packed == encoder.codes(raw, view.dim->0 as int, row_width(view)),
        view.scales == encoder.scales(raw, view.dim->0 as int),
        0 <= slot < view.n,
    ensures
        ({
            let d = view.dim->0 as int;
            let width = row_width(view);
            let code = (encoder.code_of)(row(raw, d, slot));
            &&& row(packed, width, slot) == code
            &&& view.packed matches Some(p) ==> row(p, width, slot) == code
            &&& view.blocked matches Some(b) ==> crate::blocked::lane_row(b.data, b.groups, slot)
                == (form.lane_of)(code)
            &&& view.scales[slot] == (encoder.scale_of)(row(raw, d, slot))
        }),
{
    let d = view.dim->0 as int;
    let width = row_width(view);
    lemma_row_width(view);
    lemma_converted_rows(raw, d, width, view.n, encoder.code_of);
    let single = |r: Seq<u32>| seq![(encoder.scale_of)(r)];
    lemma_converted_rows(raw, d, 1, view.n, single);
    assert(row(view.scales, 1, slot)[0] == view.scales[slot]);
    assert(row(view.scales, 1, slot) == single(row(raw, d, slot)));
}

} // verus!
