//! What a served image returns.
use crate::blocked::{block_bytes, blocks};
use crate::mapped::{lemma_block_len, lemma_gathered_len, ParsedImage};
use crate::paged_cache::{
    inserted, lemma_evicted, lemma_position_from, position, total, touched, Cached, Chunk,
};
use crate::rows::lemma_row_fits;
use vstd::prelude::*;

verus! {

/// A cache never holds more than its budget, unless it holds a single chunk; what
/// was offered last is kept, and what was dropped is what had not been used the
/// longest.
pub proof fn law_cache_stays_within_budget(
    entries: Seq<Cached>,
    budget: int,
    base: usize,
    live: usize,
    chunk: Chunk,
)
    requires
        position(entries, base, live) is None,
    ensures
        ({
            let after = inserted(entries, budget, base, live, chunk);
            let all = entries.push((base, live, chunk));
            &&& total(after) <= budget || after.len() == 1
            &&& after.len() > 0
            &&& after.last() == (base, live, chunk)
            &&& after == all.skip(all.len() - after.len())
        }),
{
    lemma_evicted(entries.push((base, live, chunk)), budget);
}

/// What was offered is found again.
pub proof fn law_offered_chunk_is_found(
    entries: Seq<Cached>,
    budget: int,
    base: usize,
    live: usize,
    chunk: Chunk,
)
    requires
        position(entries, base, live) is None,
    ensures
        ({
            let after = inserted(entries, budget, base, live, chunk);
            position(after, base, live) matches Some(i) && after[i].2 == chunk
        }),
{
    let all = entries.push((base, live, chunk));
    let after = inserted(entries, budget, base, live, chunk);
    lemma_evicted(all, budget);
    lemma_position_from(entries, base, live, 0);
    lemma_position_from(after, base, live, 0);
    let shift = all.len() - after.len();
    assert forall|j: int| 0 <= j < after.len() - 1 implies !(after[j].0 == base && after[j].1
        == live) by {
        assert(after[j] == entries[j + shift]);
    }
    let last = after.len() - 1;
    assert(after[last] == all[all.len() - 1]);
    assert(after[last].0 == base && after[last].1 == live);
    let found = position(after, base, live);
    assert(found is Some);
    assert(!(found->0 < last));
}

/// Using a chunk changes nothing but its place: it is now the most recent.
pub proof fn law_use_only_reorders(entries: Seq<Cached>, base: usize, live: usize)
    ensures
        touched(entries, base, live).len() == entries.len(),
        position(entries, base, live) matches Some(i) ==> touched(entries, base, live).last()
            == entries[i],
        touched(entries, base, live).to_multiset() == entries.to_multiset(),
{
    lemma_position_from(entries, base, live, 0);
    if let Some(i) = position(entries, base, live) {
        let rest = entries.remove(i);
        broadcast use vstd::seq_lib::group_to_multiset_ensures;

        assert(rest.push(entries[i]).to_multiset() == rest.to_multiset().insert(entries[i]));
        assert(rest.insert(i, entries[i]) =~= entries);
        vstd::seq_lib::to_multiset_insert(rest, i, entries[i]);
    }
}

/// Serving through the cache returns what gathering afresh would: a cache that
/// holds chunks of the image keeps doing so when one is used or offered.
pub proof fn law_cache_serves_the_image(
    image: ParsedImage,
    bytes: Seq<u8>,
    entries: Seq<Cached>,
    budget: int,
    base: usize,
    live: usize,
    is_native: spec_fn(Seq<u8>, Seq<u8>) -> bool,
    chunk: Chunk,
)
    requires
        image.fills(bytes, is_native, entries),
        image.is_chunk(bytes, base as int, live as int, is_native, chunk),
    ensures
        image.fills(bytes, is_native, touched(entries, base, live)),
        image.fills(bytes, is_native, inserted(entries, budget, base, live, chunk)),
        position(entries, base, live) matches Some(i) ==> image.is_chunk(
            bytes,
            base as int,
            live as int,
            is_native,
            entries[i].2,
        ),
{
    lemma_position_from(entries, base, live, 0);
    let used = touched(entries, base, live);
    assert forall|j: int| 0 <= j < used.len() implies image.is_chunk(
        bytes,
        (#[trigger] used[j]).0 as int,
        used[j].1 as int,
        is_native,
        used[j].2,
    ) by {
        if let Some(i) = position(entries, base, live) {
            if j < i {
                assert(used[j] == entries[j]);
            } else if j < used.len() - 1 {
                assert(used[j] == entries[j + 1]);
            } else {
                assert(used[j] == entries[i]);
            }
        }
    }
    let all = entries.push((base, live, chunk));
    let after = inserted(entries, budget, base, live, chunk);
    lemma_evicted(all, budget);
    assert forall|j: int| 0 <= j < after.len() implies image.is_chunk(
        bytes,
        (#[trigger] after[j]).0 as int,
        after[j].1 as int,
        is_native,
        after[j].2,
    ) by {
        if position(entries, base, live) is None {
            let k = j + all.len() - after.len();
            assert(after[j] == all[k]);
            if k < entries.len() {
                assert(all[k] == entries[k]);
            }
        }
    }
}

/// A gathered run of blocks holds, at each place, the codes and scales of the block
/// that stands there in the image, so that overlapping chunks agree byte for byte.
/// The scales of a block follow those of the blocks before it, 32 for each whole
/// one.
pub proof fn law_chunk_holds_the_blocks(
    image: ParsedImage,
    bytes: Seq<u8>,
    first: int,
    count: int,
    i: int,
)
    requires
        image.readable(bytes, first, count),
        0 <= first,
        0 <= i < count,
        image.gathered(bytes, first, count) is Ok,
    ensures
        image.block(bytes, first + i) is Ok,
        image.gathered(bytes, first, i) is Ok,
        ({
            let bb = block_bytes(image.geo.row_bytes as int);
            let (codes, scales) = image.gathered(bytes, first, count)->Ok_0;
            let (block_codes, block_scales) = image.block(bytes, first + i)->Ok_0;
            let at = image.gathered(bytes, first, i)->Ok_0.1.len() as int;
            &&& codes.subrange(i * bb, i * bb + bb) == block_codes
            &&& at + block_scales.len() <= scales.len()
            &&& scales.subrange(at, at + block_scales.len()) == block_scales
            &&& first + i <= image.n_blocks ==> at == 32 * i
        }),
    decreases count,
{
    let bb = block_bytes(image.geo.row_bytes as int);
    assert(image.gathered(bytes, first, count - 1) is Ok);
    lemma_gathered_len(image, bytes, first, count);
    lemma_gathered_len(image, bytes, first, count - 1);
    lemma_block_len(image, bytes, first + count - 1);
    let (before, scales_before) = image.gathered(bytes, first, count - 1)->Ok_0;
    let (whole, scales) = image.gathered(bytes, first, count)->Ok_0;
    let (block, block_scales) = image.block(bytes, first + count - 1)->Ok_0;
    assert(whole == before + block);
    assert(scales == scales_before + block_scales);
    lemma_row_fits(i, count, bb);
    if i < count - 1 {
        law_chunk_holds_the_blocks(image, bytes, first, count - 1, i);
        lemma_row_fits(i, count - 1, bb);
        assert(whole.subrange(i * bb, i * bb + bb) =~= before.subrange(i * bb, i * bb + bb));
        let at = image.gathered(bytes, first, i)->Ok_0.1.len() as int;
        let len = image.block(bytes, first + i)->Ok_0.1.len();
        assert(scales.subrange(at, at + len) =~= scales_before.subrange(at, at + len));
    } else {
        assert(whole.subrange(i * bb, i * bb + bb) =~= block);
        let at = scales_before.len() as int;
        assert(scales.subrange(at, at + block_scales.len()) =~= block_scales);
        if first + i <= image.n_blocks {
            lemma_whole_blocks_scales(image, bytes, first, i);
        }
    }
}

proof fn lemma_whole_blocks_scales(image: ParsedImage, bytes: Seq<u8>, first: int, count: int)
    requires
        image.readable(bytes, first, count),
        0 <= first,
        0 <= count,
        first + count <= image.n_blocks,
        image.gathered(bytes, first, count) is Ok,
    ensures
        image.gathered(bytes, first, count)->Ok_0.1.len() == 32 * count,
    decreases count,
{
    if count > 0 {
        assert(image.gathered(bytes, first, count - 1) is Ok);
        lemma_whole_blocks_scales(image, bytes, first, count - 1);
        lemma_block_len(image, bytes, first + count - 1);
    }
}

/// Row by row, the scale in a chunk is the one its block holds for its lane, as
/// long as only whole blocks stand before it.
pub proof fn law_chunk_scales_are_the_rows_scales(
    image: ParsedImage,
    bytes: Seq<u8>,
    base: int,
    live: int,
    i: int,
)
    requires
        image.readable(bytes, base / 32, blocks(live)),
        0 <= base,
        0 <= i < live,
        base / 32 + i / 32 <= image.n_blocks,
        image.chunk(bytes, base, live) is Ok,
    ensures
        ({
            let block = image.block(bytes, base / 32 + i / 32);
            &&& block is Ok
            &&& i % 32 < block->Ok_0.1.len() ==> image.chunk(bytes, base, live)->Ok_0.1[i]
                == block->Ok_0.1[i % 32]
        }),
{
    law_chunk_holds_the_blocks(image, bytes, base / 32, blocks(live), i / 32);
    let scales = image.gathered(bytes, base / 32, blocks(live))->Ok_0.1;
    let block_scales = image.block(bytes, base / 32 + i / 32)->Ok_0.1;
    let at = 32 * (i / 32);
    if i % 32 < block_scales.len() {
        assert(scales.subrange(at, at + block_scales.len())[i % 32] == scales[i]);
    }
}

} // verus!
