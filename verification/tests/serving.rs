//! An image served chunk by chunk.

use std::sync::Arc;
use turbovec::mapped::{BlockOps, Geo, ImageError, MappedImage, ParsedImage, RedoOp};
use turbovec::paged_cache::{Chunk, PagedCache, DEFAULT_CHUNK_CACHE_BYTES};

const ROW: usize = 2;
const UNIT: usize = 32 * ROW + 128;

fn scale(slot: usize) -> f32 {
    slot as f32 + 0.5
}

/// Row `slot` has codes `[slot, 200 - slot]` and scale `slot + 0.5`.
fn codes(slot: usize) -> [u8; ROW] {
    [slot as u8, 200 - slot as u8]
}

fn record(slot: usize) -> Vec<u8> {
    let mut out = codes(slot).to_vec();
    out.extend_from_slice(&scale(slot).to_le_bytes());
    out
}

/// A file of `blocks` whole blocks behind a header of 16 bytes.
fn file(blocks: usize) -> Vec<u8> {
    let mut out = vec![0xEE; 16];
    for b in 0..blocks {
        for g in 0..ROW {
            for lane in 0..32 {
                out.push(codes(32 * b + lane)[g]);
            }
        }
        for lane in 0..32 {
            out.extend_from_slice(&scale(32 * b + lane).to_le_bytes());
        }
    }
    out
}

fn parsed(n: usize) -> ParsedImage {
    let blocks = n / 32;
    let tail: Vec<u8> = (32 * blocks..n)
        .flat_map(|slot| {
            let mut row = record(slot);
            row.extend_from_slice(&[9, 9, 9]);
            row
        })
        .collect();
    ParsedImage {
        kind: 0,
        geo: Geo {
            row_bytes: ROW,
            unit_len: UNIT,
            units: (0..blocks).map(|b| 16 + b * UNIT).collect(),
        },
        dim: 8,
        bit_width: 2,
        n_vectors: n,
        n_blocks: blocks,
        tail,
        tail_row: ROW + 4 + 3,
        ops: Vec::new(),
        tqplus_shift: vec![1, 2],
        tqplus_scale: vec![3, 4],
        generation: 7,
        max_scale: 1000.0f32.to_bits(),
    }
}

fn open(image: ParsedImage) -> MappedImage {
    match MappedImage::open(image) {
        Ok(image) => image,
        Err(e) => panic!("{}", e.message("image.tv")),
    }
}

/// The stored layout as it is.
fn stored(codes: Vec<u8>) -> Vec<u8> {
    codes
}

fn assert_rows(chunk: &Chunk, base: usize, live: usize) {
    assert_eq!(chunk.scales.len(), live);
    assert_eq!(chunk.codes.len(), live.div_ceil(32) * 32 * ROW);
    for i in 0..live {
        assert_eq!(f32::from_bits(chunk.scales[i]), scale(base + i));
        for g in 0..ROW {
            assert_eq!(
                chunk.codes[(i / 32) * 32 * ROW + g * 32 + i % 32],
                codes(base + i)[g]
            );
        }
    }
}

#[test]
fn chunks_gather_units_and_tail() {
    let image = open(parsed(70));
    let bytes = file(2);
    assert_eq!((image.dim(), image.bit_width(), image.n_vectors()), (8, 2, 70));
    assert_eq!(image.calibration(), (&[1u32, 2][..], &[3u32, 4][..]));
    assert_eq!(image.generation(), 7);
    for (base, live) in [(0, 32), (0, 64), (0, 70), (32, 38), (64, 6), (32, 10), (0, 0)] {
        assert_rows(&image.assemble(&bytes, base, live, &stored).unwrap(), base, live);
    }
    // The padding of the partial block is zero.
    let chunk = image.assemble(&bytes, 64, 6, &stored).unwrap();
    assert_eq!(&chunk.codes[..8], &[64, 65, 66, 67, 68, 69, 0, 0]);
    // More rows than there are cannot be served.
    assert_eq!(
        image.assemble(&bytes, 64, 7, &stored).unwrap_err(),
        ImageError::MissingRows { base: 64, got: 6, live: 7 }
    );
}

#[test]
fn pending_writes_replace_rows_in_order() {
    let mut image = parsed(64);
    let write = |slot: usize, source: usize| RedoOp { slot, payload: record(source) };
    image.ops = vec![
        BlockOps { block: 1, ops: vec![write(40, 3), write(41, 5), write(40, 6)] },
        BlockOps { block: 1, ops: vec![write(42, 9)] },
    ];
    let image = open(image);
    let chunk = image.assemble(&file(2), 32, 32, &stored).unwrap();
    assert_eq!((chunk.codes[8], chunk.codes[32 + 8]), (6, 194));
    assert_eq!(f32::from_bits(chunk.scales[8]), 6.5);
    assert_eq!((chunk.codes[9], chunk.codes[10]), (5, 42));
    let first = image.assemble(&file(2), 0, 32, &stored).unwrap();
    assert_rows(&first, 0, 32);
}

#[test]
fn damage_is_reported_where_it_is() {
    let bytes = file(2);
    let image = open(parsed(70));
    assert_eq!(
        image.assemble(&bytes[..bytes.len() - 1], 0, 64, &stored).unwrap_err(),
        ImageError::TruncatedUnit(1)
    );
    for bad in [-1.0f32, 1000.5, f32::INFINITY, f32::NAN] {
        let mut broken = bytes.clone();
        let at = 16 + UNIT + 32 * ROW + 4 * 5;
        broken[at..at + 4].copy_from_slice(&bad.to_le_bytes());
        assert_eq!(
            image.assemble(&broken, 0, 70, &stored).unwrap_err(),
            ImageError::InvalidBlockScale(1)
        );
        assert!(image.assemble(&broken, 0, 32, &stored).is_ok());

        let mut with_op = parsed(64);
        let mut payload = codes(1).to_vec();
        payload.extend_from_slice(&bad.to_le_bytes());
        with_op.ops = vec![BlockOps { block: 0, ops: vec![RedoOp { slot: 1, payload }] }];
        assert_eq!(
            open(with_op).assemble(&bytes, 0, 32, &stored).unwrap_err(),
            ImageError::InvalidOpScale
        );

        let mut tail = parsed(70);
        let at = 3 * tail.tail_row + ROW;
        tail.tail[at..at + 4].copy_from_slice(&bad.to_le_bytes());
        assert_eq!(
            open(tail).assemble(&bytes, 64, 6, &stored).unwrap_err(),
            ImageError::InvalidTailScale
        );
    }
    let mut short = parsed(70);
    short.tail.pop();
    assert_eq!(open(short).assemble(&bytes, 64, 6, &stored).unwrap_err(), ImageError::TruncatedTail);
    let mut far = parsed(64);
    far.geo.units[1] = usize::MAX;
    assert_eq!(
        open(far).assemble(&bytes, 0, 64, &stored).unwrap_err(),
        ImageError::TruncatedUnit(1)
    );
}

#[test]
fn only_positional_images_open() {
    let mut keyed = parsed(32);
    keyed.kind = 1;
    assert_eq!(MappedImage::open(keyed).unwrap_err(), ImageError::NotPositional);
    assert!(open(parsed(70)).is_consistent());
    // Headers that are too small open too, and can be told.
    let mut image = parsed(32);
    image.geo.unit_len -= 1;
    assert!(!open(image).is_consistent());
    let mut image = parsed(32);
    image.tail_row = ROW + 3;
    let image = open(image);
    assert!(!image.is_consistent());
    // What is not read of them does not matter: no row rides the header here.
    assert_rows(&image.assemble(&file(1), 0, 32, &stored).unwrap(), 0, 32);
    let mut image = parsed(32);
    image.geo.units.clear();
    assert!(!open(image).is_consistent());
    let mut image = parsed(32);
    image.ops = vec![BlockOps {
        block: 0,
        ops: vec![RedoOp { slot: 0, payload: vec![0; ROW + 3] }],
    }];
    assert!(!open(image).is_consistent());
}

#[test]
fn chunks_are_handed_out_in_native_layout() {
    let image = open(parsed(70));
    let bytes = file(2);
    let native = |codes: Vec<u8>| codes.iter().map(|c| c.rotate_left(4)).collect::<Vec<u8>>();
    let plain = image.assemble(&bytes, 32, 38, &stored).unwrap();
    let chunk = image.assemble(&bytes, 32, 38, &native).unwrap();
    assert_eq!(chunk.codes, native(plain.codes.clone()));
    assert_ne!(chunk.codes, plain.codes);
    assert_eq!(chunk.scales, plain.scales);
    let mut cache = PagedCache::new(1000);
    let cached = image.chunk(&bytes, &mut cache, 32, 38, &native).unwrap();
    assert_eq!(cached.codes, chunk.codes);
    let again = image.chunk(&bytes, &mut cache, 32, 38, &native).unwrap();
    assert!(Arc::ptr_eq(&cached, &again));
}

#[test]
fn image_messages() {
    let cases = [
        (
            ImageError::NotPositional,
            "mapped serving covers positional images (kind 0) only",
        ),
        (ImageError::TruncatedUnit(12), "a.tv: truncated block unit 12"),
        (
            ImageError::InvalidBlockScale(3),
            "a.tv: invalid per-vector scale in block 3",
        ),
        (
            ImageError::InvalidOpScale,
            "a.tv: invalid per-vector scale in a pending op",
        ),
        (ImageError::TruncatedTail, "a.tv: truncated commit tail"),
        (
            ImageError::InvalidTailScale,
            "a.tv: invalid per-vector scale in the commit tail",
        ),
        (
            ImageError::MissingRows { base: 64, got: 6, live: 7 },
            "a.tv: chunk at 64 holds 6 scales for 7 rows",
        ),
    ];
    for (error, text) in cases {
        assert_eq!(error.message("a.tv"), text);
    }
}

fn chunk_of(bytes: usize) -> Arc<Chunk> {
    Arc::new(Chunk { codes: vec![0; bytes - 4], scales: vec![0] })
}

#[test]
fn the_cache_drops_what_was_not_used_longest() {
    let mut cache = PagedCache::new(100);
    assert_eq!(chunk_of(40).bytes(), 40);
    cache.insert(0, 32, chunk_of(40));
    cache.insert(32, 32, chunk_of(40));
    assert_eq!(cache.used(), 80);
    // Using the older one spares it.
    assert!(cache.get(0, 32).is_some());
    cache.insert(64, 32, chunk_of(40));
    assert_eq!(cache.used(), 80);
    assert!(cache.get(32, 32).is_none());
    assert!(cache.get(0, 32).is_some() && cache.get(64, 32).is_some());
    // A range that is there stays as it is.
    cache.insert(0, 32, chunk_of(10));
    assert_eq!(cache.get(0, 32).unwrap().bytes(), 40);
    // The same base with another length is another range.
    assert!(cache.get(0, 31).is_none());
    // One chunk stays though it exceeds the budget alone.
    cache.insert(96, 32, chunk_of(400));
    assert_eq!(cache.used(), 400);
    assert!(cache.get(96, 32).is_some());
    assert!(cache.get(0, 32).is_none() && cache.get(64, 32).is_none());
    // A budget of nothing holds one chunk at a time.
    let mut tiny = PagedCache::new(0);
    tiny.insert(0, 1, chunk_of(5));
    tiny.insert(1, 1, chunk_of(6));
    assert_eq!(tiny.used(), 6);
    assert_eq!(DEFAULT_CHUNK_CACHE_BYTES, 64 * 1024 * 1024);
}

#[test]
fn serving_through_the_cache_changes_nothing() {
    let image = open(parsed(70));
    let bytes = file(2);
    let mut cache = PagedCache::new(300);
    for _ in 0..3 {
        for (base, live) in [(0, 32), (32, 32), (64, 6), (0, 64)] {
            let chunk = image.chunk(&bytes, &mut cache, base, live, &stored).unwrap();
            assert_rows(&chunk, base, live);
            // A second request is the very same chunk.
            let again = image.chunk(&bytes, &mut cache, base, live, &stored).unwrap();
            assert!(Arc::ptr_eq(&chunk, &again));
        }
    }
    assert_eq!(
        image.chunk(&bytes, &mut cache, 64, 7, &stored).unwrap_err(),
        ImageError::MissingRows { base: 64, got: 6, live: 7 }
    );
}
