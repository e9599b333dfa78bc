//! What a search is answered.

use turbovec::mask::pack_mask;
use turbovec::search::PendingSearch;
use turbovec::work::LaneRows;
use turbovec::{SearchError, SearchResults, TurboQuantIndex};

fn bits(values: &[f32]) -> Vec<u32> {
    values.iter().map(|v| v.to_bits()).collect()
}

fn index(n: usize) -> TurboQuantIndex {
    TurboQuantIndex::from_parts(
        Some(8),
        2,
        n,
        vec![0; 2 * n],
        vec![1.0f32.to_bits(); n],
        Vec::new(),
        Vec::new(),
    )
    .unwrap()
}

#[test]
fn a_lazy_index_answers_nothing() {
    let lazy = TurboQuantIndex::new_lazy(4).unwrap();
    let odd = bits(&[f32::NAN; 3]);
    let pending = lazy.try_search_with_mask(&odd, 5, Some(&[true; 9])).unwrap();
    assert!(!pending.scan);
    let results = pending.finish(vec![1], vec![1]);
    assert_eq!((results.nq, results.k), (0, 0));
    assert!(results.scores.is_empty() && results.indices.is_empty());
}

#[test]
fn an_empty_index_answers_with_no_columns() {
    let empty = index(0);
    let pending = empty.try_search(&bits(&[0.5; 24]), 5).unwrap();
    assert_eq!((pending.nq, pending.k, pending.scan), (3, 0, false));
    assert_eq!(
        empty.try_search_with_mask(&bits(&[0.5; 8]), 5, Some(&[true])).unwrap_err(),
        SearchError::MaskLengthMismatch { expected: 0, got: 1 }
    );
    assert!(empty.try_search_with_mask(&bits(&[0.5; 8]), 5, Some(&[])).is_ok());
}

#[test]
fn queries_are_checked_before_the_mask() {
    let idx = index(4);
    assert_eq!(
        idx.try_search(&bits(&[0.5; 9]), 1).unwrap_err(),
        SearchError::QueryBufferNotMultipleOfDim { queries_len: 9, dim: 8 }
    );
    let mut bad = [0.5f32; 16];
    bad[11] = f32::INFINITY;
    let err = idx.try_search_with_mask(&bits(&bad), 1, Some(&[true; 9])).unwrap_err();
    assert_eq!(
        err,
        SearchError::InvalidQueryValue {
            query_index: 1,
            coord_index: 3,
            value: f32::INFINITY.to_bits()
        }
    );
    assert_eq!(
        idx.try_search_with_mask(&bits(&[0.5; 8]), 1, Some(&[true; 9])).unwrap_err(),
        SearchError::MaskLengthMismatch { expected: 4, got: 9 }
    );
}

#[test]
fn k_is_clamped_to_what_can_be_returned() {
    let idx = index(100);
    let query = bits(&[0.5; 8]);
    assert_eq!(idx.try_search(&query, 7).unwrap().k, 7);
    assert_eq!(idx.try_search(&query, 700).unwrap().k, 100);
    assert_eq!(idx.search(&query, 0).k, 0);
    let mut mask = [false; 100];
    mask[3] = true;
    mask[64] = true;
    mask[99] = true;
    let pending = idx.search_with_mask(&query, 7, Some(&mask));
    assert_eq!((pending.nq, pending.k, pending.scan), (1, 3, true));
    assert_eq!(pending.mask, Some(vec![1u64 << 3, 1 | 1 << 35]));
    // A mask that allows everything restricts nothing.
    assert_eq!(idx.search_with_mask(&query, 7, Some(&[true; 100])).k, 7);
    assert_eq!(idx.search_with_mask(&query, 700, Some(&[true; 100])).k, 100);
    // One that allows nothing is owed nothing.
    let pending = idx.search_with_mask(&query, 7, Some(&[false; 100]));
    assert_eq!((pending.k, pending.mask.clone()), (0, Some(vec![0, 0])));
    let results = pending.finish(Vec::new(), Vec::new());
    assert!(results.scores.is_empty() && results.indices.is_empty());
}

#[test]
fn masks_pack_into_words() {
    assert_eq!(pack_mask(&[]), (vec![], 0));
    assert_eq!(pack_mask(&[true, false, true]), (vec![5], 2));
    assert_eq!(pack_mask(&[true; 64]), (vec![u64::MAX], 64));
    assert_eq!(pack_mask(&[true; 65]), (vec![u64::MAX, 1], 65));
}

#[test]
fn rows_are_cut_per_query() {
    let idx = index(5);
    let pending = idx.search(&bits(&[0.5; 16]), 3);
    let results = pending.finish(
        bits(&[0.9, 0.8, 0.7, 0.6, 0.5, 0.4]),
        vec![4, 3, 2, 1, 0, 4],
    );
    assert_eq!((results.nq, results.k), (2, 3));
    assert_eq!(results.scores_for_query(0), bits(&[0.9, 0.8, 0.7]).as_slice());
    assert_eq!(results.scores_for_query(1), bits(&[0.6, 0.5, 0.4]).as_slice());
    assert_eq!(results.indices_for_query(0), [4, 3, 2]);
    assert_eq!(results.indices_for_query(1), [1, 0, 4]);
}

#[test]
fn results_compare_as_numbers() {
    let results = |scores: &[f32]| SearchResults {
        scores: bits(scores),
        indices: vec![0; scores.len()],
        nq: 1,
        k: scores.len(),
    };
    assert!(results(&[0.5, 0.0]) == results(&[0.5, -0.0]));
    assert!(results(&[0.5, 0.0]) != results(&[0.5, 0.25]));
    assert!(results(&[0.5]) != results(&[0.5, 0.25]));
    let nan = results(&[f32::NAN]);
    assert!(nan != nan.clone());
    let mut other = results(&[0.5]);
    other.indices = vec![1];
    assert!(other != results(&[0.5]));
}

/// Slots by how near the first lane byte is to the first coordinate of the query.
fn scan(idx: &TurboQuantIndex, pending: PendingSearch, queries: &[u32]) -> SearchResults {
    let (data, _, _) = idx.blocked_layout().unwrap();
    let (mut scores, mut slots) = (Vec::new(), Vec::new());
    for query in queries.chunks(8) {
        let mut ranked: Vec<(f32, i64)> = (0..idx.len())
            .map(|slot| (-(f32::from_bits(query[0]) - data[slot] as f32).abs(), slot as i64))
            .collect();
        ranked.sort_by(|a, b| b.0.total_cmp(&a.0));
        for (score, slot) in ranked.into_iter().take(pending.k) {
            scores.push(score.to_bits());
            slots.push(slot);
        }
    }
    pending.finish(scores, slots)
}

#[test]
fn a_repeated_query_is_answered_alike() {
    let lanes = || LaneRows { groups: 2, bytes: vec![7, 0, 1, 0, 4, 0, 9, 0, 2, 0] };
    let centroids = || bits(&[-1.0, -0.25, 0.25, 1.0]);
    let mut idx = index(5);
    let query = bits(&[3.0, 0.0, 0.0, 0.0, 0.0, 0.0, 0.0, 0.0]);
    let twice = [query.clone(), query.clone()].concat();

    // The first search fills the caches.
    let pending = idx.search(&query, 3);
    assert!(idx.prepare(Some(centroids()), Some(lanes())));
    let alone = scan(&idx, pending, &query);
    assert_eq!((alone.nq, alone.k), (1, 3));
    assert_eq!(alone.scores, bits(&[-1.0, -1.0, -2.0]));
    assert_eq!(alone.indices, [2, 4, 1]);

    let batch = scan(&idx, idx.search(&twice, 3), &twice);
    assert_eq!((batch.nq, batch.k), (2, 3));
    for qi in 0..2 {
        assert_eq!(batch.scores_for_query(qi), alone.scores_for_query(0));
        assert_eq!(batch.indices_for_query(qi), alone.indices_for_query(0));
    }

    // Preparing again changes nothing, whatever is handed over.
    let before = idx.blocked_layout().unwrap().0.to_vec();
    assert!(idx.prepare(Some(bits(&[0.0; 4])), Some(LaneRows { groups: 2, bytes: vec![0; 10] })));
    assert_eq!(idx.blocked_layout().unwrap().0, before);
    assert_eq!(idx.cached_codebook().1, Some(centroids().as_slice()));
    let again = scan(&idx, idx.search(&query, 3), &query);
    assert_eq!(again.scores, alone.scores);
    assert_eq!(again.indices, alone.indices);
}
