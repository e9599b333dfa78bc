//! Checking a search, and the caches a scan reads.
use crate::blocked::{append_lanes, blocked_len, blocked_len_for, blocks, blocks_for, lanes_appended};
use crate::error::SearchError;
use crate::index::{level_count, BlockedCache, TurboQuantIndex};
use crate::mask::{allowed, holds_mask, pack_mask};
use crate::model::{levels, BlockedView, IndexView};
use crate::results::SearchResults;
use crate::validate::{first_invalid_coord, invalid_coord};
use crate::work::LaneRows;
use vstd::prelude::*;

verus! {

/// The slots a mask names, when there is one.
pub open spec fn mask_view(mask: Option<&[bool]>) -> Option<Seq<bool>> {
    match mask {
        Some(m) => Some(m@),
        None => None,
    }
}

/// The smaller of two numbers.
pub open spec fn least(a: int, b: int) -> int {
    if a <= b {
        a
    } else {
        b
    }
}

impl IndexView {
    /// Why a search is refused, if it is: the shape of the query buffer first,
    /// then its values, then the length of the mask. A lazy index refuses
    /// nothing, as there is no dim to measure the buffer against.
    pub open spec fn search_error(
        self,
        queries: Seq<u32>,
        mask: Option<Seq<bool>>,
    ) -> Option<SearchError> {
        match self.dim {
            None => None,
            Some(d) => if queries.len() as int % d as int != 0 {
                Some(
                    SearchError::QueryBufferNotMultipleOfDim {
                        queries_len: queries.len() as usize,
                        dim: d,
                    },
                )
            } else {
                match (invalid_coord(queries, d as int), mask) {
                    (Some((row, column, value)), _) => Some(
                        SearchError::InvalidQueryValue {
                            query_index: row as usize,
                            coord_index: column as usize,
                            value,
                        },
                    ),
                    (None, Some(m)) => if m.len() != self.n {
                        Some(
                            SearchError::MaskLengthMismatch {
                                expected: self.n as usize,
                                got: m.len() as usize,
                            },
                        )
                    } else {
                        None
                    },
                    (None, None) => None,
                }
            },
        }
    }

    /// Number of query rows; 0 for a lazy index, which cannot tell.
    pub open spec fn query_rows(self, queries: Seq<u32>) -> int {
        match self.dim {
            None => 0,
            Some(d) => queries.len() as int / d as int,
        }
    }

    /// Results per query: the requested number, but no more than there are slots
    /// and no more than the mask allows.
    pub open spec fn effective_k(self, k: int, mask: Option<Seq<bool>>) -> int {
        let within = least(k, self.n);
        match mask {
            Some(m) => least(within, allowed(m) as int),
            None => within,
        }
    }
}

/// An accepted search, waiting for the scores.
#[derive(Debug)]
pub struct PendingSearch {
    /// Number of query rows.
    pub nq: usize,
    /// Results per query.
    pub k: usize,
    /// Whether there is anything to score.
    pub scan: bool,
    /// The mask packed into words, when one was given.
    pub mask: Option<Vec<u64>>,
}

impl PendingSearch {
    /// This is what an accepted search of `view` comes to.
    pub open spec fn answers(
        self,
        view: IndexView,
        queries: Seq<u32>,
        k: int,
        mask: Option<Seq<bool>>,
    ) -> bool {
        &&& self.nq == view.query_rows(queries)
        &&& self.scan == (view.n > 0)
        &&& self.k == if view.n == 0 {
            0
        } else {
            view.effective_k(k, mask)
        }
        &&& match (self.mask, mask) {
            (Some(words), Some(m)) => view.n > 0 && holds_mask(words@, m),
            (None, Some(_)) => view.n == 0,
            (None, None) => true,
            (Some(_), None) => false,
        }
    }

    /// The results, given the rows of scores and slots a scan came back with.
    pub fn finish(self, scores: Vec<u32>, indices: Vec<i64>) -> (r: SearchResults)
        ensures
            r.nq == self.nq,
            r.k == self.k,
            self.scan ==> r.scores@ == scores@ && r.indices@ == indices@,
            !self.scan ==> r.scores@.len() == 0 && r.indices@.len() == 0,
            self.scan && scores@.len() == self.nq * self.k && indices@.len() == self.nq * self.k
                ==> r.complete(),
            !self.scan && self.k == 0 ==> r.complete(),
    {
        proof {
            assert(self.nq * 0 == 0) by (nonlinear_arith);
        }
        if self.scan {
            SearchResults { scores, indices, nq: self.nq, k: self.k }
        } else {
            SearchResults { scores: Vec::new(), indices: Vec::new(), nq: self.nq, k: self.k }
        }
    }
}

impl TurboQuantIndex {
    /// Check a search of every slot.
    pub fn try_search(&self, queries: &[u32], k: usize) -> (r: Result<PendingSearch, SearchError>)
        requires
            self.wf(),
        ensures
            match (r, self@.search_error(queries@, None)) {
                (Ok(pending), None) => pending.answers(self@, queries@, k as int, None),
                (Err(e), Some(expected)) => e == expected,
                _ => false,
            },
    {
        self.try_search_with_mask(queries, k, None)
    }

    /// Check a search of the slots whose `mask` entry is set.
    pub fn try_search_with_mask(&self, queries: &[u32], k: usize, mask: Option<&[bool]>) -> (r:
        Result<PendingSearch, SearchError>)
        requires
            self.wf(),
        ensures
            match (r, self@.search_error(queries@, mask_view(mask))) {
                (Ok(pending), None) => pending.answers(
                    self@,
                    queries@,
                    k as int,
                    mask_view(mask),
                ),
                (Err(e), Some(expected)) => e == expected,
                _ => false,
            },
    {
        let d: usize = match self.dim {
            Some(d) => d,
            None => {
                return Ok(PendingSearch { nq: 0, k: 0, scan: false, mask: None });
            },
        };
        let nq: usize = queries.len() / d;
        if queries.len() % d != 0 {
            return Err(
                SearchError::QueryBufferNotMultipleOfDim { queries_len: queries.len(), dim: d },
            );
        }
        if let Some((query_index, coord_index, value)) = first_invalid_coord(queries, d) {
            return Err(SearchError::InvalidQueryValue { query_index, coord_index, value });
        }
        if let Some(m) = mask {
            if m.len() != self.n_vectors {
                return Err(
                    SearchError::MaskLengthMismatch { expected: self.n_vectors, got: m.len() },
                );
            }
        }
        if self.n_vectors == 0 {
            return Ok(PendingSearch { nq, k: 0, scan: false, mask: None });
        }
        let within: usize = if k <= self.n_vectors {
            k
        } else {
            self.n_vectors
        };
        match mask {
            Some(m) => {
                let (words, n_allowed) = pack_mask(m);
                let effective: usize = if within <= n_allowed {
                    within
                } else {
                    n_allowed
                };
                Ok(PendingSearch { nq, k: effective, scan: true, mask: Some(words) })
            },
            None => Ok(PendingSearch { nq, k: within, scan: true, mask: None }),
        }
    }

    /// A search of every slot whose queries are known to be well-formed.
    pub fn search(&self, queries: &[u32], k: usize) -> (r: PendingSearch)
        requires
            self.wf(),
            self@.search_error(queries@, None) is None,
        ensures
            r.answers(self@, queries@, k as int, None),
    {
        self.search_with_mask(queries, k, None)
    }

    /// A masked search whose queries and mask are known to be well-formed.
    pub fn search_with_mask(&self, queries: &[u32], k: usize, mask: Option<&[bool]>) -> (r:
        PendingSearch)
        requires
            self.wf(),
            self@.search_error(queries@, mask_view(mask)) is None,
        ensures
            r.answers(self@, queries@, k as int, mask_view(mask)),
    {
        self.try_search_with_mask(queries, k, mask).unwrap()
    }
}

/// The caches a scan of the index still has to build.
#[derive(Debug, Clone, Copy, PartialEq, Eq, Structural)]
pub struct CacheNeeds {
    /// The rotation.
    pub rotation: bool,
    /// The reconstruction levels.
    pub centroids: bool,
    /// The blocked layout of the rows.
    pub lanes: bool,
}

impl IndexView {
    /// The caches a scan still has to build: none for an index without rows.
    pub open spec fn cache_needs(self) -> CacheNeeds {
        let scans = self.dim is Some && self.n > 0;
        CacheNeeds {
            rotation: scans && self.rotation is None,
            centroids: scans && self.centroids is None,
            lanes: scans && self.blocked is None,
        }
    }

    /// `lanes` holds every stored row in lane order.
    pub open spec fn all_lanes(self, lanes: LaneRows) -> bool {
        &&& lanes.groups > 0
        &&& lanes.bytes@.len() == self.n * lanes.groups
        &&& blocked_len(self.n, lanes.groups as int) <= usize::MAX
    }

    /// The scan caches filled from what was handed over, each only where it was
    /// empty; a value that does not fit the index is not taken.
    pub open spec fn prepared(
        self,
        centroids: Option<Vec<u32>>,
        lanes: Option<LaneRows>,
    ) -> IndexView {
        let needs = self.cache_needs();
        IndexView {
            rotation: if needs.rotation {
                self.dim
            } else {
                self.rotation
            },
            centroids: if needs.centroids && centroids is Some && centroids->0@.len() == levels(
                self.bit_width as int,
            ) {
                Some(centroids->0@)
            } else {
                self.centroids
            },
            blocked: if needs.lanes && lanes is Some && self.all_lanes(lanes->0) {
                Some(
                    BlockedView {
                        data: lanes_appended(
                            Seq::empty(),
                            lanes->0.groups as int,
                            0,
                            lanes->0.bytes@,
                            self.n,
                        ),
                        groups: lanes->0.groups as int,
                        n_blocks: blocks(self.n),
                    },
                )
            } else {
                self.blocked
            },
            ..self
        }
    }
}

/// Lay `n` rows, given in lane order, out in blocks; `None` when the bytes are not
/// those of `n` rows or the buffer could not be addressed.
pub(crate) fn lay_out(n: usize, lanes: &LaneRows) -> (r: Option<Vec<u8>>)
    ensures
        ({
            let fits = lanes.groups > 0 && lanes.bytes@.len() == n * lanes.groups && blocked_len(
                n as int,
                lanes.groups as int,
            ) <= usize::MAX;
            match r {
                Some(data) => fits && data@ == lanes_appended(
                    Seq::empty(),
                    lanes.groups as int,
                    0,
                    lanes.bytes@,
                    n as int,
                ),
                None => !fits,
            }
        }),
{
    let have: usize = lanes.bytes.len();
    let total: usize = match n.checked_mul(lanes.groups) {
        Some(total) => total,
        None => {
            return None;
        },
    };
    if lanes.groups == 0 || have != total || blocked_len_for(
        n,
        lanes.groups,
    ).is_none() {
        return None;
    }
    let mut data: Vec<u8> = Vec::new();
    proof {
        assert(blocked_len(0, lanes.groups as int) == 0) by (nonlinear_arith)
            requires
                blocks(0) == 0,
        ;
    }
    append_lanes(&mut data, lanes.groups, 0, lanes.bytes.as_slice(), n);
    Some(data)
}

impl TurboQuantIndex {
    /// The caches a scan of this index still has to build.
    pub fn cache_needs(&self) -> (r: CacheNeeds)
        ensures
            r == self@.cache_needs(),
    {
        let scans: bool = self.dim.is_some() && self.n_vectors > 0;
        CacheNeeds {
            rotation: scans && self.rotation.is_none(),
            centroids: scans && self.centroids.is_none(),
            lanes: scans && self.blocked.is_none(),
        }
    }

    /// Fill the caches a scan reads from what the kernels built. Returns whether
    /// none is missing any more. An index without rows needs none.
    pub fn prepare(&mut self, centroids: Option<Vec<u32>>, lanes: Option<LaneRows>) -> (ready: bool)
        requires
            old(self).wf(),
        ensures
            final(self).wf(),
            final(self)@ == old(self)@.prepared(centroids, lanes),
            ready == (old(self)@.prepared(centroids, lanes).cache_needs() == CacheNeeds {
                rotation: false,
                centroids: false,
                lanes: false,
            }),
    {
        let needs = self.cache_needs();
        proof {
            if lanes is Some {
                crate::blocked::lemma_blocked_len_monotone(
                    0,
                    self.n_vectors as int,
                    lanes->0.groups as int,
                );
            }
        }
        if needs.rotation {
            self.rotation = self.dim;
        }
        if needs.centroids {
            if let Some(values) = centroids {
                if values.len() == level_count(self.bit_width) {
                    self.centroids = Some(values);
                }
            }
        }
        if needs.lanes {
            if let Some(rows) = lanes {
                if let Some(data) = lay_out(self.n_vectors, &rows) {
                    self.blocked = Some(
                        BlockedCache {
                            data,
                            groups: rows.groups,
                            n_blocks: blocks_for(self.n_vectors),
                        },
                    );
                }
            }
        }
        assert(self@ =~= old(self)@.prepared(centroids, lanes));
        let rest = self.cache_needs();
        !rest.rotation && !rest.centroids && !rest.lanes
    }
}

} // verus!
