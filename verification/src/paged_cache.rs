//! A least-recently-used cache of assembled chunks under a byte budget.
use std::sync::Arc;
use vstd::prelude::*;

verus! {

/// Default budget for assembled chunks held in memory.
pub const DEFAULT_CHUNK_CACHE_BYTES: usize = 67_108_864;

/// Whole blocks of codes, and the scales of their rows.
#[derive(Debug)]
pub struct Chunk {
    /// The code bytes, block after block, in the layout a scan reads.
    pub codes: Vec<u8>,
    /// One scale per row.
    pub scales: Vec<u32>,
}

impl Chunk {
    /// Bytes the chunk holds.
    pub open spec fn size(self) -> int {
        self.codes@.len() as int + 4 * self.scales@.len()
    }

    /// Bytes the chunk holds.
    pub fn bytes(&self) -> (r: usize)
        requires
            self.size() <= usize::MAX,
        ensures
            r == self.size(),
    {
        self.codes.len() + self.scales.len() * 4
    }
}

/// A chunk under the range of rows it covers.
#[derive(Debug)]
pub(crate) struct Entry {
    pub(crate) base: usize,
    pub(crate) live: usize,
    pub(crate) chunk: Arc<Chunk>,
}

/// A cached chunk: its first row, its number of rows, and itself.
pub type Cached = (usize, usize, Chunk);

/// A chunk as the cache lists it.
pub open spec fn cached(base: usize, live: usize, chunk: Arc<Chunk>) -> Cached {
    (base, live, *chunk)
}

/// Bytes of all the chunks in `entries`.
pub open spec fn total(entries: Seq<Cached>) -> int
    decreases entries.len(),
{
    if entries.len() == 0 {
        0
    } else {
        entries[0].2.size() + total(entries.drop_first())
    }
}

/// Where the chunk of `live` rows from `base` stands, from position `from` on.
pub open spec fn position_from(entries: Seq<Cached>, base: usize, live: usize, from: int) -> Option<
    int,
>
    decreases entries.len() - from,
{
    if from >= entries.len() {
        None
    } else if entries[from].0 == base && entries[from].1 == live {
        Some(from)
    } else {
        position_from(entries, base, live, from + 1)
    }
}

/// Where the chunk of `live` rows from `base` stands.
pub open spec fn position(entries: Seq<Cached>, base: usize, live: usize) -> Option<int> {
    position_from(entries, base, live, 0)
}

/// The entries after one has been used: it is now the most recent.
pub open spec fn touched(entries: Seq<Cached>, base: usize, live: usize) -> Seq<Cached> {
    match position(entries, base, live) {
        Some(i) => entries.remove(i).push(entries[i]),
        None => entries,
    }
}

/// The entries once the oldest have been dropped, as long as the budget is
/// exceeded and more than one is left.
pub open spec fn evicted(entries: Seq<Cached>, budget: int) -> Seq<Cached>
    decreases entries.len(),
{
    if total(entries) > budget && entries.len() > 1 {
        evicted(entries.drop_first(), budget)
    } else {
        entries
    }
}

/// The entries after a chunk was offered: unchanged when its range is there
/// already.
pub open spec fn inserted(
    entries: Seq<Cached>,
    budget: int,
    base: usize,
    live: usize,
    chunk: Chunk,
) -> Seq<Cached> {
    match position(entries, base, live) {
        Some(_) => entries,
        None => evicted(entries.push((base, live, chunk)), budget),
    }
}

/// No chunk holds fewer than no bytes.
pub proof fn lemma_total_nonnegative(entries: Seq<Cached>)
    ensures
        0 <= total(entries),
    decreases entries.len(),
{
    if entries.len() > 0 {
        lemma_total_nonnegative(entries.drop_first());
    }
}

/// One more chunk adds its size.
pub proof fn lemma_total_push(entries: Seq<Cached>, entry: Cached)
    ensures
        total(entries.push(entry)) == total(entries) + entry.2.size(),
    decreases entries.len(),
{
    if entries.len() > 0 {
        assert(entries.push(entry).drop_first() =~= entries.drop_first().push(entry));
        lemma_total_push(entries.drop_first(), entry);
    } else {
        assert(entries.push(entry).drop_first() =~= entries);
    }
}

/// One chunk fewer takes its size away.
pub proof fn lemma_total_remove(entries: Seq<Cached>, i: int)
    requires
        0 <= i < entries.len(),
    ensures
        total(entries.remove(i)) == total(entries) - entries[i].2.size(),
    decreases entries.len(),
{
    if i == 0 {
        assert(entries.remove(0) =~= entries.drop_first());
    } else {
        assert(entries.remove(i).drop_first() =~= entries.drop_first().remove(i - 1));
        lemma_total_remove(entries.drop_first(), i - 1);
    }
}

/// What [`position_from`] finds.
pub proof fn lemma_position_from(entries: Seq<Cached>, base: usize, live: usize, from: int)
    requires
        0 <= from,
    ensures
        match position_from(entries, base, live, from) {
            Some(i) => {
                &&& from <= i < entries.len()
                &&& entries[i].0 == base && entries[i].1 == live
                &&& forall|j: int|
                    from <= j < i ==> !(#[trigger] entries[j].0 == base && entries[j].1 == live)
            },
            None => forall|j: int|
                from <= j < entries.len() ==> !(#[trigger] entries[j].0 == base && entries[j].1
                    == live),
        },
    decreases entries.len() - from,
{
    if from < entries.len() && !(entries[from].0 == base && entries[from].1 == live) {
        lemma_position_from(entries, base, live, from + 1);
    }
}

/// What eviction leaves: the most recent entries, of which there is at least one
/// as long as there was one, and no more bytes than the budget unless a single
/// chunk exceeds it.
pub proof fn lemma_evicted(entries: Seq<Cached>, budget: int)
    ensures
        evicted(entries, budget).len() <= entries.len(),
        evicted(entries, budget) == entries.skip(entries.len() - evicted(entries, budget).len()),
        entries.len() > 0 ==> evicted(entries, budget).len() > 0,
        total(evicted(entries, budget)) <= budget || evicted(entries, budget).len() <= 1,
    decreases entries.len(),
{
    if total(entries) > budget && entries.len() > 1 {
        let rest = entries.drop_first();
        lemma_evicted(rest, budget);
        let kept = evicted(rest, budget);
        assert(rest.skip(rest.len() - kept.len()) =~= entries.skip(entries.len() - kept.len()));
    } else {
        assert(entries.skip(0) =~= entries);
    }
}

/// Least-recently-used chunk cache under a byte budget.
#[derive(Debug)]
pub struct PagedCache {
    pub(crate) budget: usize,
    pub(crate) used: usize,
    pub(crate) entries: Vec<Entry>,
}

impl PagedCache {
    /// The cached chunks, least recently used first.
    pub open(crate) spec fn view(&self) -> Seq<Cached> {
        self.entries@.map_values(|e: Entry| cached(e.base, e.live, e.chunk))
    }

    /// The byte budget.
    pub open(crate) spec fn budget(&self) -> int {
        self.budget as int
    }

    /// The byte count agrees with the chunks.
    pub open(crate) spec fn wf(&self) -> bool {
        &&& self.budget > 0
        &&& self.used == total(self@)
    }

    /// An empty cache; a budget of nothing counts as one byte.
    pub fn new(budget: usize) -> (r: PagedCache)
        ensures
            r.wf(),
            r@.len() == 0,
            r.budget() == if budget == 0 {
                1
            } else {
                budget as int
            },
    {
        PagedCache {
            budget: if budget == 0 {
                1
            } else {
                budget
            },
            used: 0,
            entries: Vec::new(),
        }
    }

    /// Bytes of all the cached chunks.
    pub fn used(&self) -> (r: usize)
        requires
            self.wf(),
        ensures
            r == total(self@),
    {
        self.used
    }

    /// Where the chunk of `live` rows from `base` stands.
    fn find(&self, base: usize, live: usize) -> (r: Option<usize>)
        ensures
            match (r, position(self@, base, live)) {
                (Some(a), Some(b)) => a == b && a < self.entries@.len(),
                (None, None) => true,
                _ => false,
            },
    {
        let n: usize = self.entries.len();
        let mut i: usize = 0;
        while i < n
            invariant
                i <= n,
                n == self.entries@.len(),
                position(self@, base, live) == position_from(self@, base, live, i as int),
            decreases n - i,
        {
            assert(self@[i as int] == cached(
                self.entries@[i as int].base,
                self.entries@[i as int].live,
                self.entries@[i as int].chunk,
            ));
            if self.entries[i].base == base && self.entries[i].live == live {
                return Some(i);
            }
            i = i + 1;
        }
        None
    }

    /// The chunk of `live` rows from `base`, which becomes the most recent.
    pub fn get(&mut self, base: usize, live: usize) -> (r: Option<Arc<Chunk>>)
        requires
            old(self).wf(),
        ensures
            final(self).wf(),
            final(self).budget() == old(self).budget(),
            final(self)@ == touched(old(self)@, base, live),
            match (r, position(old(self)@, base, live)) {
                (Some(chunk), Some(i)) => *chunk == old(self)@[i].2,
                (None, None) => true,
                _ => false,
            },
    {
        match self.find(base, live) {
            Some(i) => {
                proof {
                    lemma_total_remove(self@, i as int);
                    lemma_total_push(self@.remove(i as int), self@[i as int]);
                }
                let entry = self.entries.remove(i);
                let chunk = Arc::clone(&entry.chunk);
                self.entries.push(entry);
                assert(self@ =~= touched(old(self)@, base, live));
                Some(chunk)
            },
            None => None,
        }
    }

    /// Offer a chunk of `live` rows from `base`: it becomes the most recent, and
    /// the oldest ones are dropped while the budget is exceeded and more than one
    /// is left. A range that is there already is left as it is.
    pub fn insert(&mut self, base: usize, live: usize, chunk: Arc<Chunk>)
        requires
            old(self).wf(),
            total(old(self)@) + chunk.size() <= usize::MAX,
        ensures
            final(self).wf(),
            final(self).budget() == old(self).budget(),
            final(self)@ == inserted(old(self)@, old(self).budget(), base, live, *chunk),
    {
        if self.find(base, live).is_some() {
            return;
        }
        let ghost offered = cached(base, live, chunk);
        proof {
            lemma_total_nonnegative(self@);
            lemma_total_push(self@, offered);
        }
        self.used = self.used + chunk.bytes();
        self.entries.push(Entry { base, live, chunk });
        assert(self@ =~= old(self)@.push(offered));
        while self.used > self.budget && self.entries.len() > 1
            invariant
                self.wf(),
                self.budget == old(self).budget,
                evicted(self@, self.budget as int) == evicted(
                    old(self)@.push(offered),
                    old(self).budget as int,
                ),
            decreases self.entries@.len(),
        {
            let ghost before = self@;
            proof {
                lemma_total_nonnegative(before.drop_first());
                assert(before[0] == cached(
                    self.entries@[0].base,
                    self.entries@[0].live,
                    self.entries@[0].chunk,
                ));
            }
            let oldest = self.entries.remove(0);
            self.used = self.used - oldest.chunk.bytes();
            assert(self@ =~= before.drop_first());
        }
    }
}

} // verus!
