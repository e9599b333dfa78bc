//! Search masks packed into 64-slot words.
use vstd::prelude::*;

verus! {

/// Bit `b` of `word`.
pub open spec fn bit(word: u64, b: u64) -> bool {
    (word >> b) & 1 == 1
}

/// Number of slots a mask allows.
pub open spec fn allowed(mask: Seq<bool>) -> nat
    decreases mask.len(),
{
    if mask.len() == 0 {
        0
    } else {
        allowed(mask.drop_last()) + if mask.last() {
            1nat
        } else {
            0
        }
    }
}

/// Number of words that `n` slots occupy.
pub open spec fn words_for(n: int) -> int {
    (n + 63) / 64
}

/// `words` holds `mask`, slot `i` in bit `i % 64` of word `i / 64`, with zero
/// bits behind the last slot.
pub open spec fn holds_mask(words: Seq<u64>, mask: Seq<bool>) -> bool {
    &&& words.len() == words_for(mask.len() as int)
    &&& forall|w: int, b: u64|
        0 <= w < words.len() && b < 64 ==> #[trigger] bit(words[w], b) == (64 * w + b < mask.len()
            && mask[64 * w + b])
}

/// A mask allows at most all of its slots.
pub proof fn lemma_allowed_bound(mask: Seq<bool>)
    ensures
        allowed(mask) <= mask.len(),
    decreases mask.len(),
{
    if mask.len() > 0 {
        lemma_allowed_bound(mask.drop_last());
    }
}

proof fn lemma_set_bit(word: u64, at: u64, b: u64)
    by (bit_vector)
    requires
        at < 64,
        b < 64,
    ensures
        (((word | (1u64 << at)) >> b) & 1 == 1) == (b == at || (word >> b) & 1 == 1),
{
}

proof fn lemma_zero_bit(b: u64)
    by (bit_vector)
    requires
        b < 64,
    ensures
        (0u64 >> b) & 1 != 1,
{
}

/// Pack `mask` into words and count the slots it allows.
pub fn pack_mask(mask: &[bool]) -> (r: (Vec<u64>, usize))
    ensures
        holds_mask(r.0@, mask@),
        r.1 == allowed(mask@),
{
    let n: usize = mask.len();
    let mut words: Vec<u64> = Vec::new();
    let mut count: usize = 0;
    let mut i: usize = 0;
    assert(mask@.take(0) =~= Seq::<bool>::empty());
    while i < n
        invariant
            i <= n,
            n == mask@.len(),
            i == n || i % 64 == 0,
            holds_mask(words@, mask@.take(i as int)),
            count == allowed(mask@.take(i as int)),
            count <= i,
        decreases n - i,
    {
        let ghost start = i as int;
        let ghost done = words@;
        let mut word: u64 = 0;
        let mut b: u64 = 0;
        assert forall|c: u64| c < 64 implies #[trigger] bit(word, c) == (c < b && mask@[start
            + c]) by {
            lemma_zero_bit(c);
        }
        while b < 64 && i < n
            invariant
                b <= 64,
                i == start + b,
                start % 64 == 0,
                start < n,
                i <= n,
                n == mask@.len(),
                count == allowed(mask@.take(i as int)),
                count <= i,
                forall|c: u64| c < 64 ==> #[trigger] bit(word, c) == (c < b && mask@[start + c]),
            decreases 64 - b,
        {
            let ghost before = word;
            assert(mask@.take(i + 1).drop_last() =~= mask@.take(i as int));
            if mask[i] {
                word = word | (1u64 << b);
                count = count + 1;
            }
            assert forall|c: u64| c < 64 implies #[trigger] bit(word, c) == (c < b + 1
                && mask@[start + c]) by {
                assert(bit(before, c) == (c < b && mask@[start + c]));
                lemma_set_bit(before, b, c);
            }
            i = i + 1;
            b = b + 1;
        }
        words.push(word);
        proof {
            let part = mask@.take(i as int);
            assert forall|w: int, c: u64| 0 <= w < words@.len() && c < 64 implies #[trigger] bit(
                words@[w],
                c,
            ) == (64 * w + c < part.len() && part[64 * w + c]) by {
                if w < done.len() {
                    assert(bit(done[w], c) == (64 * w + c < start && mask@.take(start)[64 * w
                        + c]));
                } else {
                    assert(64 * w == start);
                    assert(bit(word, c) == (c < b && mask@[start + c]));
                }
            }
        }
    }
    assert(mask@.take(n as int) =~= mask@);
    (words, count)
}

} // verus!
