//! The blocked code layout a scan reads.
//!
//! Slots are grouped into blocks of [`BLOCK`]. Inside a block the bytes are
//! stored group by group: byte group `g` of the block is the run of `BLOCK`
//! bytes holding byte `g` of each of its slots, one lane per slot. The last
//! block is padded with zero lanes.
use vstd::arithmetic::div_mod::{
    lemma_fundamental_div_mod, lemma_fundamental_div_mod_converse,
};
use vstd::prelude::*;

verus! {

/// Slots per block.
pub const BLOCK: usize = 32;

/// Number of blocks that `n` slots occupy.
pub open spec fn blocks(n: int) -> int {
    (n + 31) / 32
}

/// Bytes of one block whose slots have `groups` bytes each.
pub open spec fn block_bytes(groups: int) -> int {
    32 * groups
}

/// Bytes that `n` slots occupy, padding included.
pub open spec fn blocked_len(n: int, groups: int) -> int {
    blocks(n) * block_bytes(groups)
}

/// Where byte `group` of `slot` is stored.
pub open spec fn lane_offset(groups: int, slot: int, group: int) -> int {
    (slot / 32) * block_bytes(groups) + group * 32 + slot % 32
}

/// The slot whose lane holds the byte at `p`.
pub open spec fn slot_at(groups: int, p: int) -> int {
    (p / block_bytes(groups)) * 32 + p % 32
}

/// The byte group that the byte at `p` belongs to.
pub open spec fn group_at(groups: int, p: int) -> int {
    (p % block_bytes(groups)) / 32
}

/// The bytes of `slot`, in group order.
pub open spec fn lane_row(data: Seq<u8>, groups: int, slot: int) -> Seq<u8> {
    Seq::new(groups as nat, |g: int| data[lane_offset(groups, slot, g)])
}

/// Whether every padding lane behind the first `n` slots is zero.
pub open spec fn padding_zero(data: Seq<u8>, groups: int, n: int) -> bool {
    forall|p: int| 0 <= p < data.len() && slot_at(groups, p) >= n ==> data[p] == 0
}

/// `data` with the lane of `to` holding what the lane of `from` held.
pub open spec fn lane_moved(data: Seq<u8>, groups: int, from: int, to: int) -> Seq<u8> {
    Seq::new(
        data.len(),
        |p: int|
            if slot_at(groups, p) == to {
                data[lane_offset(groups, from, group_at(groups, p))]
            } else {
                data[p]
            },
    )
}

/// `data` with the lane of `slot` holding the row that starts at `at` in `rows`.
pub open spec fn lane_written(
    data: Seq<u8>,
    groups: int,
    slot: int,
    rows: Seq<u8>,
    at: int,
) -> Seq<u8> {
    Seq::new(
        data.len(),
        |p: int|
            if slot_at(groups, p) == slot {
                rows[at + group_at(groups, p)]
            } else {
                data[p]
            },
    )
}

/// `data` with the lane of `slot` zeroed.
pub open spec fn lane_zeroed(data: Seq<u8>, groups: int, slot: int) -> Seq<u8> {
    Seq::new(
        data.len(),
        |p: int|
            if slot_at(groups, p) == slot {
                0
            } else {
                data[p]
            },
    )
}

/// The buffer of `n` slots after slot `idx` was removed by moving the last
/// slot into it.
pub open spec fn lanes_swap_removed(data: Seq<u8>, groups: int, n: int, idx: int) -> Seq<u8> {
    Seq::new(
        blocked_len(n - 1, groups) as nat,
        |p: int|
            if slot_at(groups, p) == n - 1 {
                0
            } else if slot_at(groups, p) == idx {
                data[lane_offset(groups, n - 1, group_at(groups, p))]
            } else {
                data[p]
            },
    )
}

/// The buffer of `n` slots after `m` more rows, given row-major in `rows`, were
/// written into the lanes behind them.
pub open spec fn lanes_appended(
    data: Seq<u8>,
    groups: int,
    n: int,
    rows: Seq<u8>,
    m: int,
) -> Seq<u8> {
    Seq::new(
        blocked_len(n + m, groups) as nat,
        |p: int|
            if n <= slot_at(groups, p) < n + m {
                rows[(slot_at(groups, p) - n) * groups + group_at(groups, p)]
            } else if p < data.len() {
                data[p]
            } else {
                0
            },
    )
}

/// A lane byte's place determines its slot and group.
pub proof fn lemma_lane_offset(groups: int, slot: int, group: int)
    requires
        0 <= slot,
        0 <= group < groups,
    ensures
        0 <= lane_offset(groups, slot, group),
        slot_at(groups, lane_offset(groups, slot, group)) == slot,
        group_at(groups, lane_offset(groups, slot, group)) == group,
        lane_offset(groups, slot, group) < (slot / 32 + 1) * block_bytes(groups),
{
    let bb = block_bytes(groups);
    let q = slot / 32;
    let r = group * 32 + slot % 32;
    let p = lane_offset(groups, slot, group);
    assert(0 <= q * bb) by (nonlinear_arith)
        requires
            0 <= q,
            0 <= bb,
    ;
    assert((q + 1) * bb == q * bb + bb) by (nonlinear_arith);
    lemma_fundamental_div_mod_converse(p, bb, q, r);
    let inner = q * groups + group;
    assert(p == inner * 32 + slot % 32) by (nonlinear_arith)
        requires
            p == q * (32 * groups) + group * 32 + slot % 32,
            inner == q * groups + group,
    ;
    lemma_fundamental_div_mod_converse(p, 32, inner, slot % 32);
}

/// Every byte of a blocked buffer is a lane byte.
pub proof fn lemma_slot_at(groups: int, p: int)
    requires
        0 < groups,
        0 <= p,
    ensures
        0 <= slot_at(groups, p),
        slot_at(groups, p) / 32 == p / block_bytes(groups),
        0 <= group_at(groups, p) < groups,
        lane_offset(groups, slot_at(groups, p), group_at(groups, p)) == p,
{
    let bb = block_bytes(groups);
    let q = p / bb;
    let r = p % bb;
    lemma_fundamental_div_mod(p, bb);
    assert(0 <= q && 0 <= r < bb) by (nonlinear_arith)
        requires
            0 <= p,
            0 < bb,
            q == p / bb,
            r == p % bb,
    ;
    let inner = q * groups + r / 32;
    assert(p == inner * 32 + r % 32) by (nonlinear_arith)
        requires
            p == bb * q + r,
            bb == 32 * groups,
            inner == q * groups + r / 32,
            r == 32 * (r / 32) + r % 32,
    ;
    lemma_fundamental_div_mod_converse(p, 32, inner, r % 32);
    assert(bb * q == q * bb) by (nonlinear_arith);
}

/// The bytes of the first `m` blocks are those of the slots before `32 * m`.
pub proof fn lemma_block_prefix(groups: int, m: int, p: int)
    requires
        0 < groups,
        0 <= m,
        0 <= p,
    ensures
        p < m * block_bytes(groups) <==> slot_at(groups, p) < 32 * m,
{
    let bb = block_bytes(groups);
    let q = p / bb;
    lemma_slot_at(groups, p);
    lemma_fundamental_div_mod(p, bb);
    assert(p < m * bb <==> q < m) by (nonlinear_arith)
        requires
            0 < bb,
            p == bb * q + p % bb,
            0 <= p % bb < bb,
    ;
}

/// The byte of a slot inside the buffer lies inside the buffer.
pub proof fn lemma_lane_inside(groups: int, n: int, slot: int, group: int)
    requires
        0 <= slot < n,
        0 <= group < groups,
    ensures
        0 <= lane_offset(groups, slot, group) < blocked_len(n, groups),
{
    lemma_lane_offset(groups, slot, group);
    lemma_block_prefix(groups, blocks(n), lane_offset(groups, slot, group));
}

/// Number of blocks that `n` slots occupy.
pub fn blocks_for(n: usize) -> (r: usize)
    ensures
        r == blocks(n as int),
{
    if n % BLOCK == 0 {
        n / BLOCK
    } else {
        n / BLOCK + 1
    }
}

/// Where byte `group` of `slot` is stored.
fn lane_offset_of(groups: usize, slot: usize, group: usize) -> (r: usize)
    requires
        group < groups,
        lane_offset(groups as int, slot as int, group as int) <= usize::MAX,
    ensures
        r == lane_offset(groups as int, slot as int, group as int),
{
    let q: usize = slot / BLOCK;
    proof {
        lemma_lane_offset(groups as int, slot as int, group as int);
        let bb = block_bytes(groups as int);
        assert(q * bb == (q * groups) * 32 && (q * groups) <= q * bb) by (nonlinear_arith)
            requires
                bb == 32 * groups,
                0 <= q,
                0 <= groups,
        ;
    }
    q * groups * BLOCK + group * BLOCK + slot % BLOCK
}

/// Copy the lane of `from` over the lane of `to`.
pub fn move_lane(data: &mut Vec<u8>, groups: usize, n: usize, from: usize, to: usize)
    requires
        old(data)@.len() == blocked_len(n as int, groups as int),
        from < n,
        to < n,
    ensures
        final(data)@ == lane_moved(old(data)@, groups as int, from as int, to as int),
{
    let ghost before = data@;
    assert(data.len() == data@.len());
    let mut g: usize = 0;
    while g < groups
        invariant
            g <= groups,
            from < n,
            to < n,
            before.len() <= usize::MAX,
            data@.len() == before.len(),
            before.len() == blocked_len(n as int, groups as int),
            forall|p: int|
                0 <= p < before.len() ==> #[trigger] data@[p] == if slot_at(groups as int, p) == to
                    && 0 <= group_at(groups as int, p) < g {
                    before[lane_offset(groups as int, from as int, group_at(groups as int, p))]
                } else {
                    before[p]
                },
        decreases groups - g,
    {
        proof {
            lemma_lane_inside(groups as int, n as int, from as int, g as int);
            lemma_lane_inside(groups as int, n as int, to as int, g as int);
            lemma_lane_offset(groups as int, from as int, g as int);
            lemma_lane_offset(groups as int, to as int, g as int);
        }
        let src: usize = lane_offset_of(groups, from, g);
        let dst: usize = lane_offset_of(groups, to, g);
        let ghost mid = data@;
        data[dst] = data[src];
        assert forall|p: int| 0 <= p < before.len() implies #[trigger] data@[p] == if slot_at(
            groups as int,
            p,
        ) == to && 0 <= group_at(groups as int, p) < g + 1 {
            before[lane_offset(groups as int, from as int, group_at(groups as int, p))]
        } else {
            before[p]
        } by {
            lemma_slot_at(groups as int, p);
            assert(mid[src as int] == before[src as int]);
        }
        g = g + 1;
    }
    proof {
        assert forall|p: int| 0 <= p < before.len() implies data@[p] == lane_moved(
            before,
            groups as int,
            from as int,
            to as int,
        )[p] by {
            if groups > 0 {
                lemma_slot_at(groups as int, p);
            } else {
                assert(blocked_len(n as int, 0) == 0) by (nonlinear_arith);
            }
        }
        assert(data@ =~= lane_moved(before, groups as int, from as int, to as int));
    }
}

/// Fill the lane of `slot` with zeros.
pub fn zero_lane(data: &mut Vec<u8>, groups: usize, n: usize, slot: usize)
    requires
        old(data)@.len() == blocked_len(n as int, groups as int),
        slot < n,
    ensures
        final(data)@ == lane_zeroed(old(data)@, groups as int, slot as int),
{
    let ghost before = data@;
    assert(data.len() == data@.len());
    let mut g: usize = 0;
    while g < groups
        invariant
            g <= groups,
            slot < n,
            before.len() <= usize::MAX,
            data@.len() == before.len(),
            before.len() == blocked_len(n as int, groups as int),
            forall|p: int|
                0 <= p < before.len() ==> #[trigger] data@[p] == if slot_at(groups as int, p) == slot
                    && 0 <= group_at(groups as int, p) < g {
                    0
                } else {
                    before[p]
                },
        decreases groups - g,
    {
        proof {
            lemma_lane_inside(groups as int, n as int, slot as int, g as int);
            lemma_lane_offset(groups as int, slot as int, g as int);
        }
        let dst: usize = lane_offset_of(groups, slot, g);
        data[dst] = 0;
        assert forall|p: int| 0 <= p < before.len() implies #[trigger] data@[p] == if slot_at(
            groups as int,
            p,
        ) == slot && 0 <= group_at(groups as int, p) < g + 1 {
            0
        } else {
            before[p]
        } by {
            lemma_slot_at(groups as int, p);
        }
        g = g + 1;
    }
    proof {
        assert forall|p: int| 0 <= p < before.len() implies data@[p] == lane_zeroed(
            before,
            groups as int,
            slot as int,
        )[p] by {
            if groups > 0 {
                lemma_slot_at(groups as int, p);
            } else {
                assert(blocked_len(n as int, 0) == 0) by (nonlinear_arith);
            }
        }
        assert(data@ =~= lane_zeroed(before, groups as int, slot as int));
    }
}

/// Store the row that starts at `at` in `rows` into the lane of `slot`.
pub fn write_lane(
    data: &mut Vec<u8>,
    groups: usize,
    n: usize,
    slot: usize,
    rows: &[u8],
    at: usize,
)
    requires
        old(data)@.len() == blocked_len(n as int, groups as int),
        slot < n,
        at + groups <= rows@.len(),
    ensures
        final(data)@ == lane_written(
            old(data)@,
            groups as int,
            slot as int,
            rows@,
            at as int,
        ),
{
    let ghost before = data@;
    assert(data.len() == data@.len());
    assert(rows.len() == rows@.len());
    let mut g: usize = 0;
    while g < groups
        invariant
            g <= groups,
            slot < n,
            at + groups <= rows@.len() <= usize::MAX,
            before.len() <= usize::MAX,
            data@.len() == before.len(),
            before.len() == blocked_len(n as int, groups as int),
            forall|p: int|
                0 <= p < before.len() ==> #[trigger] data@[p] == if slot_at(groups as int, p)
                    == slot && 0 <= group_at(groups as int, p) < g {
                    rows@[at + group_at(groups as int, p)]
                } else {
                    before[p]
                },
        decreases groups - g,
    {
        proof {
            lemma_lane_inside(groups as int, n as int, slot as int, g as int);
            lemma_lane_offset(groups as int, slot as int, g as int);
        }
        let dst: usize = lane_offset_of(groups, slot, g);
        data[dst] = rows[at + g];
        assert forall|p: int| 0 <= p < before.len() implies #[trigger] data@[p] == if slot_at(
            groups as int,
            p,
        ) == slot && 0 <= group_at(groups as int, p) < g + 1 {
            rows@[at + group_at(groups as int, p)]
        } else {
            before[p]
        } by {
            lemma_slot_at(groups as int, p);
        }
        g = g + 1;
    }
    proof {
        assert forall|p: int| 0 <= p < before.len() implies data@[p] == lane_written(
            before,
            groups as int,
            slot as int,
            rows@,
            at as int,
        )[p] by {
            if groups > 0 {
                lemma_slot_at(groups as int, p);
            } else {
                assert(blocked_len(n as int, 0) == 0) by (nonlinear_arith);
            }
        }
        assert(data@ =~= lane_written(before, groups as int, slot as int, rows@, at as int));
    }
}

/// More slots never need fewer bytes.
pub proof fn lemma_blocked_len_monotone(n: int, m: int, groups: int)
    requires
        0 <= n <= m,
        0 <= groups,
    ensures
        0 <= blocked_len(n, groups) <= blocked_len(m, groups),
{
    assert(0 <= blocks(n) * block_bytes(groups) <= blocks(m) * block_bytes(groups))
        by (nonlinear_arith)
        requires
            0 <= blocks(n) <= blocks(m),
            0 <= block_bytes(groups),
    ;
}

/// Bytes that `n` slots occupy, or `None` when that overflows.
pub fn blocked_len_for(n: usize, groups: usize) -> (r: Option<usize>)
    ensures
        blocked_len(n as int, groups as int) <= usize::MAX ==> r == Some(
            blocked_len(n as int, groups as int) as usize,
        ),
        blocked_len(n as int, groups as int) > usize::MAX ==> r is None,
{
    let blocks_n: usize = blocks_for(n);
    proof {
        let b = blocks_n as int;
        let g = groups as int;
        assert(b * (32 * g) == (b * g) * 32) by (nonlinear_arith);
    }
    match blocks_n.checked_mul(groups) {
        Some(per_byte) => per_byte.checked_mul(BLOCK),
        None => None,
    }
}

/// Write `m` further rows into the lanes behind the first `n` slots, growing
/// the buffer by zeroed blocks as needed.
pub fn append_lanes(data: &mut Vec<u8>, groups: usize, n: usize, rows: &[u8], m: usize)
    requires
        old(data)@.len() == blocked_len(n as int, groups as int),
        rows@.len() == m * groups,
        n + m <= usize::MAX,
        blocked_len(n + m, groups as int) <= usize::MAX,
    ensures
        final(data)@ == lanes_appended(old(data)@, groups as int, n as int, rows@, m as int),
{
    let ghost before = data@;
    let total: usize = n + m;
    let new_len: usize = match blocked_len_for(total, groups) {
        Some(len) => len,
        None => 0,
    };
    assert(rows.len() == rows@.len());
    proof {
        lemma_blocked_len_monotone(n as int, n + m, groups as int);
    }
    data.resize(new_len, 0);
    let ghost grown = data@;
    assert forall|p: int| 0 <= p < new_len implies #[trigger] grown[p] == if p < before.len() {
        before[p]
    } else {
        0
    } by {
        if p < before.len() {
            assert(grown.subrange(0, before.len() as int)[p] == grown[p]);
        }
    }
    let mut s: usize = 0;
    while s < m
        invariant
            s <= m,
            total == n + m,
            rows@.len() == m * groups,
            rows@.len() <= usize::MAX,
            data@.len() == new_len,
            grown.len() == new_len,
            new_len == blocked_len(total as int, groups as int),
            forall|p: int|
                0 <= p < new_len ==> #[trigger] data@[p] == if n <= slot_at(groups as int, p) < n
                    + s {
                    rows@[(slot_at(groups as int, p) - n) * groups + group_at(groups as int, p)]
                } else {
                    grown[p]
                },
        decreases m - s,
    {
        proof {
            crate::rows::lemma_row_fits(s as int, m as int, groups as int);
        }
        write_lane(data, groups, total, n + s, rows, s * groups);
        s = s + 1;
    }
    assert(data@ =~= lanes_appended(before, groups as int, n as int, rows@, m as int));
}

/// Remove slot `idx` of `n` by moving the last slot into it, leaving no stale
/// byte behind.
pub fn swap_remove_lane(data: &mut Vec<u8>, groups: usize, n: usize, idx: usize)
    requires
        old(data)@.len() == blocked_len(n as int, groups as int),
        idx < n,
    ensures
        final(data)@ == lanes_swap_removed(old(data)@, groups as int, n as int, idx as int),
{
    let ghost before = data@;
    assert(data.len() == data@.len());
    let last: usize = n - 1;
    if idx != last {
        move_lane(data, groups, n, last, idx);
    }
    zero_lane(data, groups, n, last);
    proof {
        lemma_blocked_len_monotone(n - 1, n as int, groups as int);
    }
    let keep: usize = match blocked_len_for(last, groups) {
        Some(len) => len,
        None => 0,
    };
    data.truncate(keep);
    assert(data@ =~= lanes_swap_removed(before, groups as int, n as int, idx as int));
}

} // verus!
