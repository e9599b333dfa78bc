//! Retention of a reused scratch buffer.
use vstd::prelude::*;

verus! {

/// Elements worth keeping after a call whose predecessor asked for `prev`: that
/// demand and half as much again.
pub open spec fn retain_target(prev: int) -> int {
    if prev + prev / 2 <= usize::MAX {
        prev + prev / 2
    } else {
        usize::MAX as int
    }
}

/// Whether a buffer of this capacity is given back down to the target: only
/// when it is more than twice as large.
pub open spec fn over_retained(capacity: int, prev: int) -> bool {
    capacity > 2 * retain_target(prev)
}

/// The length to cut a buffer of `capacity` elements back to, or `None` to leave
/// it alone.
pub fn release_target(capacity: usize, prev: usize) -> (r: Option<usize>)
    ensures
        r == if over_retained(capacity as int, prev as int) {
            Some(retain_target(prev as int) as usize)
        } else {
            None
        },
{
    let target: usize = prev.saturating_add(prev / 2);
    if capacity > target.saturating_add(target) {
        Some(target)
    } else {
        None
    }
}

/// `Vec::capacity`: how many elements the buffer can hold without growing,
/// which is never less than it holds now.
#[verifier::external_body]
fn capacity_of<T>(buffer: &Vec<T>) -> (r: usize)
    ensures
        r >= buffer@.len(),
{
    buffer.capacity()
}

/// `Vec::shrink_to`: gives spare capacity back and leaves the contents alone.
/// How much the allocator takes back is not stated.
#[verifier::external_body]
fn shrink_capacity<T>(buffer: &mut Vec<T>, min_capacity: usize)
    ensures
        final(buffer)@ == old(buffer)@,
{
    buffer.shrink_to(min_capacity)
}

/// Release a scratch buffer that is far larger than the calls around it need.
///
/// `prev` is the previous call's demand and `want` is this call's, which is
/// returned as the demand to record for the next. A buffer that is released is
/// cut back before it is shrunk, since shrinking never goes below the length.
pub fn retain_scratch<T>(scratch: &mut Vec<T>, prev: usize, want: usize) -> (r: usize)
    ensures
        r == want,
        final(scratch)@ == old(scratch)@ || final(scratch)@ == old(scratch)@.take(
            retain_target(prev as int),
        ),
        over_retained(old(scratch)@.len() as int, prev as int) ==> final(scratch)@ == old(
            scratch,
        )@.take(retain_target(prev as int)),
{
    match release_target(capacity_of(scratch), prev) {
        Some(target) => {
            scratch.truncate(target);
            shrink_capacity(scratch, target);
        },
        None => {},
    }
    want
}

} // verus!
