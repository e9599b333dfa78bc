//! Bit patterns stand for the numbers they encode.
use crate::calibration::{identity, normalized, state_of, CalibrationState};
use crate::float_bits::{
    equal, exponent, finite, fraction, less, less_eq, magnitude, nan, sign, ONE, ZERO,
};
use crate::mapped::{bad_image_scale, le32};
use crate::results::SearchResults;
use crate::scratch::{over_retained, retain_target};
use crate::text::digits;
use crate::validate::{
    bad_calibration_scale, bad_coord, bad_shift, bad_vector_scale, invalid_coord,
    lemma_first_where,
};
use vstd::arithmetic::power2::{lemma_pow2_pos, lemma_pow2_unfold, pow2};
use vstd::prelude::*;

verus! {

/// The magnitude that a finite pattern encodes, in units of the smallest positive
/// number.
pub open spec fn scaled_magnitude(bits: u32) -> int {
    if exponent(bits) == 0 {
        fraction(bits)
    } else {
        (0x80_0000 + fraction(bits)) * pow2((exponent(bits) - 1) as nat)
    }
}

/// The number that a finite pattern encodes, in the same units.
pub open spec fn scaled_value(bits: u32) -> int {
    if sign(bits) {
        -scaled_magnitude(bits)
    } else {
        scaled_magnitude(bits)
    }
}

proof fn lemma_pow2_monotone(a: nat, b: nat)
    requires
        a <= b,
    ensures
        pow2(a) <= pow2(b),
    decreases b - a,
{
    if a < b {
        lemma_pow2_monotone(a, (b - 1) as nat);
        lemma_pow2_unfold(b);
        lemma_pow2_pos((b - 1) as nat);
    }
}

proof fn lemma_fields(bits: u32)
    ensures
        0 <= exponent(bits) < 256,
        0 <= fraction(bits) < 0x80_0000,
        magnitude(bits) == exponent(bits) * 0x80_0000 + fraction(bits),
{
}

proof fn lemma_magnitudes_ordered(a: u32, b: u32)
    requires
        magnitude(a) < magnitude(b),
    ensures
        scaled_magnitude(a) < scaled_magnitude(b),
{
    lemma_fields(a);
    lemma_fields(b);
    let ea = exponent(a);
    let eb = exponent(b);
    let fa = fraction(a);
    let fb = fraction(b);
    if eb > 0 {
        let pb = pow2((eb - 1) as nat) as int;
        lemma_pow2_pos((eb - 1) as nat);
        if ea == 0 {
            assert((0x80_0000 + fb) * pb >= 0x80_0000) by (nonlinear_arith)
                requires
                    fb >= 0,
                    pb >= 1,
            ;
        } else {
            let pa = pow2((ea - 1) as nat) as int;
            lemma_pow2_pos((ea - 1) as nat);
            if ea == eb {
                assert((0x80_0000 + fa) * pa < (0x80_0000 + fb) * pb) by (nonlinear_arith)
                    requires
                        fa < fb,
                        pa == pb,
                        pa >= 1,
                ;
            } else {
                lemma_pow2_unfold(ea as nat);
                lemma_pow2_monotone(ea as nat, (eb - 1) as nat);
                assert((0x80_0000 + fa) * pa < (0x80_0000 + fb) * pb) by (nonlinear_arith)
                    requires
                        0 <= fa < 0x80_0000,
                        fb >= 0,
                        2 * pa <= pb,
                        pa >= 1,
                ;
            }
        }
    }
}

proof fn lemma_magnitude_nonnegative(bits: u32)
    ensures
        0 <= scaled_magnitude(bits),
        scaled_magnitude(bits) == 0 <==> magnitude(bits) == 0,
{
    lemma_fields(bits);
    if exponent(bits) > 0 {
        let p = pow2((exponent(bits) - 1) as nat) as int;
        let f = fraction(bits);
        lemma_pow2_pos((exponent(bits) - 1) as nat);
        assert((0x80_0000 + f) * p > 0) by (nonlinear_arith)
            requires
                0 <= f,
                1 <= p,
        ;
    }
}

/// Comparing two finite patterns compares the numbers they encode.
pub proof fn law_comparisons_are_numeric(a: u32, b: u32)
    requires
        finite(a),
        finite(b),
    ensures
        less(a, b) <==> scaled_value(a) < scaled_value(b),
        less_eq(a, b) <==> scaled_value(a) <= scaled_value(b),
        equal(a, b) <==> scaled_value(a) == scaled_value(b),
{
    lemma_magnitude_nonnegative(a);
    lemma_magnitude_nonnegative(b);
    if magnitude(a) < magnitude(b) {
        lemma_magnitudes_ordered(a, b);
    } else if magnitude(b) < magnitude(a) {
        lemma_magnitudes_ordered(b, a);
    } else {
        lemma_fields(a);
        lemma_fields(b);
        assert(exponent(a) == exponent(b) && fraction(a) == fraction(b));
    }
}

/// Results that hold a score which is no number equal nothing, not even
/// themselves.
pub proof fn law_nan_results_equal_nothing(results: SearchResults, other: SearchResults, i: int)
    requires
        0 <= i < results.scores@.len(),
        nan(results.scores@[i]),
    ensures
        !results.same(other),
        !results.same(results),
{
    if results.same(other) {
        assert(equal(results.scores@[i], other.scores@[i]));
    }
    if results.same(results) {
        assert(equal(results.scores@[i], results.scores@[i]));
    }
}

/// A buffer that nothing before asked for is given back whole.
pub proof fn law_one_shot_scratch_is_released(capacity: int)
    requires
        capacity > 0,
    ensures
        over_retained(capacity, 0),
        retain_target(0) == 0,
{
}

/// A buffer at most three times the previous demand is kept, and with it every
/// buffer of calls that stay equal, grow gently, jitter or triple once.
pub proof fn law_steady_scratch_is_kept(capacity: int, prev: usize)
    requires
        0 <= capacity <= usize::MAX,
        capacity <= 2 * (prev as int + prev as int / 2),
    ensures
        !over_retained(capacity, prev as int),
        capacity < 3 * prev ==> capacity <= 2 * (prev as int + prev as int / 2),
        prev as int % 2 == 0 ==> 2 * (prev as int + prev as int / 2) == 3 * prev,
{
}

/// Where a pattern that is a number stands on the number line: the patterns from 0 up
/// to infinity count upwards from 0, those with the sign bit downwards.
pub open spec fn place(v: u32) -> int {
    if v < 0x8000_0000 {
        v as int
    } else {
        0x8000_0000 - v
    }
}

/// No number: beyond infinity on either side.
pub open spec fn beyond_infinity(v: u32) -> bool {
    place(v) > 0x7f80_0000 || place(v) < -0x7f80_0000
}

/// A coordinate that is accepted: its magnitude is below `1e16`.
pub open spec fn usable_coord(v: u32) -> bool {
    -0x5a0e_1bca < place(v) < 0x5a0e_1bca
}

/// A per-vector scale that is accepted: zero of either sign, or positive and finite.
pub open spec fn usable_scale(v: u32) -> bool {
    0 <= place(v) < 0x7f80_0000
}

/// A calibration shift that is accepted: any finite number.
pub open spec fn usable_shift(v: u32) -> bool {
    -0x7f80_0000 < place(v) < 0x7f80_0000
}

/// A calibration scale that is accepted: positive and finite.
pub open spec fn usable_factor(v: u32) -> bool {
    0 < place(v) < 0x7f80_0000
}

/// Every number of `s` is accepted by `usable`.
pub open spec fn all_usable(s: Seq<u32>, usable: spec_fn(u32) -> bool) -> bool {
    forall|i: int| 0 <= i < s.len() ==> usable(#[trigger] s[i])
}

/// Numbers compare as their places on the number line do; what is no number compares
/// with nothing.
pub proof fn law_numbers_compare_by_place(a: u32, b: u32)
    ensures
        nan(a) <==> beyond_infinity(a),
        finite(a) <==> -0x7f80_0000 < place(a) < 0x7f80_0000,
        less(a, b) <==> !beyond_infinity(a) && !beyond_infinity(b) && place(a) < place(b),
        less_eq(a, b) <==> !beyond_infinity(a) && !beyond_infinity(b) && place(a) <= place(b),
        equal(a, b) <==> !beyond_infinity(a) && !beyond_infinity(b) && place(a) == place(b),
{
}

/// Which numbers are accepted where. A scale of an image lies between zero and the
/// largest one its format admits.
pub proof fn law_accepted_numbers(v: u32, max: u32)
    ensures
        bad_coord(v) <==> !usable_coord(v),
        bad_vector_scale(v) <==> !usable_scale(v),
        bad_shift(v) <==> !usable_shift(v),
        bad_calibration_scale(v) <==> !usable_factor(v),
        bad_image_scale(v, max) <==> !(usable_scale(v) && !beyond_infinity(max) && place(v)
            <= place(max)),
        equal(v, ZERO) <==> place(v) == 0,
        equal(v, ONE) <==> v == 0x3f80_0000,
{
}

/// The largest accepted coordinate is the last one below the number next to `1e16`: the
/// bound is within one part in a million of it, in units of the smallest positive
/// number.
pub proof fn law_coordinate_bound_is_1e16()
    ensures
        scaled_value(0x5a0e_1bca) == 0x8e_1bca * pow2(179),
        0x8e_1bca * pow2(30) - 10_000_000_000_000_000 < pow2(30),
        10_000_000_000_000_000 - 0x8e_1bca * pow2(30) < pow2(30),
{
    vstd::arithmetic::power2::lemma2_to64();
    vstd::arithmetic::power2::lemma2_to64_rest();
    assert(pow2(30) == 0x4000_0000);
    assert(exponent(0x5a0e_1bca) == 180);
    assert(fraction(0x5a0e_1bca) == 0x0e_1bca);
}

/// The coordinate that is reported is the first one, row by row, that is not accepted;
/// none is reported exactly when all are.
pub proof fn law_reported_coordinate_is_the_first(values: Seq<u32>, dim: int, i: int)
    requires
        0 < dim,
        0 <= i < values.len(),
    ensures
        match invalid_coord(values, dim) {
            Some((row, column, value)) => {
                let at = row * dim + column;
                &&& 0 <= column < dim
                &&& 0 <= row
                &&& 0 <= at < values.len()
                &&& value == values[at]
                &&& !usable_coord(value)
                &&& i < at ==> usable_coord(values[i])
            },
            None => usable_coord(values[i]),
        },
{
    let bad = |v: u32| bad_coord(v);
    lemma_first_where(values, bad);
    match invalid_coord(values, dim) {
        Some((row, column, value)) => {
            let at = crate::validate::first_where(values, bad)->0;
            vstd::arithmetic::div_mod::lemma_fundamental_div_mod(at, dim);
            assert(dim * row == row * dim) by (nonlinear_arith);
            assert(0 <= at / dim && 0 <= at % dim < dim) by (nonlinear_arith)
                requires
                    0 <= at,
                    0 < dim,
            ;
            assert(bad(values[at]));
            if i < at {
                assert(!bad(values[i]));
            }
        },
        None => {
            assert(!bad(values[i]));
        },
    }
}

/// A batch is clean exactly when every coordinate is accepted.
pub proof fn law_clean_batches(values: Seq<u32>, dim: int)
    requires
        0 < dim,
    ensures
        invalid_coord(values, dim) is None <==> all_usable(values, |v: u32| usable_coord(v)),
{
    if invalid_coord(values, dim) is None {
        assert forall|i: int| 0 <= i < values.len() implies usable_coord(#[trigger] values[i]) by {
            law_reported_coordinate_is_the_first(values, dim, i);
        }
    } else if values.len() > 0 {
        law_reported_coordinate_is_the_first(values, dim, 0);
        let (row, column, value) = invalid_coord(values, dim)->0;
        assert(!usable_coord(values[row * dim + column]));
    } else {
        lemma_first_where(values, |v: u32| bad_coord(v));
    }
}

/// A calibration that changes nothing adds zero to every coordinate and multiplies it
/// by one. An index past warm-up is committed to identity exactly when it holds such a
/// pair.
pub proof fn law_identity_changes_nothing(warming: bool, shift: Seq<u32>, scale: Seq<u32>)
    ensures
        identity(shift, scale) <==> all_usable(shift, |v: u32| v == 0 || v == 0x8000_0000)
            && all_usable(scale, |v: u32| v == 0x3f80_0000),
        state_of(warming, shift, scale) == CalibrationState::WarmingUp <==> warming,
        state_of(warming, shift, scale) == CalibrationState::Identity <==> !warming && all_usable(
            shift,
            |v: u32| v == 0 || v == 0x8000_0000,
        ) && all_usable(scale, |v: u32| v == 0x3f80_0000),
{
    let zero = |v: u32| v == 0 || v == 0x8000_0000;
    let one = |v: u32| v == 0x3f80_0000;
    if identity(shift, scale) {
        assert forall|i: int| 0 <= i < shift.len() implies zero(#[trigger] shift[i]) by {
            law_accepted_numbers(shift[i], 0);
            assert(equal(shift[i], ZERO));
        }
        assert forall|i: int| 0 <= i < scale.len() implies one(#[trigger] scale[i]) by {
            law_accepted_numbers(scale[i], 0);
            assert(equal(scale[i], ONE));
        }
    }
    if all_usable(shift, zero) && all_usable(scale, one) {
        assert forall|i: int| 0 <= i < shift.len() implies equal(#[trigger] shift[i], ZERO) by {
            assert(zero(shift[i]));
        }
        assert forall|i: int| 0 <= i < scale.len() implies equal(#[trigger] scale[i], ONE) by {
            assert(one(scale[i]));
        }
    }
}

/// What a declared calibration becomes beside `n` rows. Rows without one stand under
/// identity, written out. Without rows, none and one that changes nothing both mean
/// that the index still warms up, with nothing buffered. Every other pair is kept as it
/// is and ends warm-up.
pub proof fn law_declared_calibration(
    dim: Option<usize>,
    n: int,
    shift: Seq<u32>,
    scale: Seq<u32>,
)
    ensures
        ({
            let (shift2, scale2, warmup) = normalized(dim, n, shift, scale);
            let unchanged = all_usable(shift, |v: u32| v == 0 || v == 0x8000_0000) && all_usable(
                scale,
                |v: u32| v == 0x3f80_0000,
            );
            let waits = if shift.len() > 0 {
                n == 0 && unchanged
            } else {
                n <= 0 || dim is None
            };
            &&& warmup is Some <==> waits
            &&& waits ==> warmup->0.len() == 0
            &&& waits && shift.len() > 0 ==> shift2.len() == 0 && scale2.len() == 0
            &&& waits && shift.len() == 0 ==> shift2 == shift && scale2 == scale
            &&& !waits && shift.len() > 0 ==> shift2 == shift && scale2 == scale
            &&& !waits && shift.len() == 0 ==> {
                &&& shift2 == Seq::new(dim->0 as nat, |i: int| 0u32)
                &&& scale2 == Seq::new(dim->0 as nat, |i: int| 0x3f80_0000u32)
            }
        }),
{
    law_identity_changes_nothing(false, shift, scale);
    let (shift2, scale2, warmup) = normalized(dim, n, shift, scale);
    if shift.len() == 0 && n > 0 && dim is Some {
        assert(shift2 =~= Seq::new(dim->0 as nat, |i: int| 0u32));
        assert(scale2 =~= Seq::new(dim->0 as nat, |i: int| 0x3f80_0000u32));
    }
}

/// A stored number is the sum of its four bytes, each worth 256 times the one before.
pub proof fn law_stored_numbers(bytes: Seq<u8>, at: int)
    ensures
        le32(bytes, at) as int == bytes[at] + 0x100 * bytes[at + 1] + 0x1_0000 * bytes[at + 2]
            + 0x100_0000 * bytes[at + 3],
{
}

/// A scratch buffer is released exactly when it is more than twice as large as the
/// previous demand and half as much again, and then cut back to that; where either
/// amount would not fit a `usize`, the largest one that does stands for it.
pub proof fn law_scratch_limits(capacity: usize, prev: usize)
    ensures
        2 * retain_target(prev as int) <= 3 * prev,
        prev + prev as int / 2 <= usize::MAX ==> 3 * prev - 1 <= 2 * retain_target(prev as int),
        prev + prev as int / 2 > usize::MAX ==> retain_target(prev as int) == usize::MAX,
        over_retained(capacity as int, prev as int) <==> capacity > 2 * (prev + prev as int / 2),
{
}

/// The number that decimal digits spell.
pub open spec fn spelled(text: Seq<char>) -> int
    decreases text.len(),
{
    if text.len() == 0 {
        0
    } else {
        10 * spelled(text.drop_last()) + (text.last() as int - '0' as int)
    }
}

/// A rendered number spells that number in decimal digits, without a leading zero.
pub proof fn law_rendered_numbers(n: nat)
    ensures
        spelled(digits(n)) == n,
        digits(n).len() > 0,
        n > 0 ==> digits(n)[0] != '0',
        n == 0 ==> digits(n).len() == 1,
        forall|i: int| 0 <= i < digits(n).len() ==> '0' <= #[trigger] digits(n)[i] <= '9',
    decreases n,
{
    reveal_with_fuel(spelled, 2);
    if n < 10 {
        assert(digits(n).drop_last() =~= Seq::<char>::empty());
    } else {
        law_rendered_numbers(n / 10);
        assert(digits(n).drop_last() =~= digits(n / 10));
        assert(digits(n)[0] == digits(n / 10)[0]);
        assert forall|i: int| 0 <= i < digits(n).len() implies '0' <= #[trigger] digits(n)[i]
            <= '9' by {
            if i < digits(n / 10).len() {
                assert(digits(n)[i] == digits(n / 10)[i]);
            }
        }
    }
}

/// Two results are equal when they agree in shape and slots and every pair of scores
/// stands at the same place on the number line.
pub proof fn law_equal_results(a: SearchResults, b: SearchResults)
    ensures
        a.same(b) <==> {
            &&& a.nq == b.nq
            &&& a.k == b.k
            &&& a.indices@ == b.indices@
            &&& a.scores@.len() == b.scores@.len()
            &&& forall|i: int|
                0 <= i < a.scores@.len() ==> {
                    &&& !beyond_infinity(#[trigger] a.scores@[i])
                    &&& !beyond_infinity(b.scores@[i])
                    &&& place(a.scores@[i]) == place(b.scores@[i])
                }
        },
        a.complete() <==> a.scores@.len() == a.nq * a.k && a.indices@.len() == a.nq * a.k,
{
    if a.same(b) {
        assert forall|i: int| 0 <= i < a.scores@.len() implies {
            &&& !beyond_infinity(#[trigger] a.scores@[i])
            &&& !beyond_infinity(b.scores@[i])
            &&& place(a.scores@[i]) == place(b.scores@[i])
        } by {
            assert(equal(a.scores@[i], b.scores@[i]));
        }
    }
}

} // verus!
