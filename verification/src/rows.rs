//! Row-major buffers: `n` rows of a fixed width laid end to end.
//!
//! Packed codes, the warm-up buffer and result rows are all such buffers. The
//! specifications speak of whole rows; the executable code moves elements.
use vstd::prelude::*;

verus! {

/// Row `i` of a flat buffer whose rows are `width` wide.
pub open spec fn row<T>(flat: Seq<T>, width: int, i: int) -> Seq<T> {
    flat.subrange(i * width, i * width + width)
}

/// `flat`, a buffer of `n` rows, with row `idx` replaced by the last row and
/// the last row dropped.
pub open spec fn swap_removed<T>(flat: Seq<T>, width: int, n: int, idx: int) -> Seq<T> {
    Seq::new(
        ((n - 1) * width) as nat,
        |p: int|
            if idx * width <= p < idx * width + width {
                flat[(n - 1) * width + (p - idx * width)]
            } else {
                flat[p]
            },
    )
}

/// A row inside a buffer ends inside it.
pub proof fn lemma_row_fits(i: int, n: int, width: int)
    by (nonlinear_arith)
    requires
        0 <= i < n,
        0 <= width,
    ensures
        0 <= i * width,
        i * width + width <= n * width,
        i == n - 1 ==> i * width + width == n * width,
{
}

/// Distinct rows do not overlap: the lower one ends where the higher one can
/// start at the earliest.
pub proof fn lemma_rows_apart(i: int, j: int, width: int)
    by (nonlinear_arith)
    requires
        0 <= i < j,
        0 <= width,
    ensures
        i * width + width <= j * width,
{
}

/// What removing by swapping does to whole rows: the last row takes the place
/// of the removed one, every other remaining row stays where it was.
pub proof fn lemma_swap_removed_rows<T>(flat: Seq<T>, width: int, n: int, idx: int, i: int)
    requires
        0 <= width,
        flat.len() == n * width,
        0 <= idx < n,
        0 <= i < n - 1,
    ensures
        row(swap_removed(flat, width, n, idx), width, i) == if i == idx {
            row(flat, width, n - 1)
        } else {
            row(flat, width, i)
        },
{
    lemma_row_fits(i, n - 1, width);
    lemma_row_fits(n - 1, n, width);
    lemma_row_fits(i, n, width);
    let out = row(swap_removed(flat, width, n, idx), width, i);
    if i == idx {
        assert(out =~= row(flat, width, n - 1));
    } else {
        if i < idx {
            lemma_rows_apart(i, idx, width);
        } else {
            lemma_rows_apart(idx, i, width);
        }
        assert(out =~= row(flat, width, i));
    }
}

/// Appending rows leaves the rows already there alone and puts the new ones
/// behind them.
pub proof fn lemma_appended_rows<T>(flat: Seq<T>, more: Seq<T>, width: int, n: int, m: int, i: int)
    requires
        0 <= width,
        0 <= n,
        0 <= m,
        flat.len() == n * width,
        more.len() == m * width,
        0 <= i < n + m,
    ensures
        row(flat + more, width, i) == if i < n {
            row(flat, width, i)
        } else {
            row(more, width, i - n)
        },
{
    assert((n + m) * width == n * width + m * width) by (nonlinear_arith);
    lemma_row_fits(i, n + m, width);
    if i < n {
        lemma_row_fits(i, n, width);
        assert(row(flat + more, width, i) =~= row(flat, width, i));
    } else {
        assert((i - n) * width == i * width - n * width) by (nonlinear_arith);
        lemma_row_fits(i - n, m, width);
        assert(row(flat + more, width, i) =~= row(more, width, i - n));
    }
}

/// The buffer whose rows, `out` wide, are what `f` makes of the rows of `flat`.
pub open spec fn converted<A, B>(
    flat: Seq<A>,
    width: int,
    out: int,
    f: spec_fn(Seq<A>) -> Seq<B>,
) -> Seq<B> {
    Seq::new(
        ((flat.len() as int / width) * out) as nat,
        |p: int| f(row(flat, width, p / out))[p % out],
    )
}

/// `f` makes rows `out` wide of rows `width` wide.
pub open spec fn makes_rows<A, B>(f: spec_fn(Seq<A>) -> Seq<B>, width: int, out: int) -> bool {
    forall|r: Seq<A>| r.len() == width ==> (#[trigger] f(r)).len() == out
}

/// A buffer of `n` rows is as long as its rows together, and has `n` of them.
pub proof fn lemma_row_count(n: int, width: int)
    by (nonlinear_arith)
    requires
        0 <= n,
        0 < width,
    ensures
        (n * width) / width == n,
        0 <= n * width,
{
}

/// A buffer is determined by its rows.
pub proof fn lemma_rows_determine<T>(a: Seq<T>, b: Seq<T>, width: int, n: int)
    requires
        0 < width,
        0 <= n,
        a.len() == n * width,
        b.len() == n * width,
        forall|i: int| 0 <= i < n ==> #[trigger] row(a, width, i) == row(b, width, i),
    ensures
        a == b,
{
    assert forall|p: int| 0 <= p < a.len() implies a[p] == b[p] by {
        let i = p / width;
        let j = p % width;
        vstd::arithmetic::div_mod::lemma_fundamental_div_mod(p, width);
        assert(0 <= i < n && 0 <= j < width && p == i * width + j) by (nonlinear_arith)
            requires
                p == width * i + j,
                0 <= p < n * width,
                0 < width,
                i == p / width,
                j == p % width,
        ;
        lemma_row_fits(i, n, width);
        assert(row(a, width, i)[j] == row(b, width, i)[j]);
    }
    assert(a =~= b);
}

/// What converting does to whole rows.
pub proof fn lemma_converted_rows<A, B>(
    flat: Seq<A>,
    width: int,
    out: int,
    n: int,
    f: spec_fn(Seq<A>) -> Seq<B>,
)
    requires
        0 < width,
        0 < out,
        0 <= n,
        flat.len() == n * width,
        makes_rows(f, width, out),
    ensures
        converted(flat, width, out, f).len() == n * out,
        forall|i: int|
            0 <= i < n ==> #[trigger] row(converted(flat, width, out, f), out, i) == f(
                row(flat, width, i),
            ),
{
    lemma_row_count(n, width);
    lemma_row_count(n, out);
    let all = converted(flat, width, out, f);
    assert forall|i: int| 0 <= i < n implies #[trigger] row(all, out, i) == f(
        row(flat, width, i),
    ) by {
        lemma_row_fits(i, n, out);
        lemma_row_fits(i, n, width);
        assert(f(row(flat, width, i)).len() == out);
        assert forall|j: int| 0 <= j < out implies row(all, out, i)[j] == f(
            row(flat, width, i),
        )[j] by {
            vstd::arithmetic::div_mod::lemma_fundamental_div_mod_converse(
                i * out + j,
                out,
                i,
                j,
            );
        }
        assert(row(all, out, i) =~= f(row(flat, width, i)));
    }
}

/// Converting a buffer converts what it is put together from.
pub proof fn lemma_converted_concat<A, B>(
    a: Seq<A>,
    b: Seq<A>,
    width: int,
    out: int,
    n: int,
    m: int,
    f: spec_fn(Seq<A>) -> Seq<B>,
)
    requires
        0 < width,
        0 < out,
        0 <= n,
        0 <= m,
        a.len() == n * width,
        b.len() == m * width,
        makes_rows(f, width, out),
    ensures
        converted(a + b, width, out, f) == converted(a, width, out, f) + converted(
            b,
            width,
            out,
            f,
        ),
{
    assert((n + m) * width == n * width + m * width) by (nonlinear_arith);
    assert((n + m) * out == n * out + m * out) by (nonlinear_arith);
    lemma_converted_rows(a, width, out, n, f);
    lemma_converted_rows(b, width, out, m, f);
    lemma_converted_rows(a + b, width, out, n + m, f);
    let ca = converted(a, width, out, f);
    let cb = converted(b, width, out, f);
    let cab = converted(a + b, width, out, f);
    assert forall|i: int| 0 <= i < n + m implies #[trigger] row(cab, out, i) == row(
        ca + cb,
        out,
        i,
    ) by {
        lemma_appended_rows(a, b, width, n, m, i);
        lemma_appended_rows(ca, cb, out, n, m, i);
        if i < n {
            assert(row(ca, out, i) == f(row(a, width, i)));
        } else {
            assert(row(cb, out, i - n) == f(row(b, width, i - n)));
        }
    }
    lemma_rows_determine(cab, ca + cb, out, n + m);
}

/// Converting after a removal is removing after the conversion.
pub proof fn lemma_converted_swap_removed<A, B>(
    flat: Seq<A>,
    width: int,
    out: int,
    n: int,
    idx: int,
    f: spec_fn(Seq<A>) -> Seq<B>,
)
    requires
        0 < width,
        0 < out,
        0 <= idx < n,
        flat.len() == n * width,
        makes_rows(f, width, out),
    ensures
        converted(swap_removed(flat, width, n, idx), width, out, f) == swap_removed(
            converted(flat, width, out, f),
            out,
            n,
            idx,
        ),
{
    let rest = swap_removed(flat, width, n, idx);
    lemma_row_count(n - 1, width);
    lemma_row_count(n - 1, out);
    lemma_converted_rows(flat, width, out, n, f);
    lemma_converted_rows(rest, width, out, n - 1, f);
    let all = converted(flat, width, out, f);
    let a = converted(rest, width, out, f);
    let b = swap_removed(all, out, n, idx);
    assert forall|i: int| 0 <= i < n - 1 implies #[trigger] row(a, out, i) == row(b, out, i) by {
        lemma_swap_removed_rows(flat, width, n, idx, i);
        lemma_swap_removed_rows(all, out, n, idx, i);
        let source = if i == idx {
            n - 1
        } else {
            i
        };
        assert(row(all, out, source) == f(row(flat, width, source)));
        assert(row(a, out, i) == f(row(rest, width, i)));
    }
    lemma_rows_determine(a, b, out, n - 1);
}

/// Remove row `idx` of `n` in place by moving the last row into it.
pub fn swap_remove_row<T: Copy>(flat: &mut Vec<T>, width: usize, n: usize, idx: usize)
    requires
        old(flat)@.len() == n * width,
        idx < n,
    ensures
        final(flat)@ == swap_removed(old(flat)@, width as int, n as int, idx as int),
{
    let ghost before = flat@;
    assert(flat.len() == flat@.len());
    proof {
        lemma_row_fits(n - 1, n as int, width as int);
        lemma_row_fits(idx as int, n as int, width as int);
    }
    let src: usize = (n - 1) * width;
    let dst: usize = idx * width;
    if idx != n - 1 {
        proof {
            lemma_rows_apart(idx as int, n - 1, width as int);
        }
        let mut j: usize = 0;
        while j < width
            invariant
                j <= width,
                dst + width <= src,
                src + width == before.len(),
                before.len() <= usize::MAX,
                flat@.len() == before.len(),
                forall|p: int|
                    0 <= p < before.len() ==> flat@[p] == if dst <= p < dst + j {
                        before[src + (p - dst)]
                    } else {
                        before[p]
                    },
            decreases width - j,
        {
            flat[dst + j] = flat[src + j];
            j = j + 1;
        }
    }
    flat.truncate(src);
    assert(flat@ =~= swap_removed(before, width as int, n as int, idx as int));
}

} // verus!
