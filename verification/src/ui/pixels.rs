//! Painting into a row-major pixel buffer, `buf_width` pixels per row. Only
//! whole rows count: the pixels after the last complete row are never drawn.
use vstd::prelude::*;
use vstd::arithmetic::div_mod::{lemma_fundamental_div_mod, lemma_fundamental_div_mod_converse};
use vstd::arithmetic::mul::lemma_mul_inequality;

verus! {

/// The buffer after every pixel whose (row, column) satisfies `covered` was
/// set to `color`.
pub open spec fn painted(buf: Seq<u32>, bw: int, covered: spec_fn(int, int) -> bool, color: u32) -> Seq<u32> {
    Seq::new(
        buf.len(),
        |i: int|
            if bw > 0 && i / bw < (buf.len() as int) / bw && covered(i / bw, i % bw) {
                color
            } else {
                buf[i]
            },
    )
}

/// `min(a + b, usize::MAX)`: saturating addition.
pub open spec fn sat_add(a: int, b: int) -> int {
    if a + b > usize::MAX {
        usize::MAX as int
    } else {
        a + b
    }
}

/// `max(a - b, 0)`: saturating subtraction.
pub open spec fn sat_sub(a: int, b: int) -> int {
    if a > b {
        a - b
    } else {
        0
    }
}

/// The smaller of two integers.
pub open spec fn min(a: int, b: int) -> int {
    if a < b {
        a
    } else {
        b
    }
}

/// The larger of two integers.
pub open spec fn max(a: int, b: int) -> int {
    if a > b {
        a
    } else {
        b
    }
}

/// Pixel `(row, col)` of a buffer with `bw` columns and at least `row + 1`
/// whole rows is stored at `row * bw + col`, and that index maps back to it.
pub proof fn lemma_pixel_index(row: int, col: int, bw: int, len: int)
    requires
        bw > 0,
        0 <= row < len / bw,
        0 <= col < bw,
        len >= 0,
    ensures
        row * bw + col < len,
        (row * bw + col) / bw == row,
        (row * bw + col) % bw == col,
{
    lemma_fundamental_div_mod(len, bw);
    lemma_mul_inequality(row + 1, len / bw, bw);
    assert((row + 1) * bw == row * bw + bw) by (nonlinear_arith);
    assert(bw * (len / bw) == (len / bw) * bw) by (nonlinear_arith);
    lemma_fundamental_div_mod_converse(row * bw + col, bw, row, col);
}

/// An index is determined by its row and column.
pub proof fn lemma_index_of_pixel(i: int, bw: int)
    requires
        bw > 0,
        i >= 0,
    ensures
        i == (i / bw) * bw + i % bw,
        0 <= i % bw < bw,
{
    lemma_fundamental_div_mod(i, bw);
    assert(bw * (i / bw) == (i / bw) * bw) by (nonlinear_arith);
}

/// After painting, a pixel of a whole row has `color` when covered and its
/// old value otherwise.
pub proof fn lemma_painted_pixel(
    buf: Seq<u32>,
    bw: int,
    covered: spec_fn(int, int) -> bool,
    color: u32,
    r: int,
    c: int,
)
    requires
        bw > 0,
        0 <= r < (buf.len() as int) / bw,
        0 <= c < bw,
    ensures
        r * bw + c < buf.len(),
        painted(buf, bw, covered, color).len() == buf.len(),
        painted(buf, bw, covered, color)[r * bw + c] == (if covered(r, c) {
            color
        } else {
            buf[r * bw + c]
        }),
{
    lemma_pixel_index(r, c, bw, buf.len() as int);
}

/// Painting twice with the same color paints the union.
pub proof fn lemma_painted_union(
    buf: Seq<u32>,
    bw: int,
    p: spec_fn(int, int) -> bool,
    q: spec_fn(int, int) -> bool,
    color: u32,
)
    ensures
        painted(painted(buf, bw, p, color), bw, q, color) == painted(
            buf,
            bw,
            |r: int, c: int| p(r, c) || q(r, c),
            color,
        ),
{
    assert(painted(painted(buf, bw, p, color), bw, q, color) =~= painted(
        buf,
        bw,
        |r: int, c: int| p(r, c) || q(r, c),
        color,
    ));
}

/// Painting only depends on which pixels of the buffer's whole rows are covered.
pub proof fn lemma_painted_same_cover(
    buf: Seq<u32>,
    bw: int,
    p: spec_fn(int, int) -> bool,
    q: spec_fn(int, int) -> bool,
    color: u32,
)
    requires
        bw > 0,
        forall|r: int, c: int| 0 <= r < (buf.len() as int) / bw && 0 <= c < bw ==> #[trigger] p(r, c) == q(r, c),
    ensures
        painted(buf, bw, p, color) == painted(buf, bw, q, color),
{
    assert forall|i: int| 0 <= i < buf.len() implies painted(buf, bw, p, color)[i] == painted(
        buf,
        bw,
        q,
        color,
    )[i] by {
        lemma_index_of_pixel(i, bw);
        if i / bw < (buf.len() as int) / bw {
            assert(i / bw >= 0) by (nonlinear_arith)
                requires
                    i >= 0,
                    bw > 0,
            ;
            assert(p(i / bw, i % bw) == q(i / bw, i % bw));
        }
    }
    assert(painted(buf, bw, p, color) =~= painted(buf, bw, q, color));
}

/// Sets one pixel.
pub fn paint_pixel(buffer: &mut [u32], bw: usize, row: usize, col: usize, color: u32)
    requires
        bw > 0,
        row < (old(buffer)@.len() as int) / (bw as int),
        col < bw,
    ensures
        final(buffer)@ == painted(old(buffer)@, bw as int, |r: int, c: int| r == row && c == col, color),
{
    proof {
        lemma_pixel_index(row as int, col as int, bw as int, old(buffer)@.len() as int);
    }
    let len = buffer.len();
    assert(len == old(buffer)@.len());
    assert(row * bw + col < len);
    let idx = row * bw + col;
    buffer[idx] = color;
    proof {
        let p = |r: int, c: int| r == row && c == col;
        assert forall|i: int| 0 <= i < buffer@.len() implies buffer@[i] == painted(
            old(buffer)@,
            bw as int,
            p,
            color,
        )[i] by {
            lemma_index_of_pixel(i, bw as int);
            if i != idx {
                if i / (bw as int) == row && i % (bw as int) == col {
                    assert(i == idx);
                }
            }
        }
        assert(buffer@ =~= painted(old(buffer)@, bw as int, p, color));
    }
}

/// Sets the pixels of columns `c0..c1` of one row.
pub fn paint_span(buffer: &mut [u32], bw: usize, row: usize, c0: usize, c1: usize, color: u32)
    requires
        bw > 0,
        row < (old(buffer)@.len() as int) / (bw as int),
        c0 <= c1 <= bw,
    ensures
        final(buffer)@ == painted(
            old(buffer)@,
            bw as int,
            |r: int, c: int| r == row && c0 <= c < c1,
            color,
        ),
{
    let mut col = c0;
    assert(painted(old(buffer)@, bw as int, |r: int, c: int| r == row && c0 <= c < c0, color) =~= old(buffer)@);
    while col < c1
        invariant
            bw > 0,
            row < (old(buffer)@.len() as int) / (bw as int),
            c0 <= col <= c1 <= bw,
            buffer@.len() == old(buffer)@.len(),
            buffer@ == painted(
                old(buffer)@,
                bw as int,
                |r: int, c: int| r == row && c0 <= c < col,
                color,
            ),
        decreases c1 - col,
    {
        let ghost before = buffer@;
        paint_pixel(buffer, bw, row, col, color);
        proof {
            lemma_painted_union(
                old(buffer)@,
                bw as int,
                |r: int, c: int| r == row && c0 <= c < col,
                |r: int, c: int| r == row && c == col,
                color,
            );
            assert(before.len() == old(buffer)@.len());
            lemma_painted_same_cover(
                old(buffer)@,
                bw as int,
                |r: int, c: int| (r == row && c0 <= c < col) || (r == row && c == col),
                |r: int, c: int| r == row && c0 <= c < col + 1,
                color,
            );
        }
        col += 1;
    }
}

} // verus!
