use vstd::prelude::*;
use vstd::arithmetic::div_mod::lemma_fundamental_div_mod_converse;

use crate::board::{lemma_flat_position, BoardView};
use crate::logic::{
    lemma_successor_cell, live_at, live_neighbours, next_cell, same_life, successor, wrap,
};

verus! {

/// 1 for true, 0 for false.
pub open spec fn ind(b: bool) -> int {
    if b {
        1
    } else {
        0
    }
}

/// `v` lies in the `k` values from `lo`, counting on around the torus of
/// `n` values.
pub open spec fn in_span(v: int, lo: int, k: int, n: nat) -> bool {
    wrap(v - lo, n) < k
}

/// The live cells of `g` are exactly the rectangle of `kx` columns from `lx`
/// and `ky` rows from `ly`.
pub open spec fn is_rectangle(g: BoardView, lx: int, kx: int, ly: int, ky: int) -> bool {
    forall|x: int, y: int|
        g.in_bounds(x, y) ==> #[trigger] g.cell(x, y).live() == (in_span(x, lx, kx, g.width)
            && in_span(y, ly, ky, g.height))
}

/// How many of `v - 1`, `v`, `v + 1`, wrapped onto `0..n`, lie in the span.
pub open spec fn span_hits(v: int, n: nat, lo: int, k: int) -> int {
    ind(in_span(wrap(v - 1, n), lo, k, n)) + ind(in_span(wrap(v, n), lo, k, n)) + ind(
        in_span(wrap(v + 1, n), lo, k, n),
    )
}

/// The neighbours of a coordinate wrap only at the edges.
pub proof fn lemma_wrap_adjacent(v: int, n: nat)
    requires
        0 <= v < n,
    ensures
        wrap(v - 1, n) == (if v == 0 {
            n - 1
        } else {
            v - 1
        }),
        wrap(v, n) == v,
        wrap(v + 1, n) == (if v == n - 1 {
            0
        } else {
            v + 1
        }),
{
    let m = n as int;
    if v == 0 {
        lemma_fundamental_div_mod_converse(v - 1, m, -1, m - 1);
    } else {
        lemma_fundamental_div_mod_converse(v - 1, m, 0, v - 1);
    }
    lemma_fundamental_div_mod_converse(v, m, 0, v);
    if v == n - 1 {
        lemma_fundamental_div_mod_converse(v + 1, m, 1, 0);
    } else {
        lemma_fundamental_div_mod_converse(v + 1, m, 0, v + 1);
    }
}

/// The offset of `v` from `lo` around the torus.
pub proof fn lemma_wrap_offset(v: int, lo: int, n: nat)
    requires
        0 <= v < n,
        0 <= lo < n,
    ensures
        wrap(v - lo, n) == (if v >= lo {
            v - lo
        } else {
            v - lo + n
        }),
{
    if v >= lo {
        lemma_fundamental_div_mod_converse(v - lo, n as int, 0, v - lo);
    } else {
        lemma_fundamental_div_mod_converse(v - lo, n as int, -1, v - lo + n);
    }
}

/// The three neighbours of `v` measured from `lo` around the torus.
pub proof fn lemma_neighbour_offsets(v: int, lo: int, n: nat)
    requires
        0 <= v < n,
        0 <= lo < n,
    ensures
        wrap(v - 1, n) == (if v == 0 {
            n - 1
        } else {
            v - 1
        }),
        wrap(v, n) == v,
        wrap(v + 1, n) == (if v == n - 1 {
            0
        } else {
            v + 1
        }),
        wrap(wrap(v - 1, n) - lo, n) == (if wrap(v - 1, n) >= lo {
            wrap(v - 1, n) - lo
        } else {
            wrap(v - 1, n) - lo + n
        }),
        wrap(v - lo, n) == (if v >= lo {
            v - lo
        } else {
            v - lo + n
        }),
        wrap(wrap(v + 1, n) - lo, n) == (if wrap(v + 1, n) >= lo {
            wrap(v + 1, n) - lo
        } else {
            wrap(v + 1, n) - lo + n
        }),
{
    lemma_wrap_adjacent(v, n);
    lemma_wrap_offset(wrap(v - 1, n), lo, n);
    lemma_wrap_offset(v, lo, n);
    lemma_wrap_offset(wrap(v + 1, n), lo, n);
}

/// On a rectangle, the neighbour count splits into a count along each axis.
pub proof fn lemma_rectangle_count(g: BoardView, lx: int, kx: int, ly: int, ky: int, x: int, y: int)
    requires
        g.wf(),
        is_rectangle(g, lx, kx, ly, ky),
        g.in_bounds(x, y),
    ensures
        live_neighbours(g, x, y) == span_hits(x, g.width, lx, kx) * span_hits(y, g.height, ly, ky)
            - ind(in_span(x, lx, kx, g.width) && in_span(y, ly, ky, g.height)),
{
    lemma_wrap_adjacent(x, g.width);
    lemma_wrap_adjacent(y, g.height);
    let a0 = ind(in_span(wrap(x - 1, g.width), lx, kx, g.width));
    let a1 = ind(in_span(wrap(x, g.width), lx, kx, g.width));
    let a2 = ind(in_span(wrap(x + 1, g.width), lx, kx, g.width));
    let b0 = ind(in_span(wrap(y - 1, g.height), ly, ky, g.height));
    let b1 = ind(in_span(wrap(y, g.height), ly, ky, g.height));
    let b2 = ind(in_span(wrap(y + 1, g.height), ly, ky, g.height));
    assert(live_at(g, x - 1, y - 1) == a0 * b0);
    assert(live_at(g, x - 1, y) == a0 * b1);
    assert(live_at(g, x - 1, y + 1) == a0 * b2);
    assert(live_at(g, x, y - 1) == a1 * b0);
    assert(live_at(g, x, y + 1) == a1 * b2);
    assert(live_at(g, x + 1, y - 1) == a2 * b0);
    assert(live_at(g, x + 1, y) == a2 * b1);
    assert(live_at(g, x + 1, y + 1) == a2 * b2);
    assert(ind(in_span(x, lx, kx, g.width) && in_span(y, ly, ky, g.height)) == a1 * b1);
    assert(a0 * b0 + a0 * b1 + a0 * b2 + a1 * b0 + a1 * b2 + a2 * b0 + a2 * b1 + a2 * b2 == (a0 + a1
        + a2) * (b0 + b1 + b2) - a1 * b1) by (nonlinear_arith);
}

/// A 2 by 2 block of live cells, alone on a board of at least 4 by 4 and
/// placed anywhere (it may run across an edge and on around the torus), is a
/// still life: an advance keeps every cell live or dead as it was, so it
/// reports no change.
pub proof fn lemma_block_still_life(g: BoardView, a: int, b: int)
    requires
        g.wf(),
        g.width >= 4,
        g.height >= 4,
        0 <= a < g.width,
        0 <= b < g.height,
        is_rectangle(g, a, 2, b, 2),
    ensures
        same_life(g, successor(g)),
{
    let w = g.width as int;
    assert forall|i: int| 0 <= i < g.cells.len() implies #[trigger] g.cells[i].live()
        == successor(g).cells[i].live() by {
        lemma_flat_position(i, w, g.height as int);
        let x = i % w;
        let y = i / w;
        lemma_rectangle_count(g, a, 2, b, 2, x, y);
        lemma_neighbour_offsets(x, a, g.width);
        lemma_neighbour_offsets(y, b, g.height);
        let hx = span_hits(x, g.width, a, 2);
        let hy = span_hits(y, g.height, b, 2);
        assert(g.cell(x, y).live() == (in_span(x, a, 2, g.width) && in_span(y, b, 2, g.height)));
        if in_span(x, a, 2, g.width) && in_span(y, b, 2, g.height) {
            assert(hx == 2 && hy == 2);
        } else if in_span(x, a, 2, g.width) {
            assert(hx == 2 && hy <= 1);
            assert(hx * hy <= 2) by (nonlinear_arith)
                requires
                    hx == 2,
                    0 <= hy <= 1,
            ;
        } else {
            assert(hx <= 1 && 0 <= hy <= 2);
            assert(hx * hy <= 2) by (nonlinear_arith)
                requires
                    0 <= hx <= 1,
                    0 <= hy <= 2,
            ;
        }
    }
}

/// A horizontal line of three live cells, alone on a board of at least 4 by
/// 4 and clear of the top and bottom rows, becomes the vertical line through
/// its middle.
pub proof fn lemma_horizontal_line_step(g: BoardView, a: int, b: int)
    requires
        g.wf(),
        g.width >= 4,
        g.height >= 4,
        0 <= a,
        a + 3 <= g.width,
        1 <= b,
        b + 2 <= g.height,
        is_rectangle(g, a, 3, b, 1),
    ensures
        successor(g).wf(),
        successor(g).width == g.width,
        successor(g).height == g.height,
        is_rectangle(successor(g), a + 1, 1, b - 1, 3),
{
    let n = successor(g);
    assert forall|x: int, y: int| n.in_bounds(x, y) implies #[trigger] n.cell(x, y).live() == (
    in_span(x, a + 1, 1, g.width) && in_span(y, b - 1, 3, g.height)) by {
        lemma_successor_cell(g, x, y);
        lemma_rectangle_count(g, a, 3, b, 1, x, y);
        lemma_neighbour_offsets(x, a, g.width);
        lemma_neighbour_offsets(y, b, g.height);
        lemma_wrap_offset(x, a + 1, g.width);
        lemma_wrap_offset(y, b - 1, g.height);
        let hx = span_hits(x, g.width, a, 3);
        let hy = span_hits(y, g.height, b, 1);
        assert(g.cell(x, y).live() == (in_span(x, a, 3, g.width) && in_span(y, b, 1, g.height)));
        assert(0 <= hx <= 3);
        assert(hy == (if b - 1 <= y <= b + 1 { 1int } else { 0 }));
        assert(hx == 3 <==> x == a + 1);
        if hy == 1 {
            assert(hx * hy == hx);
        } else {
            assert(hx * hy == 0);
        }
    }
}

/// A vertical line of three live cells, alone on a board of at least 4 by 4
/// and clear of the left and right columns, becomes the horizontal line
/// through its middle.
pub proof fn lemma_vertical_line_step(g: BoardView, a: int, b: int)
    requires
        g.wf(),
        g.width >= 4,
        g.height >= 4,
        1 <= a,
        a + 2 <= g.width,
        0 <= b,
        b + 3 <= g.height,
        is_rectangle(g, a, 1, b, 3),
    ensures
        successor(g).wf(),
        successor(g).width == g.width,
        successor(g).height == g.height,
        is_rectangle(successor(g), a - 1, 3, b + 1, 1),
{
    let n = successor(g);
    assert forall|x: int, y: int| n.in_bounds(x, y) implies #[trigger] n.cell(x, y).live() == (
    in_span(x, a - 1, 3, g.width) && in_span(y, b + 1, 1, g.height)) by {
        lemma_successor_cell(g, x, y);
        lemma_rectangle_count(g, a, 1, b, 3, x, y);
        lemma_neighbour_offsets(x, a, g.width);
        lemma_neighbour_offsets(y, b, g.height);
        lemma_wrap_offset(x, a - 1, g.width);
        lemma_wrap_offset(y, b + 1, g.height);
        let hx = span_hits(x, g.width, a, 1);
        let hy = span_hits(y, g.height, b, 3);
        assert(g.cell(x, y).live() == (in_span(x, a, 1, g.width) && in_span(y, b, 3, g.height)));
        assert(0 <= hy <= 3);
        assert(hx == (if a - 1 <= x <= a + 1 { 1int } else { 0 }));
        assert(hy == 3 <==> y == b + 1);
        if hx == 1 {
            assert(hx * hy == hy);
        } else {
            assert(hx * hy == 0);
        }
    }
}

/// A blinker oscillates with period two: the horizontal line of three turns
/// vertical after one advance and back to the same live cells after two.
pub proof fn lemma_blinker(g: BoardView, a: int, b: int)
    requires
        g.wf(),
        g.width >= 4,
        g.height >= 4,
        0 <= a,
        a + 3 <= g.width,
        1 <= b,
        b + 2 <= g.height,
        is_rectangle(g, a, 3, b, 1),
    ensures
        is_rectangle(successor(g), a + 1, 1, b - 1, 3),
        is_rectangle(successor(successor(g)), a, 3, b, 1),
{
    lemma_horizontal_line_step(g, a, b);
    lemma_vertical_line_step(successor(g), a + 1, b - 1);
}

} // verus!
