use vstd::prelude::*;

use crate::board::{
    lemma_flat_position, lemma_index_in_range, lemma_position_of_index, Board, BoardView, Cell,
    MAX_CELLS,
};

verus! {

/// `v` wrapped onto `0..n`: the Euclidean remainder.
pub open spec fn wrap(v: int, n: nat) -> int {
    v % (n as int)
}

/// 1 when the cell at `(x, y)`, coordinates wrapped around the edges, is live.
pub open spec fn live_at(g: BoardView, x: int, y: int) -> int {
    if g.cell(wrap(x, g.width), wrap(y, g.height)).live() {
        1
    } else {
        0
    }
}

/// The number of live cells among the eight offsets around `(x, y)` on the torus.
pub open spec fn live_neighbours(g: BoardView, x: int, y: int) -> int {
    live_at(g, x - 1, y - 1) + live_at(g, x - 1, y) + live_at(g, x - 1, y + 1) + live_at(g, x, y - 1)
        + live_at(g, x, y + 1) + live_at(g, x + 1, y - 1) + live_at(g, x + 1, y) + live_at(
        g,
        x + 1,
        y + 1,
    )
}

/// The rule: a live cell with two or three live neighbours stays `Alive`, any
/// other live cell dies (`Died`); a dead cell with three live neighbours is
/// `Born`, any other stays `Dead`. The `Born` and `Died` marks last one
/// generation.
pub open spec fn next_cell(c: Cell, n: int) -> Cell {
    if c.live() {
        if n == 2 || n == 3 {
            Cell::Alive
        } else {
            Cell::Died
        }
    } else if n == 3 {
        Cell::Born
    } else {
        Cell::Dead
    }
}

/// `a` and `b` have the same size and the same live positions.
pub open spec fn same_life(a: BoardView, b: BoardView) -> bool {
    &&& a.width == b.width
    &&& a.height == b.height
    &&& a.cells.len() == b.cells.len()
    &&& forall|i: int| 0 <= i < a.cells.len() ==> #[trigger] a.cells[i].live() == b.cells[i].live()
}

/// The next generation of `g`.
pub open spec fn successor(g: BoardView) -> BoardView {
    BoardView {
        width: g.width,
        height: g.height,
        cells: Seq::new(
            g.cells.len(),
            |i: int|
                next_cell(
                    g.cell(i % (g.width as int), i / (g.width as int)),
                    live_neighbours(g, i % (g.width as int), i / (g.width as int)),
                ),
        ),
    }
}

/// `g` rebuilt at `width` by `height`: each position inside both sizes whose
/// cell was live is `Born`, every other cell is dead.
pub open spec fn resized(g: BoardView, width: nat, height: nat) -> BoardView {
    BoardView {
        width,
        height,
        cells: Seq::new(
            width * height,
            |i: int|
                {
                    let x = i % (width as int);
                    let y = i / (width as int);
                    if g.in_bounds(x, y) && g.cell(x, y).live() {
                        Cell::Born
                    } else {
                        Cell::Dead
                    }
                },
        ),
    }
}

/// Each side of a board is at most its number of cells.
pub proof fn lemma_sides_fit(g: BoardView)
    requires
        g.wf(),
    ensures
        g.width <= MAX_CELLS,
        g.height <= MAX_CELLS,
{
    assert(g.width <= g.width * g.height) by (nonlinear_arith)
        requires
            g.height >= 1,
    ;
    assert(g.height <= g.width * g.height) by (nonlinear_arith)
        requires
            g.width >= 1,
    ;
}

/// What the offset `(x, y)` contributes to the neighbour count of `(cx, cy)`:
/// nothing for the cell itself.
pub open spec fn neighbour_term(g: BoardView, cx: int, cy: int, x: int, y: int) -> int {
    if x == cx && y == cy {
        0
    } else {
        live_at(g, x, y)
    }
}

/// The contributions of the column `x`, rows `cy - 1` to `cy - 1 + k - 1`.
spec fn column_part(g: BoardView, cx: int, cy: int, x: int, k: int) -> int {
    (if k > 0 { neighbour_term(g, cx, cy, x, cy - 1) } else { 0 }) + (if k > 1 {
        neighbour_term(g, cx, cy, x, cy)
    } else {
        0
    }) + (if k > 2 { neighbour_term(g, cx, cy, x, cy + 1) } else { 0 })
}

/// The contributions of the columns `cx - 1` to `cx - 1 + k - 1`.
spec fn columns_part(g: BoardView, cx: int, cy: int, k: int) -> int {
    (if k > 0 { column_part(g, cx, cy, cx - 1, 3) } else { 0 }) + (if k > 1 {
        column_part(g, cx, cy, cx, 3)
    } else {
        0
    }) + (if k > 2 { column_part(g, cx, cy, cx + 1, 3) } else { 0 })
}

/// The neighbour position `(x, y)` of `index`, wrapped onto the board, or
/// `None` where it is `index` itself.
fn valid_neighbour_index(
    board: &Board,
    index: (usize, usize),
    x: isize,
    y: isize,
) -> (r: Option<(usize, usize)>)
    requires
        board.wf(),
        index.0 <= MAX_CELLS,
        index.1 <= MAX_CELLS,
    ensures
        r == (if x == index.0 && y == index.1 {
            None
        } else {
            Some((wrap(x as int, board@.width) as usize, wrap(y as int, board@.height) as usize))
        }),
        r matches Some(p) ==> board@.in_bounds(p.0 as int, p.1 as int) && p.0 as int == wrap(
            x as int,
            board@.width,
        ) && p.1 as int == wrap(y as int, board@.height),
{
    proof {
        lemma_sides_fit(board@);
    }
    if x == index.0 as isize && y == index.1 as isize {
        return None;
    }
    let wx = x.checked_rem_euclid(board.width() as isize).unwrap();
    let wy = y.checked_rem_euclid(board.height() as isize).unwrap();
    Some((wx as usize, wy as usize))
}

/// The number of live cells among the eight neighbours of `index`.
pub fn count_live_neighbours(board: &Board, index: (usize, usize)) -> (r: u8)
    requires
        board.wf(),
        board@.in_bounds(index.0 as int, index.1 as int),
    ensures
        r == live_neighbours(board@, index.0 as int, index.1 as int),
{
    let ghost g = board@;
    let ghost cx = index.0 as int;
    let ghost cy = index.1 as int;
    proof {
        lemma_sides_fit(board@);
    }
    let ux = index.0 as isize;
    let uy = index.1 as isize;
    let mut live: u8 = 0;
    let mut dx: isize = 0;
    while dx < 3
        invariant
            board.wf(),
            board@ == g,
            ux == cx,
            uy == cy,
            cx == index.0,
            cy == index.1,
            g.in_bounds(cx, cy),
            board@.in_bounds(index.0 as int, index.1 as int),
            g.width <= MAX_CELLS,
            g.height <= MAX_CELLS,
            0 <= dx <= 3,
            live == columns_part(g, cx, cy, dx as int),
            0 <= live <= 3 * dx,
        decreases 3 - dx,
    {
        let x = ux - 1 + dx;
        let mut dy: isize = 0;
        while dy < 3
            invariant
                board.wf(),
                board@ == g,
                ux == cx,
                uy == cy,
                cx == index.0,
                cy == index.1,
                g.in_bounds(cx, cy),
                board@.in_bounds(index.0 as int, index.1 as int),
                g.width <= MAX_CELLS,
                g.height <= MAX_CELLS,
                0 <= dx < 3,
                x == cx - 1 + dx,
                0 <= dy <= 3,
                live == columns_part(g, cx, cy, dx as int) + column_part(g, cx, cy, x as int, dy as int),
                0 <= live <= 3 * dx + dy,
            decreases 3 - dy,
        {
            let y = uy - 1 + dy;
            let ghost before = live;
            if let Some(p) = valid_neighbour_index(board, index, x, y) {
                if board.get(p).is_alive() {
                    live = live + 1;
                }
            }
            assert(live == before + neighbour_term(g, cx, cy, x as int, y as int));
            dy = dy + 1;
        }
        dx = dx + 1;
    }
    live
}

/// Advances `board` by one generation and tells whether any cell changed
/// between live and dead.
/// Every cell's next state is computed from the generation before.
pub fn next_state(board: &mut Board) -> (changed: bool)
    requires
        old(board).wf(),
    ensures
        final(board).wf(),
        final(board)@ == successor(old(board)@),
        changed == !same_life(old(board)@, final(board)@),
{
    let ghost g = board@;
    let width = board.width();
    let height = board.height();
    let n: usize = width * height;
    let mut next = Board::new(width, height);
    let mut changed = false;
    let mut i: usize = 0;
    while i < n
        invariant
            board@ == g,
            g.wf(),
            next.wf(),
            width == g.width,
            height == g.height,
            n == g.cells.len(),
            next@.width == g.width,
            next@.height == g.height,
            0 <= i <= n,
            forall|j: int| 0 <= j < i ==> next@.cells[j] == successor(g).cells[j],
            changed == (exists|j: int|
                0 <= j < i && #[trigger] successor(g).cells[j].live() != g.cells[j].live()),
        decreases n - i,
    {
        let x = i % width;
        let y = i / width;
        proof {
            lemma_flat_position(i as int, width as int, height as int);
        }
        let cell = board.get((x, y));
        let live = count_live_neighbours(board, (x, y));
        let new_cell = if cell.is_alive() {
            if live == 2 || live == 3 {
                Cell::Alive
            } else {
                Cell::Died
            }
        } else if live == 3 {
            Cell::Born
        } else {
            Cell::Dead
        };
        assert(cell == g.cells[i as int]);
        assert(new_cell == successor(g).cells[i as int]);
        if new_cell.is_alive() != cell.is_alive() {
            changed = true;
        }
        next.set((x, y), new_cell);
        i = i + 1;
    }
    assert(next@.cells =~= successor(g).cells);
    *board = next;
    changed
}

/// Rebuilds `board` at `width` by `height`, keeping each live cell whose
/// position lies inside the new size.
pub fn resize(board: &mut Board, width: usize, height: usize)
    requires
        old(board).wf(),
        width >= 1,
        height >= 1,
        width * height <= MAX_CELLS,
    ensures
        final(board).wf(),
        final(board)@ == resized(old(board)@, width as nat, height as nat),
{
    let ghost g = board@;
    let n: usize = width * height;
    let mut new_board = Board::new(width, height);
    let mut i: usize = 0;
    while i < n
        invariant
            board@ == g,
            g.wf(),
            new_board.wf(),
            n == width * height,
            new_board@.width == width,
            new_board@.height == height,
            0 <= i <= n,
            forall|j: int|
                0 <= j < i ==> new_board@.cells[j] == resized(g, width as nat, height as nat).cells[j],
            forall|j: int| i <= j < n ==> new_board@.cells[j] == Cell::Dead,
        decreases n - i,
    {
        let x = i % width;
        let y = i / width;
        proof {
            lemma_flat_position(i as int, width as int, height as int);
        }
        if board.check_index((x, y)) && board.get((x, y)).is_alive() {
            new_board.toggle((x, y));
        }
        i = i + 1;
    }
    assert(new_board@.cells =~= resized(g, width as nat, height as nat).cells);
    *board = new_board;
}

/// The cell at `(x, y)` of the next generation follows the rule from the
/// cell and its neighbour count in the generation before.
pub proof fn lemma_successor_cell(g: BoardView, x: int, y: int)
    requires
        g.wf(),
        g.in_bounds(x, y),
    ensures
        successor(g).wf(),
        successor(g).cell(x, y) == next_cell(g.cell(x, y), live_neighbours(g, x, y)),
{
    lemma_index_in_range(x, y, g.width as int, g.height as int);
    lemma_position_of_index(x, y, g.width as int);
}

/// A resized board is a valid board of the requested size, and so is the
/// generation after it: resizing to any size of at least one cell either
/// way can be followed by an advance.
pub proof fn lemma_resize_then_advance(g: BoardView, width: nat, height: nat)
    requires
        g.wf(),
        width >= 1,
        height >= 1,
        width * height <= MAX_CELLS,
    ensures
        resized(g, width, height).wf(),
        resized(g, width, height).width == width,
        resized(g, width, height).height == height,
        successor(resized(g, width, height)).wf(),
        successor(resized(g, width, height)).width == width,
        successor(resized(g, width, height)).height == height,
{
}

/// Resizing keeps exactly the live cells whose position lies inside both
/// the old and the new size: a position of the new board is live if and only
/// if it was a live position of the old one.
pub proof fn lemma_resize_keeps_live(g: BoardView, width: nat, height: nat, x: int, y: int)
    requires
        g.wf(),
        width >= 1,
        height >= 1,
        width * height <= MAX_CELLS,
        0 <= x < width,
        0 <= y < height,
    ensures
        resized(g, width, height).cell(x, y).live() == (g.in_bounds(x, y) && g.cell(x, y).live()),
{
    lemma_index_in_range(x, y, width as int, height as int);
    lemma_position_of_index(x, y, width as int);
}

/// `g` after `n` generations.
pub open spec fn generations(g: BoardView, n: nat) -> BoardView
    decreases n,
{
    if n == 0 {
        g
    } else {
        successor(generations(g, (n - 1) as nat))
    }
}

/// The next generation depends only on which cells are live.
pub proof fn lemma_successor_by_liveness(a: BoardView, b: BoardView)
    requires
        a.wf(),
        same_life(a, b),
    ensures
        successor(a) == successor(b),
{
    let w = a.width as int;
    let h = a.height as int;
    assert forall|x: int, y: int| a.in_bounds(x, y) implies #[trigger] a.cell(x, y).live()
        == b.cell(x, y).live() by {
        lemma_index_in_range(x, y, w, h);
        assert(a.cells[y * w + x].live() == b.cells[y * w + x].live());
    }
    assert forall|i: int| 0 <= i < a.cells.len() implies #[trigger] successor(a).cells[i]
        == successor(b).cells[i] by {
        lemma_flat_position(i, w, h);
        let x = i % w;
        let y = i / w;
        assert(a.cell(x, y).live() == b.cell(x, y).live());
        assert forall|dx: int, dy: int| -1 <= dx <= 1 && -1 <= dy <= 1 implies #[trigger] live_at(
            a,
            x + dx,
            y + dy,
        ) == live_at(b, x + dx, y + dy) by {
            let px = wrap(x + dx, a.width);
            let py = wrap(y + dy, a.height);
            assert(a.in_bounds(px, py));
            assert(a.cell(px, py).live() == b.cell(px, py).live());
        }
        assert(live_at(a, x - 1, y - 1) == live_at(b, x + -1, y + -1));
        assert(live_at(a, x - 1, y) == live_at(b, x + -1, y + 0));
        assert(live_at(a, x - 1, y + 1) == live_at(b, x + -1, y + 1));
        assert(live_at(a, x, y - 1) == live_at(b, x + 0, y + -1));
        assert(live_at(a, x, y + 1) == live_at(b, x + 0, y + 1));
        assert(live_at(a, x + 1, y - 1) == live_at(b, x + 1, y + -1));
        assert(live_at(a, x + 1, y) == live_at(b, x + 1, y + 0));
        assert(live_at(a, x + 1, y + 1) == live_at(b, x + 1, y + 1));
    }
    assert(successor(a).cells =~= successor(b).cells);
}

/// Once an advance changes no cell between live and dead (it reports no
/// change), every further advance reports no change and leaves the board
/// identical: all boards after the first advance are the same.
pub proof fn lemma_still_life_stays(g: BoardView, n: nat)
    requires
        g.wf(),
        same_life(g, successor(g)),
    ensures
        n >= 1 ==> generations(g, n) == successor(g),
        n >= 1 ==> successor(generations(g, n)) == generations(g, n),
        n >= 1 ==> same_life(generations(g, n), successor(generations(g, n))),
    decreases n,
{
    let s = successor(g);
    assert(same_life(s, g));
    lemma_successor_by_liveness(s, g);
    assert(successor(s) == s);
    if n == 1 {
        assert(generations(g, 0) == g);
        assert(generations(g, 1) == successor(generations(g, 0)));
    } else if n > 1 {
        lemma_still_life_stays(g, (n - 1) as nat);
        assert(generations(g, n) == successor(generations(g, (n - 1) as nat)));
    }
}

} // verus!
