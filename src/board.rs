use vstd::prelude::*;
use vstd::string::StringExecFns;
use vstd::arithmetic::div_mod::{
    lemma_fundamental_div_mod, lemma_fundamental_div_mod_converse, lemma_mod_pos_bound,
};

verus! {

/// The state of one cell. `Born` and `Died` are the live and dead states of a
/// cell whose liveness changed most recently, kept for display emphasis.
#[derive(Copy, Clone, Debug, PartialEq, Eq, Structural)]
pub enum Cell {
    Died,
    Dead,
    Born,
    Alive,
}

impl Cell {
    /// Whether the cell counts as live.
    pub open spec fn live(self) -> bool {
        self is Born || self is Alive
    }

    pub fn is_alive(&self) -> (r: bool)
        ensures
            r == self.live(),
    {
        match self {
            Cell::Died => false,
            Cell::Dead => false,
            Cell::Born => true,
            Cell::Alive => true,
        }
    }

    /// Toggles liveness: a live cell becomes `Died`, a dead one `Born`.
    pub fn flip(&mut self)
        ensures
            *final(self) == (if old(self).live() { Cell::Died } else { Cell::Born }),
    {
        if self.is_alive() {
            *self = Cell::Died
        } else {
            *self = Cell::Born
        }
    }

    /// The letter shown for the cell: `X` dead, `O` alive, `x` just died,
    /// `o` just born.
    pub open spec fn symbol(self) -> char {
        match self {
            Cell::Dead => 'X',
            Cell::Alive => 'O',
            Cell::Died => 'x',
            Cell::Born => 'o',
        }
    }

    pub fn as_str(&self) -> (r: &'static str)
        ensures
            r@ == seq![self.symbol()],
    {
        match self {
            Cell::Dead => {
                proof {
                    reveal_strlit("X");
                }
                "X"
            },
            Cell::Alive => {
                proof {
                    reveal_strlit("O");
                }
                "O"
            },
            Cell::Died => {
                proof {
                    reveal_strlit("x");
                }
                "x"
            },
            Cell::Born => {
                proof {
                    reveal_strlit("o");
                }
                "o"
            },
        }
    }

    /// The cell's letter as a string.
    pub fn to_string(&self) -> (r: String)
        ensures
            r@ == seq![self.symbol()],
    {
        self.as_str().to_owned()
    }
}

impl From<Cell> for char {
    fn from(cell: Cell) -> (r: char)
        ensures
            r == cell.symbol(),
    {
        match cell {
            Cell::Died => 'x',
            Cell::Dead => 'X',
            Cell::Born => 'o',
            Cell::Alive => 'O',
        }
    }
}

impl vstd::std_specs::convert::FromSpecImpl<Cell> for char {
    open spec fn obeys_from_spec() -> bool {
        true
    }

    open spec fn from_spec(cell: Cell) -> char {
        cell.symbol()
    }
}

/// The mathematical value of a board: its dimensions and its cells in
/// row-major order, the cell at `(x, y)` standing at `y * width + x`.
pub struct BoardView {
    pub width: nat,
    pub height: nat,
    pub cells: Seq<Cell>,
}

/// The largest number of cells a board may hold: a `Vec` cannot be longer.
pub const MAX_CELLS: usize = isize::MAX as usize;

impl BoardView {
    /// Dimensions at least one, a cell for each position, and few enough
    /// cells to fit in memory.
    pub open spec fn wf(self) -> bool {
        &&& self.width >= 1
        &&& self.height >= 1
        &&& self.width * self.height <= MAX_CELLS
        &&& self.cells.len() == self.width * self.height
    }

    pub open spec fn in_bounds(self, x: int, y: int) -> bool {
        0 <= x < self.width && 0 <= y < self.height
    }

    pub open spec fn cell(self, x: int, y: int) -> Cell {
        self.cells[y * self.width + x]
    }

    /// A board of the given size with every cell dead.
    pub open spec fn empty(width: nat, height: nat) -> BoardView {
        BoardView { width, height, cells: Seq::new(width * height, |i: int| Cell::Dead) }
    }
}

/// The letters of row `y`, columns `0` to `k - 1`.
pub open spec fn row_text(g: BoardView, y: int, k: int) -> Seq<char>
    decreases k,
{
    if k <= 0 {
        Seq::empty()
    } else {
        row_text(g, y, k - 1).push(g.cell(k - 1, y).symbol())
    }
}

/// Rows `0` to `k - 1`, each followed by a line break.
pub open spec fn rows_text(g: BoardView, k: int) -> Seq<char>
    decreases k,
{
    if k <= 0 {
        Seq::empty()
    } else {
        rows_text(g, k - 1) + row_text(g, k - 1, g.width as int).push('\n')
    }
}

/// The board as text: a heading line, then one line of letters per row.
pub open spec fn board_text(g: BoardView) -> Seq<char> {
    seq!['B', 'o', 'a', 'r', 'd', ':', ' ', '\n'] + rows_text(g, g.height as int)
}

/// Position `(x, y)` with `x < width` and `y < height` sits inside the flat
/// cell sequence.
pub proof fn lemma_index_in_range(x: int, y: int, width: int, height: int)
    requires
        0 <= x < width,
        0 <= y < height,
    ensures
        0 <= y * width + x < width * height,
{
    assert(0 <= y * width + x < width * height) by (nonlinear_arith)
        requires
            0 <= x < width,
            0 <= y < height,
    ;
}

/// The flat index `i` names the position `(i % width, i / width)`.
pub proof fn lemma_flat_position(i: int, width: int, height: int)
    requires
        width >= 1,
        0 <= i < width * height,
    ensures
        0 <= i % width < width,
        0 <= i / width < height,
        (i / width) * width + i % width == i,
{
    lemma_fundamental_div_mod(i, width);
    lemma_mod_pos_bound(i, width);
    let q = i / width;
    let r = i % width;
    assert(q * width == width * q) by (nonlinear_arith);
    assert(0 <= q < height) by (nonlinear_arith)
        requires
            i == q * width + r,
            0 <= r < width,
            0 <= i < width * height,
            width >= 1,
    ;
}

/// The position `(x, y)` is recovered from its flat index.
pub proof fn lemma_position_of_index(x: int, y: int, width: int)
    requires
        0 <= x < width,
        0 <= y,
    ensures
        (y * width + x) % width == x,
        (y * width + x) / width == y,
{
    lemma_fundamental_div_mod_converse(y * width + x, width, y, x);
}

/// A fixed-size grid of cells whose edges wrap around.
#[derive(Clone, Debug, PartialEq, Eq)]
pub struct Board {
    inner: Vec<Cell>,
    width: usize,
    height: usize,
}

impl View for Board {
    type V = BoardView;

    closed spec fn view(&self) -> BoardView {
        BoardView { width: self.width as nat, height: self.height as nat, cells: self.inner@ }
    }
}

impl Board {
    pub open spec fn wf(&self) -> bool {
        self@.wf()
    }

    /// Whether `(x, y)` is a position of the board.
    pub fn check_index(&self, index: (usize, usize)) -> (r: bool)
        ensures
            r == self@.in_bounds(index.0 as int, index.1 as int),
    {
        index.0 < self.width && index.1 < self.height
    }

    /// A board of `width` by `height` dead cells.
    pub fn new(width: usize, height: usize) -> (r: Board)
        requires
            width >= 1,
            height >= 1,
            width * height <= MAX_CELLS,
        ensures
            r.wf(),
            r@ == BoardView::empty(width as nat, height as nat),
    {
        let n: usize = width * height;
        let mut inner: Vec<Cell> = Vec::new();
        while inner.len() < n
            invariant
                inner.len() <= n,
                forall|i: int| 0 <= i < inner.len() ==> inner@[i] == Cell::Dead,
            decreases n - inner.len(),
        {
            inner.push(Cell::Dead);
        }
        let r = Board { inner, width, height };
        assert(r@.cells =~= BoardView::empty(width as nat, height as nat).cells);
        r
    }

    pub fn width(&self) -> (r: usize)
        ensures
            r == self@.width,
    {
        self.width
    }

    pub fn height(&self) -> (r: usize)
        ensures
            r == self@.height,
    {
        self.height
    }

    fn offset(&self, x: usize, y: usize) -> (r: usize)
        requires
            self.wf(),
            self@.in_bounds(x as int, y as int),
        ensures
            r == y * self@.width + x,
            r < self@.cells.len(),
    {
        proof {
            lemma_index_in_range(x as int, y as int, self.width as int, self.height as int);
        }
        y * self.width + x
    }

    /// The cell at `(x, y)`.
    pub fn get(&self, index: (usize, usize)) -> (r: Cell)
        requires
            self.wf(),
            self@.in_bounds(index.0 as int, index.1 as int),
        ensures
            r == self@.cell(index.0 as int, index.1 as int),
    {
        let i = self.offset(index.0, index.1);
        self.inner[i]
    }

    /// Replaces the cell at `(x, y)`, leaving every other cell as it was.
    pub fn set(&mut self, index: (usize, usize), cell: Cell)
        requires
            old(self).wf(),
            old(self)@.in_bounds(index.0 as int, index.1 as int),
        ensures
            final(self).wf(),
            final(self)@.width == old(self)@.width,
            final(self)@.height == old(self)@.height,
            final(self)@.cells == old(self)@.cells.update(
                index.1 * old(self)@.width + index.0,
                cell,
            ),
    {
        let i = self.offset(index.0, index.1);
        self.inner.set(i, cell);
    }

    /// Toggles the liveness of the cell at `(x, y)`.
    pub fn toggle(&mut self, index: (usize, usize))
        requires
            old(self).wf(),
            old(self)@.in_bounds(index.0 as int, index.1 as int),
        ensures
            final(self).wf(),
            final(self)@.width == old(self)@.width,
            final(self)@.height == old(self)@.height,
            final(self)@.cells == old(self)@.cells.update(
                index.1 * old(self)@.width + index.0,
                if old(self)@.cell(index.0 as int, index.1 as int).live() {
                    Cell::Died
                } else {
                    Cell::Born
                },
            ),
    {
        let mut c = self.get(index);
        c.flip();
        self.set(index, c);
    }
}

/// A cell together with its position, as handed out when walking a board.
#[derive(Copy, Clone, Debug, PartialEq, Eq)]
pub struct Entry {
    cell: Cell,
    index: (usize, usize),
}

impl View for Entry {
    type V = (Cell, (usize, usize));

    closed spec fn view(&self) -> (Cell, (usize, usize)) {
        (self.cell, self.index)
    }
}

impl Entry {
    pub fn new(cell: Cell, index: (usize, usize)) -> (r: Entry)
        ensures
            r@ == (cell, index),
    {
        Entry { cell, index }
    }

    pub fn cell(&self) -> (r: Cell)
        ensures
            r == self@.0,
    {
        self.cell
    }

    pub fn index(&self) -> (r: (usize, usize))
        ensures
            r == self@.1,
    {
        self.index
    }

    pub fn x(&self) -> (r: usize)
        ensures
            r == self@.1.0,
    {
        self.index.0
    }

    pub fn y(&self) -> (r: usize)
        ensures
            r == self@.1.1,
    {
        self.index.1
    }
}

/// The position visited `k`-th when walking a board of `height` rows:
/// column by column, each from the top row down.
pub open spec fn walk_position(k: int, height: nat) -> (int, int) {
    (k / (height as int), k % (height as int))
}

/// A walk over every position of a board in column-major order.
pub struct BoardIter<'a> {
    board: &'a Board,
    index: Option<(usize, usize)>,
    width: usize,
    height: usize,
}

impl<'a> BoardIter<'a> {
    /// The board walked over.
    pub closed spec fn board_view(&self) -> BoardView {
        self.board@
    }

    /// How many entries the walk has handed out.
    pub closed spec fn visited(&self) -> int {
        match self.index {
            Some(p) => p.0 * self.height + p.1,
            None => self.width * self.height,
        }
    }

    pub closed spec fn wf(&self) -> bool {
        &&& self.board.wf()
        &&& self.width == self.board@.width
        &&& self.height == self.board@.height
        &&& self.index matches Some(p) ==> self.board@.in_bounds(p.0 as int, p.1 as int)
    }

    fn new(board: &'a Board) -> (r: BoardIter<'a>)
        requires
            board.wf(),
        ensures
            r.wf(),
            r.board_view() == board@,
            r.visited() == 0,
    {
        BoardIter { board, index: Some((0, 0)), width: board.width(), height: board.height() }
    }

    fn increment_index(&mut self)
        requires
            old(self).wf(),
        ensures
            final(self).wf(),
            final(self).board_view() == old(self).board_view(),
            old(self).visited() < old(self).board_view().cells.len() ==> final(self).visited() == old(
                self,
            ).visited() + 1,
            old(self).visited() == old(self).board_view().cells.len() ==> final(self).visited()
                == old(self).visited(),
    {
        if let Some((x, y)) = self.index {
            let ghost h = self.height as int;
            proof {
                lemma_index_in_range(y as int, x as int, h, self.width as int);
                assert(self.width * h == h * self.width) by (nonlinear_arith);
            }
            let mut x = x;
            let mut y = y + 1;
            if y >= self.height {
                x += 1;
                y = 0;
            }
            proof {
                assert((x - 1) * h + h == x * h) by (nonlinear_arith);
                assert(self.width * h == h * self.width) by (nonlinear_arith);
            }
            if x >= self.width || y >= self.height {
                self.index = None;
            } else {
                self.index = Some((x, y));
            }
        }
    }

    /// The entry at the next position of the walk, `None` once every
    /// position has been visited.
    pub fn next(&mut self) -> (r: Option<Entry>)
        requires
            old(self).wf(),
        ensures
            final(self).wf(),
            final(self).board_view() == old(self).board_view(),
            ({
                let g = old(self).board_view();
                let k = old(self).visited();
                if k < g.cells.len() {
                    let p = walk_position(k, g.height);
                    &&& final(self).visited() == k + 1
                    &&& r matches Some(e) && e@ == (g.cell(p.0, p.1), (p.0 as usize, p.1 as usize))
                } else {
                    &&& final(self).visited() == k
                    &&& r is None
                }
            }),
    {
        match self.index {
            Some(index) => {
                proof {
                    let h = self.height as int;
                    lemma_fundamental_div_mod_converse(index.0 * h + index.1, h, index.0 as int, index.1 as int);
                    lemma_index_in_range(index.1 as int, index.0 as int, h, self.width as int);
                    assert(self.width * h == h * self.width) by (nonlinear_arith);
                }
                self.increment_index();
                let cell = self.board.get(index);
                Some(Entry::new(cell, index))
            },
            None => None,
        }
    }
}

impl Board {
    /// The board as text, one line per row.
    pub fn to_string(&self) -> (r: String)
        requires
            self.wf(),
        ensures
            r@ == board_text(self@),
    {
        let ghost g = self@;
        proof {
            reveal_strlit("Board: \n");
        }
        let mut text = "Board: \n".to_owned();
        let mut row: usize = 0;
        while row < self.height
            invariant
                self.wf(),
                self@ == g,
                0 <= row <= g.height,
                text@ == seq!['B', 'o', 'a', 'r', 'd', ':', ' ', '\n'] + rows_text(g, row as int),
            decreases g.height - row,
        {
            let ghost before = text@;
            let mut col: usize = 0;
            while col < self.width
                invariant
                    self.wf(),
                    self@ == g,
                    0 <= row < g.height,
                    0 <= col <= g.width,
                    text@ == before + row_text(g, row as int, col as int),
                decreases g.width - col,
            {
                let cell = self.get((col, row));
                text.append(cell.as_str());
                assert(text@ =~= before + row_text(g, row as int, col + 1));
                col = col + 1;
            }
            proof {
                reveal_strlit("\n");
            }
            text.append("\n");
            assert(text@ =~= seq!['B', 'o', 'a', 'r', 'd', ':', ' ', '\n'] + rows_text(g, row + 1));
            row = row + 1;
        }
        text
    }

    /// A walk over every cell, column by column.
    pub fn iter(&self) -> (r: BoardIter<'_>)
        requires
            self.wf(),
        ensures
            r.wf(),
            r.board_view() == self@,
            r.visited() == 0,
    {
        BoardIter::new(self)
    }
}

} // verus!
