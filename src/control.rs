use vstd::prelude::*;

use crate::board::{Board, BoardView, Cell, MAX_CELLS};
use crate::logic::{next_state, resize, resized, successor};

verus! {

/// Pausing takes hold one frame after it is asked for: `JustEnabled` still
/// lets the current frame advance and becomes `Activated` at its end.
#[derive(Copy, Clone, Debug, PartialEq, Eq, Structural)]
pub enum PauseState {
    Disabled,
    JustEnabled,
    Activated,
}

/// An input event, with positions and sizes in terminal cells.
#[derive(Copy, Clone, Debug, PartialEq, Eq, Structural)]
pub enum BoardEvent {
    MouseClick { x: u16, y: u16 },
    Exit,
    Resized { x: u16, y: u16 },
    Pause,
    /// `true` asks for faster generations, `false` for slower.
    Speed(bool),
}

/// Whether the loop goes on after an event.
#[derive(Copy, Clone, Debug, PartialEq, Eq, Structural)]
pub enum Flow {
    Continue,
    Exit,
}

/// The time between generations at start-up, in nanoseconds.
pub const INITIAL_FRAME_NANOS: u64 = 64_000_000;

/// Speeding up never brings a frame below this many nanoseconds.
pub const MIN_FRAME_NANOS: u64 = 1_000_000;

/// Slowing down never brings a frame above this many nanoseconds.
pub const MAX_FRAME_NANOS: u64 = 65_536_000_000;

/// The longest diagonal of live cells a new simulation starts with.
pub const SEED_LENGTH: usize = 25;

/// The state that the control loop owns.
pub struct SimulationView {
    pub board: BoardView,
    pub frame_nanos: nat,
    pub pause: PauseState,
}

/// The board with the liveness of `(x, y)` toggled.
pub open spec fn toggled(g: BoardView, x: int, y: int) -> BoardView {
    BoardView {
        cells: g.cells.update(
            y * g.width + x,
            if g.cell(x, y).live() {
                Cell::Died
            } else {
                Cell::Born
            },
        ),
        ..g
    }
}

/// A pause request pauses a running simulation and resumes a paused one.
/// While a pause is still taking hold (`JustEnabled`) further requests are
/// ignored: it becomes `Activated` at the end of the frame whatever comes in.
pub open spec fn toggled_pause(p: PauseState) -> PauseState {
    match p {
        PauseState::Disabled => PauseState::JustEnabled,
        PauseState::JustEnabled => PauseState::JustEnabled,
        PauseState::Activated => PauseState::Disabled,
    }
}

/// The frame length after a speed request, kept within the bounds.
pub open spec fn new_frame(frame: nat, faster: bool) -> nat {
    if faster {
        if frame / 2 >= MIN_FRAME_NANOS {
            frame / 2
        } else {
            MIN_FRAME_NANOS as nat
        }
    } else {
        if frame * 2 <= MAX_FRAME_NANOS {
            frame * 2
        } else {
            MAX_FRAME_NANOS as nat
        }
    }
}

/// An event the loop can act on: a resize to a size the board can take.
pub open spec fn acceptable(e: BoardEvent) -> bool {
    match e {
        BoardEvent::Resized { x, y } => x >= 1 && y >= 1 && x * y <= MAX_CELLS,
        _ => true,
    }
}

/// The state after reacting to `e`.
pub open spec fn after_event(s: SimulationView, e: BoardEvent) -> SimulationView {
    match e {
        BoardEvent::MouseClick { x, y } => if s.board.in_bounds(x as int, y as int) {
            SimulationView { board: toggled(s.board, x as int, y as int), ..s }
        } else {
            s
        },
        BoardEvent::Exit => s,
        BoardEvent::Resized { x, y } => SimulationView {
            board: resized(s.board, x as nat, y as nat),
            ..s
        },
        BoardEvent::Pause => SimulationView { pause: toggled_pause(s.pause), ..s },
        BoardEvent::Speed(faster) => SimulationView {
            frame_nanos: new_frame(s.frame_nanos, faster),
            ..s
        },
    }
}

/// The board a simulation starts with: `n` live cells down the diagonal from
/// the corner, all others dead.
pub open spec fn seeded(width: nat, height: nat, n: nat) -> BoardView {
    BoardView {
        width,
        height,
        cells: Seq::new(
            width * height,
            |i: int|
                if i % (width as int) == i / (width as int) && i / (width as int) < n {
                    Cell::Born
                } else {
                    Cell::Dead
                },
        ),
    }
}

pub open spec fn min_nat(a: nat, b: nat) -> nat {
    if a <= b {
        a
    } else {
        b
    }
}

/// The board, the frame length and the pause state of a running simulation.
pub struct Simulation {
    board: Board,
    frame_nanos: u64,
    pause: PauseState,
}

impl View for Simulation {
    type V = SimulationView;

    closed spec fn view(&self) -> SimulationView {
        SimulationView {
            board: self.board@,
            frame_nanos: self.frame_nanos as nat,
            pause: self.pause,
        }
    }
}

impl Simulation {
    pub closed spec fn wf(&self) -> bool {
        &&& self.board.wf()
        &&& MIN_FRAME_NANOS <= self.frame_nanos <= MAX_FRAME_NANOS
    }

    /// A running simulation on a `width` by `height` board seeded with a
    /// diagonal of live cells.
    pub fn new(width: usize, height: usize) -> (r: Simulation)
        requires
            width >= 1,
            height >= 1,
            width * height <= MAX_CELLS,
        ensures
            r.wf(),
            r@.board == seeded(
                width as nat,
                height as nat,
                min_nat(SEED_LENGTH as nat, min_nat(width as nat, height as nat)),
            ),
            r@.frame_nanos == INITIAL_FRAME_NANOS,
            r@.pause == PauseState::Disabled,
    {
        let mut board = Board::new(width, height);
        let mut n: usize = if width < height {
            width
        } else {
            height
        };
        if SEED_LENGTH < n {
            n = SEED_LENGTH;
        }
        let ghost w = width as int;
        let mut i: usize = 0;
        while i < n
            invariant
                board.wf(),
                board@.width == width,
                board@.height == height,
                w == width,
                width >= 1,
                n <= width,
                n <= height,
                0 <= i <= n,
                forall|j: int|
                    0 <= j < width * height ==> board@.cells[j] == (if j % w == j / w && j / w < i {
                        Cell::Born
                    } else {
                        Cell::Dead
                    }),
            decreases n - i,
        {
            proof {
                crate::board::lemma_index_in_range(i as int, i as int, w, height as int);
                crate::board::lemma_position_of_index(i as int, i as int, w);
            }
            board.toggle((i, i));
            proof {
                assert forall|j: int| 0 <= j < width * height implies #[trigger] board@.cells[j] == (
                if j % w == j / w && j / w < i + 1 {
                    Cell::Born
                } else {
                    Cell::Dead
                }) by {
                    if j != i * w + i && j % w == j / w && j / w == i {
                        crate::board::lemma_flat_position(j, w, height as int);
                    }
                }
            }
            i = i + 1;
        }
        let r = Simulation { board, frame_nanos: INITIAL_FRAME_NANOS, pause: PauseState::Disabled };
        assert(r@.board.cells =~= seeded(
            width as nat,
            height as nat,
            min_nat(SEED_LENGTH as nat, min_nat(width as nat, height as nat)),
        ).cells);
        r
    }

    /// Reacts to one input event: a click toggles the cell under it, a
    /// resize rebuilds the board, pause and speed requests change the pacing.
    pub fn handle_event(&mut self, event: BoardEvent) -> (r: Flow)
        requires
            old(self).wf(),
            acceptable(event),
        ensures
            final(self).wf(),
            final(self)@ == after_event(old(self)@, event),
            r == (if event is Exit {
                Flow::Exit
            } else {
                Flow::Continue
            }),
    {
        match event {
            BoardEvent::MouseClick { x, y } => {
                let x = x as usize;
                let y = y as usize;
                if self.board.check_index((x, y)) {
                    self.board.toggle((x, y));
                }
                Flow::Continue
            },
            BoardEvent::Exit => Flow::Exit,
            BoardEvent::Resized { x, y } => {
                resize(&mut self.board, x as usize, y as usize);
                Flow::Continue
            },
            BoardEvent::Pause => {
                self.pause = match self.pause {
                    PauseState::Disabled => PauseState::JustEnabled,
                    PauseState::JustEnabled => PauseState::JustEnabled,
                    PauseState::Activated => PauseState::Disabled,
                };
                Flow::Continue
            },
            BoardEvent::Speed(faster) => {
                if faster {
                    let half = self.frame_nanos / 2;
                    self.frame_nanos = if half >= MIN_FRAME_NANOS {
                        half
                    } else {
                        MIN_FRAME_NANOS
                    };
                } else {
                    self.frame_nanos = if self.frame_nanos <= MAX_FRAME_NANOS / 2 {
                        self.frame_nanos * 2
                    } else {
                        MAX_FRAME_NANOS
                    };
                }
                Flow::Continue
            },
        }
    }

    /// Whether a generation is due, `elapsed_nanos` after the last one.
    pub fn is_due(&self, elapsed_nanos: u64) -> (r: bool)
        ensures
            r == (elapsed_nanos > self@.frame_nanos),
    {
        elapsed_nanos > self.frame_nanos
    }

    /// Ends a frame: advances the board when a generation is `due` and the
    /// simulation is not paused, and lets a pause asked for take hold.
    /// Tells whether the board advanced.
    pub fn end_frame(&mut self, due: bool) -> (advanced: bool)
        requires
            old(self).wf(),
        ensures
            final(self).wf(),
            advanced == (due && old(self)@.pause != PauseState::Activated),
            final(self)@.board == (if advanced {
                successor(old(self)@.board)
            } else {
                old(self)@.board
            }),
            final(self)@.frame_nanos == old(self)@.frame_nanos,
            final(self)@.pause == (if old(self)@.pause == PauseState::JustEnabled {
                PauseState::Activated
            } else {
                old(self)@.pause
            }),
    {
        let paused = match self.pause {
            PauseState::Disabled => false,
            PauseState::JustEnabled => {
                self.pause = PauseState::Activated;
                false
            },
            PauseState::Activated => true,
        };
        if due && !paused {
            next_state(&mut self.board);
            true
        } else {
            false
        }
    }

    pub fn board(&self) -> (r: &Board)
        requires
            self.wf(),
        ensures
            r.wf(),
            r@ == self@.board,
    {
        &self.board
    }

    pub fn frame_nanos(&self) -> (r: u64)
        ensures
            r == self@.frame_nanos,
    {
        self.frame_nanos
    }

    pub fn pause_state(&self) -> (r: PauseState)
        ensures
            r == self@.pause,
    {
        self.pause
    }
}

} // verus!
