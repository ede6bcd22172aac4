//! The game session: the level's identity, its mine budget, the mines found so
//! far, and the board they are found on.

use vstd::prelude::*;

use crate::board::{copy_positions, fresh_board, Board, BoardView, MAX_TILES};

verus! {

/// Why a session refused a request.
#[derive(Clone, Copy, PartialEq, Eq, Structural, Debug)]
pub enum SessionError {
    /// The level was already started.
    DoubleInitialization,
}

/// The model of a session.
pub struct GameView {
    pub level_id: Seq<char>,
    pub mines: i32,
    pub found: Seq<(i32, i32)>,
    pub board: BoardView,
    pub initialized: bool,
}

impl GameView {
    /// The session's invariant: a well-formed board, found mines on it, never
    /// twice, and never more of them than the budget.
    pub open spec fn wf(self) -> bool {
        &&& self.board.wf()
        &&& 0 <= self.found.len() <= self.mines
        &&& self.found.no_duplicates()
        &&& forall|i: int| 0 <= i < self.found.len() ==> self.board.has(#[trigger] self.found[i].0 as int, self.found[i].1 as int)
        &&& !self.initialized ==> self.found.len() == 0 && self.mines == 0
    }

    /// Whether the mine budget has been reached.
    pub open spec fn budget_reached(self) -> bool {
        self.found.len() >= self.mines
    }

    /// This session after the tile at `p` was opened and showed `v`.
    pub open spec fn with_value(self, p: (i32, i32), v: i32) -> GameView {
        GameView { board: self.board.with_value(p.0 as int, p.1 as int, v), ..self }
    }

    /// This session after `p` was found to be a mine.
    pub open spec fn with_mine(self, p: (i32, i32)) -> GameView {
        GameView {
            board: self.board.with_mine(p.0 as int, p.1 as int),
            found: if self.found.contains(p) {
                self.found
            } else {
                self.found.push(p)
            },
            ..self
        }
    }
}

/// A game session.
pub struct Game {
    level_id: String,
    mines: i32,
    found_mines: Vec<(i32, i32)>,
    board: Board,
    initialized: bool,
}

impl View for Game {
    type V = GameView;

    closed spec fn view(&self) -> GameView {
        GameView {
            level_id: self.level_id@,
            mines: self.mines,
            found: self.found_mines@,
            board: self.board@,
            initialized: self.initialized,
        }
    }
}

/// Whether `v` holds `p`.
pub(crate) fn holds_position(v: &Vec<(i32, i32)>, p: (i32, i32)) -> (r: bool)
    ensures
        r == v@.contains(p),
{
    let mut i: usize = 0;
    while i < v.len()
        invariant
            i <= v@.len(),
            forall|j: int| 0 <= j < i ==> v@[j] != p,
        decreases v@.len() - i,
    {
        if v[i].0 == p.0 && v[i].1 == p.1 {
            return true;
        }
        i = i + 1;
    }
    false
}

impl Game {
    /// The invariant of the stored parts.
    pub closed spec fn stored_ok(&self) -> bool {
        self.board.wf()
    }

    /// The session's invariant.
    pub open spec fn wf(&self) -> bool {
        self.stored_ok() && self@.wf()
    }

    /// A session for the level `level_id`, not started yet: no mines to find,
    /// none found, an empty board.
    pub fn new(level_id: String) -> (g: Game)
        ensures
            g.wf(),
            g@.level_id == level_id@,
            g@.mines == 0,
            g@.found.len() == 0,
            g@.board.tiles.len() == 0,
            g@.board.rows == 0,
            g@.board.columns == 0,
            !g@.initialized,
    {
        Game { level_id, mines: 0, found_mines: Vec::new(), board: Board::new(), initialized: false }
    }

    /// Starts the level with the size and mine budget the service gave: the
    /// board is built at `rows` by `columns`. A level starts once only.
    pub fn init(&mut self, rows: i32, columns: i32, mines: i32) -> (r: Result<(), SessionError>)
        requires
            old(self).wf(),
            rows >= 0,
            columns >= 0,
            rows * columns <= MAX_TILES,
            mines >= 0,
        ensures
            final(self).wf(),
            old(self)@.initialized <==> r is Err,
            r is Err ==> r == Err::<(), SessionError>(SessionError::DoubleInitialization) && final(self)@ == old(self)@,
            r is Ok ==> final(self)@ == (GameView {
                mines,
                board: fresh_board(rows, columns),
                initialized: true,
                ..old(self)@
            }),
    {
        if self.initialized {
            return Err(SessionError::DoubleInitialization);
        }
        self.board.set_size(rows, columns);
        self.board.build();
        self.mines = mines;
        self.initialized = true;
        Ok(())
    }

    /// Shows the value `value` that opening (`row`, `column`) revealed.
    pub fn open_tile(&mut self, row: i32, column: i32, value: i32)
        requires
            old(self).wf(),
            old(self)@.board.has(row as int, column as int),
        ensures
            final(self).wf(),
            final(self)@ == old(self)@.with_value((row, column), value),
    {
        self.board.set_value(row as usize, column as usize, value);
    }

    /// Flags (`row`, `column`) as a mine and adds it to the mines found, unless
    /// it is there already. Returns whether the budget is now reached, and so
    /// the solution is due.
    pub fn mark_mine(&mut self, row: i32, column: i32) -> (due: bool)
        requires
            old(self).wf(),
            old(self)@.board.has(row as int, column as int),
            !old(self)@.budget_reached(),
        ensures
            final(self).wf(),
            final(self)@ == old(self)@.with_mine((row, column)),
            due == final(self)@.budget_reached(),
    {
        let ghost before = self@;
        self.board.mark_mine(row as usize, column as usize);
        if !holds_position(&self.found_mines, (row, column)) {
            self.found_mines.push((row, column));
            proof {
                assert forall|i: int, j: int|
                    0 <= i < j < self.found_mines@.len() implies self.found_mines@[i] != self.found_mines@[j] by {
                    if j == self.found_mines@.len() - 1 {
                        assert(self.found_mines@[i] == before.found[i]);
                    }
                }
            }
        }
        proof {
            assert(self@.board.height() == before.board.height());
            assert(self@.board.width() == before.board.width());
        }
        self.found_mines.len() >= self.mines as usize
    }

    /// The board.
    pub fn board(&self) -> (b: &Board)
        requires
            self.wf(),
        ensures
            b.wf(),
            b@ == self@.board,
    {
        &self.board
    }

    /// Whether the mines found have reached the budget.
    pub fn budget_reached(&self) -> (r: bool)
        requires
            self.wf(),
        ensures
            r == self@.budget_reached(),
    {
        self.found_mines.len() >= self.mines as usize
    }

    /// The mine budget of the level.
    pub fn mines(&self) -> (m: i32)
        ensures
            m == self@.mines,
    {
        self.mines
    }

    /// The level's identifier.
    pub fn level_id(&self) -> (id: String)
        ensures
            id@ == self@.level_id,
    {
        self.level_id.clone()
    }

    /// The mines found so far, in the order they were found.
    pub fn found_mines(&self) -> (f: Vec<(i32, i32)>)
        ensures
            f@ == self@.found,
    {
        copy_positions(&self.found_mines)
    }
}

} // verus!
