//! The solver: a state machine that explores the board by flood fill over
//! tiles showing zero, then flags as a mine the sole unrevealed neighbour of a
//! revealed tile. It asks for the outside work (opening a tile, submitting the
//! mines found) through the actions it returns, and learns the outcome through
//! the events it is handed.

use vstd::prelude::*;

use crate::board::{copy_positions, in_bounds, lemma_board_neighbours, BoardView, TileView, UNREVEALED};
use crate::board::Board;
use crate::session::{holds_position, Game, GameView};

verus! {

/// What the solver is waiting for.
#[derive(Clone, Copy, PartialEq, Eq, Structural, Debug)]
pub enum Status {
    /// Nothing: the next step decides.
    Ready,
    /// The value of the tile at (row, column), which it asked to open.
    Opening(i32, i32),
    /// The outcome of submitting the mines found.
    Submitting,
    /// Nothing any more: solving is over.
    Terminal,
}

/// What happened since the last step.
#[derive(Clone, Copy, PartialEq, Eq, Structural, Debug)]
pub enum Event {
    /// Solving begins.
    Start,
    /// The tile asked for was opened and shows this value.
    Opened(i32),
    /// The mines found were submitted.
    Submitted,
    /// The service could not be reached or refused the request.
    Failed,
}

/// What the solver asks to be done next.
#[derive(Clone, Copy, PartialEq, Eq, Structural, Debug)]
pub enum Action {
    /// Open the tile at (row, column) and report its value.
    Open(i32, i32),
    /// Submit the mines found.
    Submit,
    /// Nothing: solving is over.
    Finished,
}

/// The model of a solver.
pub struct SolverView {
    pub to_open: Seq<(i32, i32)>,
    pub to_analyze: Seq<(i32, i32)>,
    pub status: Status,
}

/// Whether the tile at `p` is still unrevealed on `b`.
pub open spec fn unrevealed(b: BoardView, p: (i32, i32)) -> bool {
    b.value_at(p) == UNREVEALED
}

/// `stack` after pushing, in order, each of the first `k` of `nbrs` that is
/// unrevealed on `b` and not on the stack yet.
pub open spec fn schedule(stack: Seq<(i32, i32)>, nbrs: Seq<(i32, i32)>, k: nat, b: BoardView) -> Seq<(i32, i32)>
    decreases k,
{
    if k == 0 {
        stack
    } else {
        let s = schedule(stack, nbrs, (k - 1) as nat, b);
        let n = nbrs[k - 1];
        if unrevealed(b, n) && !s.contains(n) {
            s.push(n)
        } else {
            s
        }
    }
}

/// How many of the first `k` of `nbrs` are unrevealed on `b`.
pub open spec fn unrevealed_count(nbrs: Seq<(i32, i32)>, k: nat, b: BoardView) -> nat
    decreases k,
{
    if k == 0 {
        0
    } else if unrevealed(b, nbrs[k - 1]) {
        unrevealed_count(nbrs, (k - 1) as nat, b) + 1
    } else {
        unrevealed_count(nbrs, (k - 1) as nat, b)
    }
}

/// The last of the first `k` of `nbrs` that is unrevealed on `b`; the origin
/// where there is none.
pub open spec fn last_unrevealed(nbrs: Seq<(i32, i32)>, k: nat, b: BoardView) -> (i32, i32)
    decreases k,
{
    if k == 0 {
        (0, 0)
    } else if unrevealed(b, nbrs[k - 1]) {
        nbrs[k - 1]
    } else {
        last_unrevealed(nbrs, (k - 1) as nat, b)
    }
}

/// The neighbours of the tile at `p` on `b`.
pub open spec fn neighbours_at(b: BoardView, p: (i32, i32)) -> Seq<(i32, i32)> {
    b.tile(p.0 as int, p.1 as int).neighbours
}

/// Whether the tile at `t` has exactly one unrevealed neighbour on `b`.
pub open spec fn single_candidate(b: BoardView, t: (i32, i32)) -> bool {
    unrevealed_count(neighbours_at(b, t), neighbours_at(b, t).len(), b) == 1
}

/// The mine deduced from `stack`, taking tiles from its top: the sole
/// unrevealed neighbour of the first tile that has exactly one.
pub open spec fn deduce(stack: Seq<(i32, i32)>, b: BoardView) -> Option<(i32, i32)>
    decreases stack.len(),
{
    if stack.len() == 0 {
        None
    } else {
        let t = stack.last();
        if single_candidate(b, t) {
            Some(last_unrevealed(neighbours_at(b, t), neighbours_at(b, t).len(), b))
        } else {
            deduce(stack.drop_last(), b)
        }
    }
}

/// The solver after the tile at `p` was opened and shows `v` on `b`: a zero
/// schedules its unrevealed neighbours, a positive value awaits analysis.
pub open spec fn after_open(s: SolverView, b: BoardView, p: (i32, i32), v: i32) -> SolverView {
    if v == 0 {
        SolverView {
            to_open: schedule(s.to_open, neighbours_at(b, p), neighbours_at(b, p).len(), b),
            status: Status::Ready,
            ..s
        }
    } else if v > 0 {
        SolverView { to_analyze: s.to_analyze.push(p), status: Status::Ready, ..s }
    } else {
        SolverView { status: Status::Ready, ..s }
    }
}

/// The decision taken when nothing is awaited: open the tile on top of the
/// stack; with none left, submit once the budget is reached; else deduce one
/// mine, flag it, and submit if that reaches the budget; else stop.
pub open spec fn decide(s: SolverView, g: GameView) -> (SolverView, GameView, Action) {
    if s.to_open.len() > 0 {
        let p = s.to_open.last();
        (
            SolverView { to_open: s.to_open.drop_last(), status: Status::Opening(p.0, p.1), ..s },
            g,
            Action::Open(p.0, p.1),
        )
    } else if g.budget_reached() {
        (SolverView { to_analyze: Seq::empty(), status: Status::Submitting, ..s }, g, Action::Submit)
    } else {
        let s1 = SolverView { to_analyze: Seq::empty(), ..s };
        match deduce(s.to_analyze, g.board) {
            Some(m) => {
                let g1 = g.with_mine(m);
                if g1.budget_reached() {
                    (SolverView { status: Status::Submitting, ..s1 }, g1, Action::Submit)
                } else {
                    (SolverView { status: Status::Terminal, ..s1 }, g1, Action::Finished)
                }
            },
            None => (SolverView { status: Status::Terminal, ..s1 }, g, Action::Finished),
        }
    }
}

/// One step of the solver: its new state, the session's new state, and the
/// action it asks for. A failure ends solving; an event that does not answer
/// what is awaited leaves everything as it was and repeats the request.
pub open spec fn next(s: SolverView, g: GameView, e: Event) -> (SolverView, GameView, Action) {
    match s.status {
        Status::Terminal => (s, g, Action::Finished),
        _ => {
            if e == Event::Failed {
                (SolverView { status: Status::Terminal, ..s }, g, Action::Finished)
            } else {
                match s.status {
                    Status::Opening(r, c) => match e {
                        Event::Opened(v) => {
                            let g1 = g.with_value((r, c), v);
                            decide(after_open(s, g1.board, (r, c), v), g1)
                        },
                        _ => (s, g, Action::Open(r, c)),
                    },
                    Status::Submitting => match e {
                        Event::Submitted => (SolverView { status: Status::Terminal, ..s }, g, Action::Finished),
                        _ => (s, g, Action::Submit),
                    },
                    _ => decide(s, g),
                }
            }
        },
    }
}

/// Every position of `s` is a tile of `b`.
pub open spec fn all_on(s: Seq<(i32, i32)>, b: BoardView) -> bool {
    forall|i: int| 0 <= i < s.len() ==> b.has(#[trigger] s[i].0 as int, s[i].1 as int)
}

/// Positions on a board stay on any board of the same shape.
proof fn lemma_all_on_same_shape(s: Seq<(i32, i32)>, b1: BoardView, b2: BoardView)
    requires
        all_on(s, b1),
        b1.height() == b2.height(),
        b1.width() == b2.width(),
    ensures
        all_on(s, b2),
{
    assert forall|i: int| 0 <= i < s.len() implies b2.has(#[trigger] s[i].0 as int, s[i].1 as int) by {
        assert(b1.has(s[i].0 as int, s[i].1 as int));
    }
}

impl SolverView {
    /// Every position the solver holds is a tile of `b`.
    pub open spec fn wf(self, b: BoardView) -> bool {
        &&& all_on(self.to_open, b)
        &&& all_on(self.to_analyze, b)
        &&& match self.status {
            Status::Opening(r, c) => b.has(r as int, c as int),
            _ => true,
        }
    }
}

} // verus!

verus! {

/// The solver's state: the tiles still to open, the revealed tiles still to
/// analyse, and what it waits for.
pub struct Solver {
    to_open: Vec<(i32, i32)>,
    to_analyze: Vec<(i32, i32)>,
    status: Status,
}

impl View for Solver {
    type V = SolverView;

    closed spec fn view(&self) -> SolverView {
        SolverView { to_open: self.to_open@, to_analyze: self.to_analyze@, status: self.status }
    }
}

/// The solver's first state on `b`: the origin to open, if the board has it.
pub open spec fn start(b: BoardView) -> SolverView {
    SolverView {
        to_open: if b.has(0, 0) {
            seq![(0i32, 0i32)]
        } else {
            Seq::empty()
        },
        to_analyze: Seq::empty(),
        status: Status::Ready,
    }
}

/// How many of `board`'s neighbours of `t` are unrevealed, and the last of them.
fn count_unrevealed(board: &Board, t: (i32, i32)) -> (r: (usize, (i32, i32)))
    requires
        board.wf(),
        board@.has(t.0 as int, t.1 as int),
    ensures
        r.0 == unrevealed_count(neighbours_at(board@, t), neighbours_at(board@, t).len(), board@),
        r.1 == last_unrevealed(neighbours_at(board@, t), neighbours_at(board@, t).len(), board@),
        r.0 > 0 ==> board@.has(r.1.0 as int, r.1.1 as int),
{
    let nbrs = board.get_neighbours(t.0 as usize, t.1 as usize);
    proof {
        lemma_board_neighbours(board@, t.0 as int, t.1 as int);
    }
    let mut count: usize = 0;
    let mut last: (i32, i32) = (0, 0);
    let mut i: usize = 0;
    while i < nbrs.len()
        invariant
            board.wf(),
            nbrs@ == neighbours_at(board@, t),
            forall|j: int| 0 <= j < nbrs@.len() ==> board@.has(#[trigger] nbrs@[j].0 as int, nbrs@[j].1 as int),
            i <= nbrs@.len(),
            count <= i,
            count == unrevealed_count(nbrs@, i as nat, board@),
            last == last_unrevealed(nbrs@, i as nat, board@),
            count > 0 ==> board@.has(last.0 as int, last.1 as int),
        decreases nbrs@.len() - i,
    {
        let n = nbrs[i];
        if board.get_tile_value(n.0 as usize, n.1 as usize) == UNREVEALED {
            count = count + 1;
            last = n;
        }
        i = i + 1;
    }
    (count, last)
}

impl Solver {
    /// A solver ready to explore `game`'s board from its origin.
    pub fn new(game: &Game) -> (s: Solver)
        requires
            game.wf(),
        ensures
            s@ == start(game@.board),
            s@.wf(game@.board),
    {
        let board = game.board();
        let mut to_open: Vec<(i32, i32)> = Vec::new();
        if board.has_tile(0, 0) {
            to_open.push((0, 0));
        }
        proof {
            assert(to_open@ =~= start(game@.board).to_open);
        }
        Solver { to_open, to_analyze: Vec::new(), status: Status::Ready }
    }

    /// What the solver waits for.
    pub fn status(&self) -> (st: Status)
        ensures
            st == self@.status,
    {
        self.status
    }

    /// The tiles waiting to be opened, the next one last.
    pub fn to_open(&self) -> (v: Vec<(i32, i32)>)
        ensures
            v@ == self@.to_open,
    {
        copy_positions(&self.to_open)
    }

    /// The revealed tiles waiting to be analysed, the next one last.
    pub fn to_analyze(&self) -> (v: Vec<(i32, i32)>)
        ensures
            v@ == self@.to_analyze,
    {
        copy_positions(&self.to_analyze)
    }

    /// Pushes onto the stack to open each neighbour of (`row`, `column`) that
    /// is unrevealed and not on it yet.
    fn schedule_neighbours(&mut self, board: &Board, row: i32, column: i32)
        requires
            board.wf(),
            board@.has(row as int, column as int),
            old(self)@.wf(board@),
        ensures
            final(self)@ == (SolverView {
                to_open: schedule(
                    old(self)@.to_open,
                    neighbours_at(board@, (row, column)),
                    neighbours_at(board@, (row, column)).len(),
                    board@,
                ),
                ..old(self)@
            }),
            final(self)@.wf(board@),
    {
        let nbrs = board.get_neighbours(row as usize, column as usize);
        proof {
            lemma_board_neighbours(board@, row as int, column as int);
        }
        let mut i: usize = 0;
        while i < nbrs.len()
            invariant
                board.wf(),
                nbrs@ == neighbours_at(board@, (row, column)),
                forall|j: int| 0 <= j < nbrs@.len() ==> board@.has(#[trigger] nbrs@[j].0 as int, nbrs@[j].1 as int),
                i <= nbrs@.len(),
                self.to_open@ == schedule(old(self)@.to_open, nbrs@, i as nat, board@),
                self.to_analyze@ == old(self)@.to_analyze,
                self.status == old(self)@.status,
                self@.wf(board@),
            decreases nbrs@.len() - i,
        {
            let n = nbrs[i];
            if board.get_tile_value(n.0 as usize, n.1 as usize) == UNREVEALED && !holds_position(&self.to_open, n) {
                let ghost before = self.to_open@;
                self.to_open.push(n);
                proof {
                    assert forall|j: int| 0 <= j < self@.to_open.len() implies board@.has(
                        #[trigger] self@.to_open[j].0 as int,
                        self@.to_open[j].1 as int,
                    ) by {
                        if j < before.len() {
                            assert(self@.to_open[j] == before[j]);
                        }
                    }
                }
            }
            i = i + 1;
        }
    }

    /// Decides what to do when nothing is awaited.
    fn decide(&mut self, game: &mut Game) -> (a: Action)
        requires
            old(game).wf(),
            old(self)@.wf(old(game)@.board),
        ensures
            final(game).wf(),
            final(self)@.wf(final(game)@.board),
            (final(self)@, final(game)@, a) == decide(old(self)@, old(game)@),
    {
        if self.to_open.len() > 0 {
            let ghost before = self.to_open@;
            let p = self.to_open.pop().unwrap();
            proof {
                assert(game@.board.has(before[before.len() - 1].0 as int, before[before.len() - 1].1 as int));
                assert forall|j: int| 0 <= j < self@.to_open.len() implies game@.board.has(
                    #[trigger] self@.to_open[j].0 as int,
                    self@.to_open[j].1 as int,
                ) by {
                    assert(self@.to_open[j] == before[j]);
                }
            }
            self.status = Status::Opening(p.0, p.1);
            return Action::Open(p.0, p.1);
        }
        if game.budget_reached() {
            self.to_analyze.clear();
            self.status = Status::Submitting;
            proof {
                assert(self@.to_analyze =~= Seq::<(i32, i32)>::empty());
            }
            return Action::Submit;
        }
        let found = self.deduce_mine(game.board());
        let ghost g0 = game@;
        match found {
            Some(m) => {
                let due = game.mark_mine(m.0, m.1);
                proof {
                    lemma_all_on_same_shape(self@.to_open, g0.board, game@.board);
                    lemma_all_on_same_shape(self@.to_analyze, g0.board, game@.board);
                }
                if due {
                    self.status = Status::Submitting;
                    Action::Submit
                } else {
                    self.status = Status::Terminal;
                    Action::Finished
                }
            },
            None => {
                self.status = Status::Terminal;
                Action::Finished
            },
        }
    }

    /// One step: takes what happened since the last step, updates the session
    /// and the solver, and returns what to do next.
    pub fn step(&mut self, game: &mut Game, event: Event) -> (a: Action)
        requires
            old(game).wf(),
            old(self)@.wf(old(game)@.board),
        ensures
            final(game).wf(),
            final(self)@.wf(final(game)@.board),
            (final(self)@, final(game)@, a) == next(old(self)@, old(game)@, event),
    {
        match self.status {
            Status::Terminal => {
                return Action::Finished;
            },
            _ => {},
        }
        match event {
            Event::Failed => {
                self.status = Status::Terminal;
                return Action::Finished;
            },
            _ => {},
        }
        match self.status {
            Status::Opening(row, column) => match event {
                Event::Opened(value) => {
                    let ghost g0 = game@;
                    game.open_tile(row, column, value);
                    proof {
                        lemma_all_on_same_shape(self@.to_open, g0.board, game@.board);
                        lemma_all_on_same_shape(self@.to_analyze, g0.board, game@.board);
                    }
                    if value == 0 {
                        self.schedule_neighbours(game.board(), row, column);
                    } else if value > 0 {
                        let ghost before = self.to_analyze@;
                        self.to_analyze.push((row, column));
                        proof {
                            assert forall|j: int| 0 <= j < self@.to_analyze.len() implies game@.board.has(
                                #[trigger] self@.to_analyze[j].0 as int,
                                self@.to_analyze[j].1 as int,
                            ) by {
                                if j < before.len() {
                                    assert(self@.to_analyze[j] == before[j]);
                                }
                            }
                        }
                    }
                    self.status = Status::Ready;
                    self.decide(game)
                },
                _ => Action::Open(row, column),
            },
            Status::Submitting => match event {
                Event::Submitted => {
                    self.status = Status::Terminal;
                    Action::Finished
                },
                _ => Action::Submit,
            },
            _ => self.decide(game),
        }
    }

    /// Takes tiles off the stack to analyse until one has exactly one
    /// unrevealed neighbour, and returns that neighbour; the stack ends empty.
    fn deduce_mine(&mut self, board: &Board) -> (m: Option<(i32, i32)>)
        requires
            board.wf(),
            old(self)@.wf(board@),
        ensures
            m == deduce(old(self)@.to_analyze, board@),
            final(self)@ == (SolverView { to_analyze: Seq::empty(), ..old(self)@ }),
            m.is_some() ==> board@.has(m.unwrap().0 as int, m.unwrap().1 as int),
    {
        while self.to_analyze.len() > 0
            invariant
                board.wf(),
                self@.wf(board@),
                deduce(self.to_analyze@, board@) == deduce(old(self)@.to_analyze, board@),
                self.to_open@ == old(self)@.to_open,
                self.status == old(self)@.status,
            decreases self.to_analyze@.len(),
        {
            let ghost before = self.to_analyze@;
            let t = self.to_analyze.pop().unwrap();
            proof {
                assert(t == before[before.len() - 1]);
                assert(board@.has(t.0 as int, t.1 as int));
                assert forall|j: int| 0 <= j < self@.to_analyze.len() implies board@.has(
                    #[trigger] self@.to_analyze[j].0 as int,
                    self@.to_analyze[j].1 as int,
                ) by {
                    assert(self@.to_analyze[j] == before[j]);
                }
            }
            let (count, last) = count_unrevealed(board, t);
            if count == 1 {
                self.to_analyze.clear();
                return Some(last);
            }
        }
        proof {
            assert(self.to_analyze@ =~= Seq::<(i32, i32)>::empty());
        }
        None
    }
}

} // verus!

verus! {

/// How many of the first `k` tiles of `row` are unrevealed.
pub open spec fn row_unrevealed(row: Seq<TileView>, k: nat) -> nat
    decreases k,
{
    if k == 0 {
        0
    } else {
        row_unrevealed(row, (k - 1) as nat) + if row[k - 1].value == UNREVEALED {
            1nat
        } else {
            0nat
        }
    }
}

/// How many tiles of the first `k` rows of `tiles` are unrevealed.
pub open spec fn rows_unrevealed(tiles: Seq<Seq<TileView>>, k: nat) -> nat
    decreases k,
{
    if k == 0 {
        0
    } else {
        rows_unrevealed(tiles, (k - 1) as nat) + row_unrevealed(tiles[k - 1], tiles[k - 1].len())
    }
}

/// How many tiles of `b` are unrevealed.
pub open spec fn unrevealed_total(b: BoardView) -> nat {
    rows_unrevealed(b.tiles, b.tiles.len())
}

proof fn lemma_row_unrevealed_update(row: Seq<TileView>, c: int, t: TileView, k: nat)
    requires
        0 <= c < row.len(),
        k <= row.len(),
    ensures
        row_unrevealed(row.update(c, t), k) + (if c < k && row[c].value == UNREVEALED { 1int } else { 0int })
            == row_unrevealed(row, k) + (if c < k && t.value == UNREVEALED { 1int } else { 0int }),
    decreases k,
{
    if k > 0 {
        lemma_row_unrevealed_update(row, c, t, (k - 1) as nat);
    }
}

proof fn lemma_rows_unrevealed_update(tiles: Seq<Seq<TileView>>, r: int, row: Seq<TileView>, k: nat)
    requires
        0 <= r < tiles.len(),
        k <= tiles.len(),
    ensures
        rows_unrevealed(tiles.update(r, row), k) + (if r < k { row_unrevealed(tiles[r], tiles[r].len()) as int } else { 0int })
            == rows_unrevealed(tiles, k) + (if r < k { row_unrevealed(row, row.len()) as int } else { 0int }),
    decreases k,
{
    if k > 0 {
        lemma_rows_unrevealed_update(tiles, r, row, (k - 1) as nat);
    }
}

/// Showing a value other than the unrevealed mark on an unrevealed tile leaves
/// one unrevealed tile fewer.
proof fn lemma_reveal_counts(b: BoardView, r: int, c: int, v: i32)
    requires
        b.wf(),
        b.has(r, c),
        b.tile(r, c).value == UNREVEALED,
        v != UNREVEALED,
    ensures
        unrevealed_total(b.with_value(r, c, v)) + 1 == unrevealed_total(b),
{
    let row = b.tiles[r];
    let t = TileView { value: v, ..row[c] };
    lemma_row_unrevealed_update(row, c, t, row.len());
    lemma_rows_unrevealed_update(b.tiles, r, row.update(c, t), b.tiles.len());
}

/// The last unrevealed one of the first `k` of `nbrs`, where there is one, is
/// unrevealed and among them.
proof fn lemma_last_unrevealed(nbrs: Seq<(i32, i32)>, k: nat, b: BoardView)
    requires
        k <= nbrs.len(),
        unrevealed_count(nbrs, k, b) > 0,
    ensures
        unrevealed(b, last_unrevealed(nbrs, k, b)),
        exists|j: int| 0 <= j < k && nbrs[j] == last_unrevealed(nbrs, k, b),
    decreases k,
{
    if !unrevealed(b, nbrs[k - 1]) {
        lemma_last_unrevealed(nbrs, (k - 1) as nat, b);
        let j = choose|j: int| 0 <= j < k - 1 && nbrs[j] == last_unrevealed(nbrs, (k - 1) as nat, b);
        assert(nbrs[j] == last_unrevealed(nbrs, k, b));
    } else {
        assert(nbrs[k - 1] == last_unrevealed(nbrs, k, b));
    }
}

/// A mine deduced from tiles of a well-formed board is an unrevealed tile of it.
proof fn lemma_deduced_on_board(stack: Seq<(i32, i32)>, b: BoardView)
    requires
        b.wf(),
        all_on(stack, b),
    ensures
        deduce(stack, b) matches Some(m) ==> b.has(m.0 as int, m.1 as int) && unrevealed(b, m),
    decreases stack.len(),
{
    if stack.len() > 0 {
        let t = stack.last();
        assert(b.has(stack[stack.len() - 1].0 as int, stack[stack.len() - 1].1 as int));
        if single_candidate(b, t) {
            let nb = neighbours_at(b, t);
            lemma_last_unrevealed(nb, nb.len(), b);
            lemma_board_neighbours(b, t.0 as int, t.1 as int);
            let j = choose|j: int| 0 <= j < nb.len() && nb[j] == last_unrevealed(nb, nb.len(), b);
            assert(in_bounds(nb[j], b.height(), b.width()));
        } else {
            let rest = stack.drop_last();
            assert forall|i: int| 0 <= i < rest.len() implies b.has(#[trigger] rest[i].0 as int, rest[i].1 as int) by {
                assert(rest[i] == stack[i]);
            }
            lemma_deduced_on_board(rest, b);
        }
    }
}

/// Flagging a tile leaves the number of unrevealed tiles as it was.
proof fn lemma_flag_counts(b: BoardView, r: int, c: int)
    requires
        b.wf(),
        b.has(r, c),
    ensures
        unrevealed_total(b.with_mine(r, c)) == unrevealed_total(b),
{
    let row = b.tiles[r];
    let t = TileView { mine: true, ..row[c] };
    lemma_row_unrevealed_update(row, c, t, row.len());
    lemma_rows_unrevealed_update(b.tiles, r, row.update(c, t), b.tiles.len());
}

/// The solver's exploration bookkeeping on `b`: the tiles waiting to be
/// opened are unrevealed and none waits twice, and the tile being opened is
/// unrevealed and not waiting too.
pub open spec fn explore_ok(s: SolverView, b: BoardView) -> bool {
    &&& forall|i: int| 0 <= i < s.to_open.len() ==> unrevealed(b, #[trigger] s.to_open[i])
    &&& s.to_open.no_duplicates()
    &&& match s.status {
        Status::Opening(r, c) => unrevealed(b, (r, c)) && !s.to_open.contains((r, c)),
        _ => true,
    }
}

proof fn lemma_schedule_ok(stack: Seq<(i32, i32)>, nbrs: Seq<(i32, i32)>, k: nat, b: BoardView)
    requires
        k <= nbrs.len(),
        forall|i: int| 0 <= i < stack.len() ==> unrevealed(b, #[trigger] stack[i]),
        stack.no_duplicates(),
    ensures
        forall|i: int| 0 <= i < schedule(stack, nbrs, k, b).len() ==> unrevealed(b, #[trigger] schedule(stack, nbrs, k, b)[i]),
        schedule(stack, nbrs, k, b).no_duplicates(),
    decreases k,
{
    if k > 0 {
        lemma_schedule_ok(stack, nbrs, (k - 1) as nat, b);
        let s = schedule(stack, nbrs, (k - 1) as nat, b);
        let n = nbrs[k - 1];
        if unrevealed(b, n) && !s.contains(n) {
            let s1 = s.push(n);
            assert forall|i: int| 0 <= i < s1.len() implies unrevealed(b, #[trigger] s1[i]) by {
                if i < s.len() {
                    assert(s1[i] == s[i]);
                }
            }
            assert forall|i: int, j: int| 0 <= i < j < s1.len() implies s1[i] != s1[j] by {
                if j == s.len() {
                    assert(s1[i] == s[i]);
                    assert(s.contains(s1[i]));
                } else {
                    assert(s1[i] == s[i] && s1[j] == s[j]);
                }
            }
        }
    }
}

/// Exploration ends. The bookkeeping holds at the start, and every step keeps
/// it, whatever happened; and each tile opened that shows a value leaves one
/// tile fewer unrevealed, so no more tiles are opened than the board holds.
pub proof fn lemma_exploration_terminates(s: SolverView, g: GameView, e: Event)
    requires
        g.wf(),
        s.wf(g.board),
        explore_ok(s, g.board),
    ensures
        (g.board.has(0, 0) ==> unrevealed(g.board, (0, 0))) ==> explore_ok(start(g.board), g.board),
        explore_ok(next(s, g, e).0, next(s, g, e).1.board),
        s.status is Opening ==> (e matches Event::Opened(v) ==> (v != UNREVEALED ==> unrevealed_total(
            next(s, g, e).1.board,
        ) + 1 == unrevealed_total(g.board))),
{
    let b0 = g.board;
    assert(start(b0).to_open.no_duplicates());
    match s.status {
        Status::Opening(r, c) => {
            if let Event::Opened(v) = e {
                let g1 = g.with_value((r, c), v);
                let b1 = g1.board;
                assert forall|i: int| 0 <= i < s.to_open.len() implies unrevealed(b1, #[trigger] s.to_open[i]) by {
                    assert(unrevealed(b0, s.to_open[i]));
                    assert(s.to_open[i] != (r, c));
                }
                let s1 = after_open(s, b1, (r, c), v);
                if v == 0 {
                    let nb = neighbours_at(b1, (r, c));
                    lemma_schedule_ok(s.to_open, nb, nb.len(), b1);
                }
                assert(forall|i: int| 0 <= i < s1.to_open.len() ==> unrevealed(b1, #[trigger] s1.to_open[i]));
                if s1.to_open.len() > 0 {
                    let rest = s1.to_open.drop_last();
                    let p = s1.to_open.last();
                    assert forall|i: int| 0 <= i < rest.len() implies unrevealed(b1, #[trigger] rest[i]) by {
                        assert(rest[i] == s1.to_open[i]);
                    }
                    assert(unrevealed(b1, s1.to_open[s1.to_open.len() - 1]));
                    assert forall|i: int, j: int| 0 <= i < j < rest.len() implies rest[i] != rest[j] by {
                        assert(rest[i] == s1.to_open[i] && rest[j] == s1.to_open[j]);
                    }
                    assert(!rest.contains(p)) by {
                        if rest.contains(p) {
                            let i = choose|i: int| 0 <= i < rest.len() && rest[i] == p;
                            assert(s1.to_open[i] == s1.to_open[s1.to_open.len() - 1]);
                        }
                    }
                }
                if v != UNREVEALED {
                    lemma_reveal_counts(b0, r as int, c as int, v);
                    if s1.to_open.len() == 0 && !g1.budget_reached() {
                        if let Some(m) = deduce(s1.to_analyze, b1) {
                            lemma_deduced_on_board(s1.to_analyze, b1);
                            lemma_flag_counts(b1, m.0 as int, m.1 as int);
                        }
                    }
                }
            }
        },
        _ => {},
    }
    if s.to_open.len() > 0 {
        let rest = s.to_open.drop_last();
        let p = s.to_open.last();
        assert forall|i: int| 0 <= i < rest.len() implies unrevealed(b0, #[trigger] rest[i]) by {
            assert(rest[i] == s.to_open[i]);
        }
        assert(unrevealed(b0, s.to_open[s.to_open.len() - 1]));
        assert forall|i: int, j: int| 0 <= i < j < rest.len() implies rest[i] != rest[j] by {
            assert(rest[i] == s.to_open[i] && rest[j] == s.to_open[j]);
        }
        assert(!rest.contains(p)) by {
            if rest.contains(p) {
                let i = choose|i: int| 0 <= i < rest.len() && rest[i] == p;
                assert(s.to_open[i] == s.to_open[s.to_open.len() - 1]);
            }
        }
    }
}

} // verus!

verus! {

/// The deduction weighs only how many neighbours are unrevealed, never the
/// value shown: when nothing waits to be opened and the tile on top of the
/// analysis stack has exactly one unrevealed neighbour, that neighbour is
/// flagged and added to the mines found, whatever value the tile shows.
pub proof fn lemma_single_candidate_flagged(s: SolverView, g: GameView)
    requires
        g.wf(),
        s.wf(g.board),
        s.status == Status::Ready,
        s.to_open.len() == 0,
        !g.budget_reached(),
        s.to_analyze.len() > 0,
        single_candidate(g.board, s.to_analyze.last()),
    ensures
        ({
            let nb = neighbours_at(g.board, s.to_analyze.last());
            let m = last_unrevealed(nb, nb.len(), g.board);
            let (s1, g1, a) = next(s, g, Event::Start);
            &&& nb.contains(m)
            &&& unrevealed(g.board, m)
            &&& g1 == g.with_mine(m)
            &&& g1.board.tile(m.0 as int, m.1 as int).mine
            &&& g1.found.contains(m)
            &&& s1.to_analyze.len() == 0
        }),
{
    let nb = neighbours_at(g.board, s.to_analyze.last());
    let m = last_unrevealed(nb, nb.len(), g.board);
    lemma_last_unrevealed(nb, nb.len(), g.board);
    lemma_deduced_on_board(s.to_analyze, g.board);
    let g1 = g.with_mine(m);
    if !g.found.contains(m) {
        assert(g1.found[g.found.len() as int] == m);
    }
}

/// Once the mines found reach the budget, no tile is opened and none is
/// flagged: a step that flags the last mine of the budget asks to submit, and
/// from then on, whatever happens, the session stays as it is and no tile is
/// asked to be opened.
pub proof fn lemma_budget_stops(s: SolverView, g: GameView, e: Event)
    requires
        g.wf(),
        s.wf(g.board),
    ensures
        (next(s, g, e).1.found.len() > g.found.len() && next(s, g, e).1.budget_reached()) ==> (next(s, g, e).2
            == Action::Submit && next(s, g, e).0.status == Status::Submitting),
        (s.status == Status::Submitting || s.status == Status::Terminal) ==> ({
            let (s1, g1, a) = next(s, g, e);
            &&& g1 == g
            &&& !(a is Open)
            &&& (s1.status == Status::Submitting || s1.status == Status::Terminal)
        }),
{
}

/// A failure ends solving: the session keeps all it learnt before, so tiles
/// opened stay opened, and no later step changes anything or asks for work.
pub proof fn lemma_failure_ends(s: SolverView, g: GameView, later: Event)
    ensures
        next(s, g, Event::Failed).1 == g,
        next(s, g, Event::Failed).2 == Action::Finished,
        next(s, g, Event::Failed).0.status == Status::Terminal,
        next(next(s, g, Event::Failed).0, g, later) == (next(s, g, Event::Failed).0, g, Action::Finished),
{
}

} // verus!
