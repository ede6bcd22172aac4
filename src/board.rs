//! The board: a rectangular grid of tiles, each with its revealed value, its
//! mine flag and the fixed list of its in-bounds 8-connected neighbours.

use vstd::prelude::*;
use array2d::Array2D;

use crate::grid::{
    grid_cells, grid_dims, grid_filled, grid_get, grid_num_columns, grid_num_rows, grid_set,
    grid_shaped, piece_model, PieceModel,
};

verus! {

/// The value of a tile that has not been opened yet.
pub const UNREVEALED: i32 = -1;

/// The largest number of tiles a board may hold.
pub const MAX_TILES: usize = 16777216;

/// One stored tile: its position, its value, its mine flag and its neighbours.
#[derive(Clone)]
pub struct BoardPiece {
    pub row: i32,
    pub column: i32,
    pub value: i32,
    pub mine: bool,
    pub neighbours: Vec<(i32, i32)>,
}

impl BoardPiece {
    /// A blank piece at the origin, with value zero and no neighbours.
    pub fn new() -> (p: BoardPiece)
        ensures
            p.row == 0,
            p.column == 0,
            p.value == 0,
            !p.mine,
            p.neighbours@ == Seq::<(i32, i32)>::empty(),
    {
        BoardPiece { row: 0, column: 0, value: 0, mine: false, neighbours: Vec::new() }
    }
}

/// What a tile shows: its value, whether it is flagged as a mine, and its
/// neighbours.
pub struct TileView {
    pub value: i32,
    pub mine: bool,
    pub neighbours: Seq<(i32, i32)>,
}

/// The model of a board: the size it was last given, and its tiles row by row.
pub struct BoardView {
    pub rows: i32,
    pub columns: i32,
    pub tiles: Seq<Seq<TileView>>,
}

/// The eight cells around (`r`, `c`), in the order the board lists them.
pub open spec fn candidates(r: i32, c: i32) -> Seq<(i32, i32)> {
    seq![
        ((r - 1) as i32, (c + 1) as i32),
        ((r - 1) as i32, c),
        ((r - 1) as i32, (c - 1) as i32),
        (r, (c + 1) as i32),
        (r, (c - 1) as i32),
        ((r + 1) as i32, (c + 1) as i32),
        ((r + 1) as i32, c),
        ((r + 1) as i32, (c - 1) as i32),
    ]
}

/// Whether `p` lies on a board of `h` rows and `w` columns.
pub open spec fn in_bounds(p: (i32, i32), h: int, w: int) -> bool {
    0 <= p.0 < h && 0 <= p.1 < w
}

/// The first `k` entries of `s` that lie on an `h` by `w` board, in order.
pub open spec fn clip(s: Seq<(i32, i32)>, k: nat, h: int, w: int) -> Seq<(i32, i32)>
    decreases k,
{
    if k == 0 {
        Seq::empty()
    } else {
        let rest = clip(s, (k - 1) as nat, h, w);
        if in_bounds(s[k - 1], h, w) {
            rest.push(s[k - 1])
        } else {
            rest
        }
    }
}

/// The neighbours of (`r`, `c`) on an `h` by `w` board.
pub open spec fn neighbours_of(r: i32, c: i32, h: int, w: int) -> Seq<(i32, i32)> {
    clip(candidates(r, c), 8, h, w)
}

/// The tile at (`r`, `c`) of a freshly built `h` by `w` board.
pub open spec fn fresh_tile(r: int, c: int, h: int, w: int) -> TileView {
    TileView { value: UNREVEALED, mine: false, neighbours: neighbours_of(r as i32, c as i32, h, w) }
}

/// The board that building at `rows` by `columns` yields.
pub open spec fn fresh_board(rows: i32, columns: i32) -> BoardView {
    BoardView {
        rows,
        columns,
        tiles: Seq::new(
            rows as nat,
            |r: int| Seq::new(columns as nat, |c: int| fresh_tile(r, c, rows as int, columns as int)),
        ),
    }
}

impl BoardView {
    /// The number of rows of tiles.
    pub open spec fn height(self) -> int {
        self.tiles.len() as int
    }

    /// The number of columns of tiles.
    pub open spec fn width(self) -> int {
        if self.tiles.len() > 0 {
            self.tiles[0].len() as int
        } else {
            0
        }
    }

    /// Whether (`r`, `c`) is a tile of this board.
    pub open spec fn has(self, r: int, c: int) -> bool {
        0 <= r < self.height() && 0 <= c < self.width()
    }

    /// The tile at (`r`, `c`).
    pub open spec fn tile(self, r: int, c: int) -> TileView {
        self.tiles[r][c]
    }

    /// The value shown at position `p`.
    pub open spec fn value_at(self, p: (i32, i32)) -> i32 {
        self.tiles[p.0 as int][p.1 as int].value
    }

    /// The tiles form a rectangle and each lists exactly its neighbours.
    pub open spec fn wf(self) -> bool {
        &&& self.height() <= i32::MAX
        &&& self.width() <= i32::MAX
        &&& forall|r: int| 0 <= r < self.height() ==> #[trigger] self.tiles[r].len() == self.width()
        &&& forall|r: int, c: int|
            self.has(r, c) ==> (#[trigger] self.tiles[r][c]).neighbours == neighbours_of(
                r as i32,
                c as i32,
                self.height(),
                self.width(),
            )
    }

    /// This board with the value at (`r`, `c`) set to `v`.
    pub open spec fn with_value(self, r: int, c: int, v: i32) -> BoardView {
        BoardView {
            tiles: self.tiles.update(r, self.tiles[r].update(c, TileView { value: v, ..self.tiles[r][c] })),
            ..self
        }
    }

    /// This board with the tile at (`r`, `c`) flagged as a mine.
    pub open spec fn with_mine(self, r: int, c: int) -> BoardView {
        BoardView {
            tiles: self.tiles.update(r, self.tiles[r].update(c, TileView { mine: true, ..self.tiles[r][c] })),
            ..self
        }
    }
}

/// The model of a stored piece, without its position.
pub open spec fn tile_of(p: PieceModel) -> TileView {
    TileView { value: p.2, mine: p.3, neighbours: p.4 }
}

/// The stored piece at (`r`, `c`) of a freshly built `h` by `w` board.
pub open spec fn fresh_piece(r: int, c: int, h: int, w: int) -> PieceModel {
    (r as i32, c as i32, UNREVEALED, false, neighbours_of(r as i32, c as i32, h, w))
}

/// The stored piece a grid is first filled with.
pub open spec fn blank_piece() -> PieceModel {
    (0, 0, 0, false, Seq::empty())
}

/// A copy of a list of positions.
pub(crate) fn copy_positions(v: &Vec<(i32, i32)>) -> (r: Vec<(i32, i32)>)
    ensures
        r@ == v@,
{
    let mut r: Vec<(i32, i32)> = Vec::new();
    let mut i: usize = 0;
    while i < v.len()
        invariant
            i <= v@.len(),
            r@ == v@.subrange(0, i as int),
        decreases v@.len() - i,
    {
        r.push(v[i]);
        i = i + 1;
        assert(r@ =~= v@.subrange(0, i as int));
    }
    assert(v@.subrange(0, v@.len() as int) =~= v@);
    r
}

/// A rectangular grid of tiles.
pub struct Board {
    rows: i32,
    columns: i32,
    board: Array2D<BoardPiece>,
}

impl View for Board {
    type V = BoardView;

    closed spec fn view(&self) -> BoardView {
        let g = grid_cells(self.board);
        let d = grid_dims(self.board);
        BoardView {
            rows: self.rows,
            columns: self.columns,
            tiles: Seq::new(d.0 as nat, |r: int| Seq::new(d.1 as nat, |c: int| tile_of(g[r][c]))),
        }
    }
}

impl Board {
    /// The storage has the shape of the board and each piece knows its place.
    pub closed spec fn stored_ok(&self) -> bool {
        let g = grid_cells(self.board);
        let d = grid_dims(self.board);
        &&& grid_shaped(self.board)
        &&& d.0 <= i32::MAX
        &&& d.1 <= i32::MAX
        &&& forall|r: int, c: int|
            0 <= r < d.0 && 0 <= c < d.1 ==> (#[trigger] g[r][c]).0 == r && g[r][c].1 == c
    }

    /// The board's invariant.
    pub open spec fn wf(&self) -> bool {
        self.stored_ok() && self@.wf()
    }

    proof fn lemma_view_shape(&self)
        requires
            grid_shaped(self.board),
        ensures
            self@.height() == grid_dims(self.board).0,
            grid_dims(self.board).0 > 0 ==> self@.width() == grid_dims(self.board).1,
            forall|r: int| 0 <= r < self@.height() ==> #[trigger] self@.tiles[r].len() == grid_dims(self.board).1,
            forall|r: int, c: int|
                0 <= r < grid_dims(self.board).0 && 0 <= c < grid_dims(self.board).1 ==> #[trigger] self@.tiles[r][c]
                    == tile_of(grid_cells(self.board)[r][c]),
    {
    }

    /// The tiles listed as neighbours of (`row`, `column`) on a board of the
    /// size last given: the eight surrounding cells, clipped to the board.
    fn build_neighbours(&self, row: i32, column: i32) -> (r: Vec<(i32, i32)>)
        requires
            0 <= row < self.rows,
            0 <= column < self.columns,
        ensures
            r@ == neighbours_of(row, column, self.rows as int, self.columns as int),
    {
        let mut init_neighbours: Vec<(i32, i32)> = Vec::new();
        init_neighbours.push((row - 1, column + 1));
        init_neighbours.push((row - 1, column));
        init_neighbours.push((row - 1, column - 1));
        init_neighbours.push((row, column + 1));
        init_neighbours.push((row, column - 1));
        init_neighbours.push((row + 1, column + 1));
        init_neighbours.push((row + 1, column));
        init_neighbours.push((row + 1, column - 1));
        assert(init_neighbours@ =~= candidates(row, column));

        let mut neighbours: Vec<(i32, i32)> = Vec::new();
        let mut i: usize = 0;
        while i < init_neighbours.len()
            invariant
                0 <= row < self.rows,
                0 <= column < self.columns,
                init_neighbours@ == candidates(row, column),
                0 <= i <= 8,
                neighbours@ == clip(candidates(row, column), i as nat, self.rows as int, self.columns as int),
            decreases 8 - i,
        {
            let n = init_neighbours[i];
            if !(n.0 < 0 || n.0 > self.rows - 1 || n.1 < 0 || n.1 > self.columns - 1) {
                neighbours.push(n);
            }
            i = i + 1;
        }
        neighbours
    }

    /// Replaces the whole grid by one of the size last given, every tile
    /// unrevealed, not flagged, and listing its neighbours.
    pub fn build(&mut self)
        requires
            old(self)@.rows >= 0,
            old(self)@.columns >= 0,
            old(self)@.rows * old(self)@.columns <= MAX_TILES,
        ensures
            final(self).wf(),
            final(self)@ == fresh_board(old(self)@.rows, old(self)@.columns),
    {
        self.board = grid_filled(BoardPiece::new(), self.rows as usize, self.columns as usize);
        let n_rows = grid_num_rows(&self.board);
        let n_columns = grid_num_columns(&self.board);
        let ghost h = self.rows as int;
        let ghost w = self.columns as int;
        let mut row: usize = 0;
        while row < n_rows
            invariant
                self.rows == old(self).rows,
                self.columns == old(self).columns,
                h == self.rows,
                w == self.columns,
                n_rows == h,
                n_columns == w,
                grid_dims(self.board) == (n_rows, n_columns),
                grid_shaped(self.board),
                row <= n_rows,
                forall|r: int, c: int|
                    0 <= r < n_rows && 0 <= c < n_columns ==> #[trigger] grid_cells(self.board)[r][c] == if r < row {
                        fresh_piece(r, c, h, w)
                    } else {
                        blank_piece()
                    },
            decreases n_rows - row,
        {
            let mut column: usize = 0;
            while column < n_columns
                invariant
                    self.rows == old(self).rows,
                    self.columns == old(self).columns,
                    h == self.rows,
                    w == self.columns,
                    n_rows == h,
                    n_columns == w,
                    grid_dims(self.board) == (n_rows, n_columns),
                    grid_shaped(self.board),
                    row < n_rows,
                    column <= n_columns,
                    forall|r: int, c: int|
                        0 <= r < n_rows && 0 <= c < n_columns ==> #[trigger] grid_cells(self.board)[r][c] == if r
                            < row || (r == row && c < column) {
                            fresh_piece(r, c, h, w)
                        } else {
                            blank_piece()
                        },
                decreases n_columns - column,
            {
                let neighbours = self.build_neighbours(row as i32, column as i32);
                let piece = BoardPiece {
                    row: row as i32,
                    column: column as i32,
                    value: UNREVEALED,
                    mine: false,
                    neighbours,
                };
                let _ = grid_set(&mut self.board, row, column, piece);
                column = column + 1;
            }
            row = row + 1;
        }
        proof {
            self.lemma_view_shape();
            assert(self@.tiles =~~= fresh_board(h as i32, w as i32).tiles);
        }
    }

    /// Whether (`row`, `column`) is a tile of the board.
    pub fn has_tile(&self, row: usize, column: usize) -> (r: bool)
        requires
            self.wf(),
        ensures
            r == self@.has(row as int, column as int),
    {
        proof {
            self.lemma_view_shape();
        }
        row < grid_num_rows(&self.board) && column < grid_num_columns(&self.board)
    }

    /// The value shown at (`row`, `column`).
    pub fn get_tile_value(&self, row: usize, column: usize) -> (v: i32)
        requires
            self.wf(),
            self@.has(row as int, column as int),
        ensures
            v == self@.tile(row as int, column as int).value,
    {
        proof {
            self.lemma_view_shape();
        }
        grid_get(&self.board, row, column).unwrap().value
    }

    /// Whether the tile at (`row`, `column`) is flagged as a mine.
    pub fn is_mine(&self, row: usize, column: usize) -> (m: bool)
        requires
            self.wf(),
            self@.has(row as int, column as int),
        ensures
            m == self@.tile(row as int, column as int).mine,
    {
        proof {
            self.lemma_view_shape();
        }
        grid_get(&self.board, row, column).unwrap().mine
    }

    /// A copy of the neighbours of (`row`, `column`).
    pub fn get_neighbours(&self, row: usize, column: usize) -> (n: Vec<(i32, i32)>)
        requires
            self.wf(),
            self@.has(row as int, column as int),
        ensures
            n@ == self@.tile(row as int, column as int).neighbours,
    {
        proof {
            self.lemma_view_shape();
        }
        copy_positions(&grid_get(&self.board, row, column).unwrap().neighbours)
    }

    /// Stores `piece` at (`row`, `column`) in place of a piece with the same
    /// position and neighbours.
    fn replace_piece(&mut self, row: usize, column: usize, piece: BoardPiece)
        requires
            old(self).wf(),
            old(self)@.has(row as int, column as int),
            piece.row == row,
            piece.column == column,
            piece.neighbours@ == old(self)@.tile(row as int, column as int).neighbours,
        ensures
            final(self).wf(),
            final(self)@ == (BoardView {
                tiles: old(self)@.tiles.update(
                    row as int,
                    old(self)@.tiles[row as int].update(column as int, tile_of(piece_model(piece))),
                ),
                ..old(self)@
            }),
    {
        proof {
            self.lemma_view_shape();
        }
        let ghost before = self@;
        let _ = grid_set(&mut self.board, row, column, piece);
        proof {
            self.lemma_view_shape();
            assert(self@.tiles =~~= before.tiles.update(
                row as int,
                before.tiles[row as int].update(column as int, tile_of(piece_model(piece))),
            ));
        }
    }

    /// Flags the tile at (`row`, `column`) as a mine; its value stays.
    pub fn mark_mine(&mut self, row: usize, column: usize)
        requires
            old(self).wf(),
            old(self)@.has(row as int, column as int),
        ensures
            final(self).wf(),
            final(self)@ == old(self)@.with_mine(row as int, column as int),
    {
        proof {
            self.lemma_view_shape();
        }
        let old_piece = grid_get(&self.board, row, column).unwrap();
        let piece = BoardPiece {
            row: old_piece.row,
            column: old_piece.column,
            value: old_piece.value,
            mine: true,
            neighbours: copy_positions(&old_piece.neighbours),
        };
        self.replace_piece(row, column, piece);
    }

    /// Sets the value shown at (`row`, `column`).
    pub fn set_value(&mut self, row: usize, column: usize, value: i32)
        requires
            old(self).wf(),
            old(self)@.has(row as int, column as int),
        ensures
            final(self).wf(),
            final(self)@ == old(self)@.with_value(row as int, column as int, value),
    {
        proof {
            self.lemma_view_shape();
        }
        let old_piece = grid_get(&self.board, row, column).unwrap();
        let piece = BoardPiece {
            row: old_piece.row,
            column: old_piece.column,
            value,
            mine: old_piece.mine,
            neighbours: copy_positions(&old_piece.neighbours),
        };
        self.replace_piece(row, column, piece);
    }

    /// Records the size the next `build` uses; the tiles stay as they are.
    pub fn set_size(&mut self, rows: i32, columns: i32)
        requires
            old(self).wf(),
        ensures
            final(self).wf(),
            final(self)@ == (BoardView { rows, columns, ..old(self)@ }),
    {
        self.rows = rows;
        self.columns = columns;
        proof {
            assert(self@.tiles =~~= old(self)@.tiles);
        }
    }

    /// An empty board of size zero.
    pub fn new() -> (b: Board)
        ensures
            b.wf(),
            b@.rows == 0,
            b@.columns == 0,
            b@.tiles.len() == 0,
    {
        Board { rows: 0, columns: 0, board: grid_filled(BoardPiece::new(), 0, 0) }
    }
}

} // verus!

verus! {

/// What holds of the neighbour list of (`r`, `c`) on an `h` by `w` board.
pub open spec fn neighbour_list_ok(n: Seq<(i32, i32)>, r: int, c: int, h: int, w: int) -> bool {
    &&& forall|i: int|
        0 <= i < n.len() ==> in_bounds(#[trigger] n[i], h, w) && -1 <= n[i].0 - r <= 1 && -1 <= n[i].1 - c
            <= 1 && !(n[i].0 == r && n[i].1 == c)
    &&& n.no_duplicates()
    &&& h >= 2 && w >= 2 ==> n.len() == if (r == 0 || r == h - 1) && (c == 0 || c == w - 1) {
        3int
    } else if r == 0 || r == h - 1 || c == 0 || c == w - 1 {
        5int
    } else {
        8int
    }
}

proof fn lemma_neighbours_of_ok(r: i32, c: i32, h: int, w: int)
    requires
        0 <= r < h <= i32::MAX,
        0 <= c < w <= i32::MAX,
    ensures
        neighbour_list_ok(neighbours_of(r, c, h, w), r as int, c as int, h, w),
{
    reveal_with_fuel(clip, 9);
    let n = neighbours_of(r, c, h, w);
    assert(n.no_duplicates());
}

/// Every tile of a well-formed board lists as neighbours only cells of the
/// board that touch it, none twice and never itself. On a board of at least two
/// rows and two columns a corner tile has three neighbours, another tile on an
/// edge five, and an inner tile eight.
pub proof fn lemma_board_neighbours(b: BoardView, r: int, c: int)
    requires
        b.wf(),
        b.has(r, c),
    ensures
        neighbour_list_ok(b.tile(r, c).neighbours, r, c, b.height(), b.width()),
{
    lemma_neighbours_of_ok(r as i32, c as i32, b.height(), b.width());
}

} // verus!

verus! {

/// Building again at the same size undoes every change made since: the board
/// built from `changed`, whatever its tiles show, equals the board first built
/// at that size, and shows every tile unrevealed and not flagged.
pub proof fn lemma_build_resets(rows: i32, columns: i32, changed: BoardView)
    requires
        rows >= 0,
        columns >= 0,
        changed.rows == rows,
        changed.columns == columns,
    ensures
        fresh_board(changed.rows, changed.columns) == fresh_board(rows, columns),
        forall|r: int, c: int|
            0 <= r < rows && 0 <= c < columns ==> (#[trigger] fresh_board(rows, columns).tile(r, c)).value
                == UNREVEALED && !fresh_board(rows, columns).tile(r, c).mine,
{
}

} // verus!
