//! The two-dimensional storage of the board: `array2d::Array2D`, seen by the
//! verifier through its dimensions and its contents, row by row.

use vstd::prelude::*;
use array2d::Array2D;

use crate::board::BoardPiece;

verus! {

#[verifier::external_type_specification]
#[verifier::external_body]
#[verifier::reject_recursive_types(T)]
pub struct ExArray2D<T>(array2d::Array2D<T>);

#[verifier::external_type_specification]
#[verifier::external_body]
pub struct ExArray2DError(array2d::Error);

/// What a stored piece holds: (row, column, value, mine, neighbours).
pub type PieceModel = (i32, i32, i32, bool, Seq<(i32, i32)>);

/// The model of one stored piece.
pub open spec fn piece_model(p: BoardPiece) -> PieceModel {
    (p.row, p.column, p.value, p.mine, p.neighbours@)
}

/// The contents of a grid of pieces, as a sequence of rows.
pub uninterp spec fn grid_cells(g: Array2D<BoardPiece>) -> Seq<Seq<PieceModel>>;

/// The dimensions a grid of pieces was made with: (rows, columns).
pub uninterp spec fn grid_dims(g: Array2D<BoardPiece>) -> (usize, usize);

/// A grid whose contents have the shape of its dimensions.
pub open spec fn grid_shaped(g: Array2D<BoardPiece>) -> bool {
    &&& grid_cells(g).len() == grid_dims(g).0
    &&& forall|r: int| 0 <= r < grid_cells(g).len() ==> #[trigger] grid_cells(g)[r].len() == grid_dims(g).1
}

/// Relies on `Array2D::filled_with`: a `rows` by `columns` grid holding a clone of
/// `piece` everywhere. It allocates `rows * columns` pieces, which the bound keeps
/// from overflowing.
#[verifier::external_body]
pub(crate) fn grid_filled(piece: BoardPiece, rows: usize, columns: usize) -> (g: Array2D<BoardPiece>)
    requires
        rows * columns <= crate::board::MAX_TILES,
    ensures
        grid_dims(g) == (rows, columns),
        grid_cells(g) == Seq::new(rows as nat, |r: int| Seq::new(columns as nat, |c: int| piece_model(piece))),
{
    Array2D::filled_with(piece, rows, columns)
}

/// Relies on `Array2D::num_rows`: the number of rows the grid was made with.
#[verifier::external_body]
pub(crate) fn grid_num_rows(g: &Array2D<BoardPiece>) -> (n: usize)
    ensures
        n == grid_dims(*g).0,
{
    g.num_rows()
}

/// Relies on `Array2D::num_columns`: the number of columns the grid was made with.
#[verifier::external_body]
pub(crate) fn grid_num_columns(g: &Array2D<BoardPiece>) -> (n: usize)
    ensures
        n == grid_dims(*g).1,
{
    g.num_columns()
}

/// Relies on `Array2D::get`: the piece at (`row`, `column`) when both are in
/// bounds, `None` otherwise.
#[verifier::external_body]
pub(crate) fn grid_get(g: &Array2D<BoardPiece>, row: usize, column: usize) -> (r: Option<&BoardPiece>)
    ensures
        (row < grid_dims(*g).0 && column < grid_dims(*g).1) <==> r.is_some(),
        r.is_some() ==> piece_model(*r.unwrap()) == grid_cells(*g)[row as int][column as int],
{
    g.get(row, column)
}

/// Relies on `Array2D::set`: stores `piece` at (`row`, `column`) when both are in
/// bounds, and fails leaving the grid as it was otherwise.
#[verifier::external_body]
pub(crate) fn grid_set(g: &mut Array2D<BoardPiece>, row: usize, column: usize, piece: BoardPiece) -> (r: Result<(), array2d::Error>)
    ensures
        grid_dims(*final(g)) == grid_dims(*old(g)),
        (row < grid_dims(*old(g)).0 && column < grid_dims(*old(g)).1) <==> r.is_ok(),
        r.is_ok() ==> grid_cells(*final(g)) == grid_cells(*old(g)).update(
            row as int,
            grid_cells(*old(g))[row as int].update(column as int, piece_model(piece)),
        ),
        r.is_err() ==> grid_cells(*final(g)) == grid_cells(*old(g)),
{
    g.set(row, column, piece)
}

} // verus!
