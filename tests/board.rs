use minesweeper::board::{Board, BoardPiece, UNREVEALED};

fn built(rows: i32, columns: i32) -> Board {
    let mut b = Board::new();
    b.set_size(rows, columns);
    b.build();
    b
}

#[test]
fn blank_piece_is_empty() {
    let p = BoardPiece::new();
    assert_eq!(p.row, 0);
    assert_eq!(p.column, 0);
    assert_eq!(p.value, 0);
    assert!(!p.mine);
    assert!(p.neighbours.is_empty());
}

#[test]
fn new_board_has_no_tiles() {
    let b = Board::new();
    assert!(!b.has_tile(0, 0));
}

#[test]
fn build_makes_every_tile_unrevealed() {
    let b = built(3, 4);
    for r in 0..3 {
        for c in 0..4 {
            assert!(b.has_tile(r, c));
            assert_eq!(b.get_tile_value(r, c), UNREVEALED);
        }
    }
    assert!(!b.has_tile(3, 0));
    assert!(!b.has_tile(0, 4));
}

#[test]
fn neighbours_follow_eight_connectivity_order() {
    let b = built(3, 3);
    assert_eq!(b.get_neighbours(0, 0), vec![(0, 1), (1, 1), (1, 0)]);
    assert_eq!(
        b.get_neighbours(1, 1),
        vec![(0, 2), (0, 1), (0, 0), (1, 2), (1, 0), (2, 2), (2, 1), (2, 0)]
    );
    assert_eq!(b.get_neighbours(2, 1), vec![(1, 2), (1, 1), (1, 0), (2, 2), (2, 0)]);
}

#[test]
fn corner_edge_and_inner_neighbour_counts() {
    let (rows, columns) = (4i32, 5i32);
    let b = built(rows, columns);
    for r in 0..rows {
        for c in 0..columns {
            let n = b.get_neighbours(r as usize, c as usize);
            let on_row_edge = r == 0 || r == rows - 1;
            let on_col_edge = c == 0 || c == columns - 1;
            let expected = if on_row_edge && on_col_edge {
                3
            } else if on_row_edge || on_col_edge {
                5
            } else {
                8
            };
            assert_eq!(n.len(), expected, "tile ({r}, {c})");
            for &(nr, nc) in &n {
                assert!(nr >= 0 && nr < rows && nc >= 0 && nc < columns);
                assert!((nr - r).abs() <= 1 && (nc - c).abs() <= 1);
                assert!((nr, nc) != (r, c));
            }
        }
    }
}

#[test]
fn single_row_and_single_tile_boards() {
    let b = built(1, 1);
    assert!(b.get_neighbours(0, 0).is_empty());
    let b = built(1, 3);
    assert_eq!(b.get_neighbours(0, 0), vec![(0, 1)]);
    assert_eq!(b.get_neighbours(0, 1), vec![(0, 2), (0, 0)]);
}

#[test]
fn set_value_and_mark_mine_change_one_tile() {
    let mut b = built(2, 2);
    b.set_value(1, 0, 3);
    assert_eq!(b.get_tile_value(1, 0), 3);
    assert_eq!(b.get_tile_value(0, 0), UNREVEALED);
    assert!(!b.is_mine(1, 0));
    b.mark_mine(1, 0);
    assert!(b.is_mine(1, 0));
    assert!(!b.is_mine(0, 0));
    assert_eq!(b.get_tile_value(1, 0), 3);
    assert_eq!(b.get_neighbours(1, 0), vec![(0, 1), (0, 0), (1, 1)]);
}

#[test]
fn neighbours_copy_does_not_touch_the_board() {
    let b = built(2, 2);
    let mut n = b.get_neighbours(0, 0);
    n.clear();
    assert_eq!(b.get_neighbours(0, 0).len(), 3);
}

#[test]
fn building_twice_resets_every_tile() {
    let mut b = built(2, 3);
    b.set_value(0, 0, 0);
    b.set_value(1, 2, 2);
    b.mark_mine(0, 1);
    b.build();
    for r in 0..2 {
        for c in 0..3 {
            assert_eq!(b.get_tile_value(r, c), UNREVEALED);
            assert!(!b.is_mine(r, c));
        }
    }
    assert_eq!(b.get_neighbours(0, 0), vec![(0, 1), (1, 1), (1, 0)]);
}

#[test]
fn set_size_keeps_tiles_until_build() {
    let mut b = built(2, 2);
    b.set_size(3, 1);
    assert!(b.has_tile(1, 1));
    assert!(!b.has_tile(2, 0));
    b.build();
    assert!(b.has_tile(2, 0));
    assert!(!b.has_tile(1, 1));
    assert_eq!(b.get_neighbours(1, 0), vec![(0, 0), (2, 0)]);
}
