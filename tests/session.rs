use minesweeper::board::UNREVEALED;
use minesweeper::session::{Game, SessionError};
use minesweeper::solver::{Action, Event, Solver, Status};

/// A scripted service: a board with mines at fixed places; opening a tile
/// reports how many mines surround it.
struct Field {
    rows: i32,
    columns: i32,
    mines: Vec<(i32, i32)>,
}

impl Field {
    fn value(&self, r: i32, c: i32) -> i32 {
        let mut n = 0;
        for &(mr, mc) in &self.mines {
            if (mr - r).abs() <= 1 && (mc - c).abs() <= 1 && (mr, mc) != (r, c) {
                n += 1;
            }
        }
        n
    }
}

fn started(rows: i32, columns: i32, mines: i32) -> Game {
    let mut g = Game::new(String::from("level-1"));
    assert_eq!(g.init(rows, columns, mines), Ok(()));
    g
}

/// Runs the solver against `field` and returns the tiles opened and the
/// mines submitted, if any.
fn run(field: &Field, game: &mut Game) -> (Vec<(i32, i32)>, Option<Vec<(i32, i32)>>) {
    let mut solver = Solver::new(game);
    let mut opened = Vec::new();
    let mut submitted = None;
    let mut event = Event::Start;
    for _ in 0..1000 {
        match solver.step(game, event) {
            Action::Open(r, c) => {
                opened.push((r, c));
                event = Event::Opened(field.value(r, c));
            }
            Action::Submit => {
                submitted = Some(game.found_mines());
                event = Event::Submitted;
            }
            Action::Finished => return (opened, submitted),
        }
    }
    panic!("the solver did not finish");
}

#[test]
fn new_session_is_empty() {
    let g = Game::new(String::from("abc"));
    assert_eq!(g.level_id(), "abc");
    assert_eq!(g.mines(), 0);
    assert!(g.found_mines().is_empty());
    assert!(!g.board().has_tile(0, 0));
}

#[test]
fn init_builds_the_board() {
    let g = started(2, 3, 1);
    assert_eq!(g.mines(), 1);
    assert!(g.board().has_tile(1, 2));
    assert!(!g.board().has_tile(2, 0));
    assert_eq!(g.board().get_tile_value(1, 2), UNREVEALED);
    assert!(!g.budget_reached());
}

#[test]
fn init_twice_is_refused() {
    let mut g = started(2, 2, 1);
    g.open_tile(0, 0, 1);
    assert_eq!(g.init(5, 5, 3), Err(SessionError::DoubleInitialization));
    assert_eq!(g.mines(), 1);
    assert_eq!(g.board().get_tile_value(0, 0), 1);
    assert!(!g.board().has_tile(2, 2));
}

#[test]
fn mark_mine_reports_when_budget_is_reached() {
    let mut g = started(3, 3, 2);
    assert!(!g.mark_mine(0, 0));
    assert!(!g.mark_mine(0, 0));
    assert_eq!(g.found_mines(), vec![(0, 0)]);
    assert!(g.mark_mine(2, 1));
    assert_eq!(g.found_mines(), vec![(0, 0), (2, 1)]);
    assert!(g.budget_reached());
}

#[test]
fn open_tile_sets_one_value() {
    let mut g = started(2, 2, 1);
    g.open_tile(1, 1, 2);
    assert_eq!(g.board().get_tile_value(1, 1), 2);
    assert_eq!(g.board().get_tile_value(0, 1), UNREVEALED);
}

#[test]
fn single_tile_without_mines() {
    let field = Field { rows: 1, columns: 1, mines: vec![] };
    let mut g = started(field.rows, field.columns, 0);
    let solver = Solver::new(&g);
    assert_eq!(solver.to_open(), vec![(0, 0)]);
    let mut solver = solver;
    assert_eq!(solver.step(&mut g, Event::Start), Action::Open(0, 0));
    assert_eq!(solver.step(&mut g, Event::Opened(0)), Action::Submit);
    assert!(solver.to_analyze().is_empty());
    assert!(g.found_mines().is_empty());
    assert_eq!(g.board().get_tile_value(0, 0), 0);
    assert_eq!(solver.step(&mut g, Event::Submitted), Action::Finished);
    assert_eq!(solver.status(), Status::Terminal);
}

#[test]
fn three_by_three_with_one_mine() {
    let field = Field { rows: 3, columns: 3, mines: vec![(2, 2)] };
    let mut g = started(field.rows, field.columns, 1);
    let (opened, submitted) = run(&field, &mut g);
    assert_eq!(opened[0], (0, 0));
    assert_eq!(opened.len(), 8);
    assert!(!opened.contains(&(2, 2)));
    for r in 0..3 {
        for c in 0..3 {
            let expected = if (r, c) == (2, 2) { UNREVEALED } else { field.value(r, c) };
            assert_eq!(g.board().get_tile_value(r as usize, c as usize), expected);
        }
    }
    assert_eq!(g.board().get_tile_value(1, 1), 1);
    assert_eq!(g.board().get_tile_value(0, 1), 0);
    assert_eq!(g.found_mines(), vec![(2, 2)]);
    assert!(g.board().is_mine(2, 2));
    assert_eq!(submitted, Some(vec![(2, 2)]));
}

#[test]
fn sole_unrevealed_neighbour_is_flagged_whatever_the_value() {
    let mut g = started(1, 2, 1);
    let mut solver = Solver::new(&g);
    assert_eq!(solver.step(&mut g, Event::Start), Action::Open(0, 0));
    // The tile shows two, yet its one unrevealed neighbour is taken for a mine.
    assert_eq!(solver.step(&mut g, Event::Opened(2)), Action::Submit);
    assert_eq!(g.found_mines(), vec![(0, 1)]);
    assert_eq!(g.board().get_tile_value(0, 1), UNREVEALED);
}

#[test]
fn no_deduction_when_two_neighbours_are_unrevealed() {
    let mut g = started(2, 2, 1);
    let mut solver = Solver::new(&g);
    assert_eq!(solver.step(&mut g, Event::Start), Action::Open(0, 0));
    assert_eq!(solver.step(&mut g, Event::Opened(1)), Action::Finished);
    assert!(g.found_mines().is_empty());
    assert_eq!(solver.status(), Status::Terminal);
}

#[test]
fn nothing_happens_after_the_budget_is_reached() {
    let field = Field { rows: 3, columns: 3, mines: vec![(2, 2)] };
    let mut g = started(field.rows, field.columns, 1);
    let (_, submitted) = run(&field, &mut g);
    assert!(submitted.is_some());
    let mut solver = Solver::new(&g);
    // The origin is open already; the new solver still asks to open it, then
    // finds the budget reached and only submits.
    assert_eq!(solver.step(&mut g, Event::Start), Action::Open(0, 0));
    assert_eq!(solver.step(&mut g, Event::Opened(0)), Action::Submit);
    assert_eq!(solver.step(&mut g, Event::Opened(0)), Action::Submit);
    assert_eq!(solver.step(&mut g, Event::Submitted), Action::Finished);
    assert_eq!(solver.step(&mut g, Event::Start), Action::Finished);
    assert_eq!(g.found_mines(), vec![(2, 2)]);
}

#[test]
fn failure_during_flood_fill_keeps_partial_board() {
    let field = Field { rows: 3, columns: 3, mines: vec![(2, 2)] };
    let mut g = started(field.rows, field.columns, 1);
    let mut solver = Solver::new(&g);
    assert_eq!(solver.step(&mut g, Event::Start), Action::Open(0, 0));
    let next = solver.step(&mut g, Event::Opened(field.value(0, 0)));
    assert!(matches!(next, Action::Open(_, _)));
    assert_eq!(solver.step(&mut g, Event::Failed), Action::Finished);
    assert_eq!(solver.status(), Status::Terminal);
    assert_eq!(g.board().get_tile_value(0, 0), 0);
    assert_eq!(solver.step(&mut g, Event::Opened(0)), Action::Finished);
    assert_eq!(solver.step(&mut g, Event::Start), Action::Finished);
    assert!(g.found_mines().is_empty());
}

#[test]
fn unanswered_request_is_repeated() {
    let mut g = started(2, 2, 1);
    let mut solver = Solver::new(&g);
    assert_eq!(solver.step(&mut g, Event::Start), Action::Open(0, 0));
    assert_eq!(solver.step(&mut g, Event::Submitted), Action::Open(0, 0));
    assert_eq!(solver.status(), Status::Opening(0, 0));
}

#[test]
fn flood_fill_opens_each_tile_once() {
    let field = Field { rows: 5, columns: 6, mines: vec![(4, 5), (0, 5)] };
    let mut g = started(field.rows, field.columns, 2);
    let (opened, _) = run(&field, &mut g);
    let mut seen = opened.clone();
    seen.sort();
    seen.dedup();
    assert_eq!(seen.len(), opened.len());
    assert!(!opened.contains(&(4, 5)));
    assert!(!opened.contains(&(0, 5)));
}

#[test]
fn empty_board_submits_at_once() {
    let mut g = started(0, 0, 0);
    let mut solver = Solver::new(&g);
    assert!(solver.to_open().is_empty());
    assert_eq!(solver.step(&mut g, Event::Start), Action::Submit);
}
