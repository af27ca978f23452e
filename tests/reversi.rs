use reversi::board::{Board, Cell, Coord, Direction};
use reversi::game::{Game, Status};
use reversi::{ReversiError, Side};

fn at(r: usize, c: usize) -> Coord {
    Coord::new(r, c).unwrap()
}

fn pairs(v: &[Coord]) -> Vec<(usize, usize)> {
    v.iter().map(|c| (c.get_row(), c.get_col())).collect()
}

fn occupied(g: &Game) -> usize {
    g.disk_count(Side::Dark) + g.disk_count(Side::Light)
}

fn cells_of(g: &Game) -> Vec<Cell> {
    let mut v = Vec::new();
    for r in 0..8 {
        for c in 0..8 {
            v.push(g.cell_at(at(r, c)));
        }
    }
    v
}

fn board_with(disks: &[(usize, usize, Side)]) -> Board {
    let mut cells = vec![Cell::Empty; 64];
    for &(r, c, s) in disks {
        cells[r * 8 + c] = Cell::Taken(s);
    }
    Board::from_cells(cells).unwrap()
}

#[test]
fn coord_construction_bounds() {
    for r in 0..12 {
        for c in 0..12 {
            let res = Coord::new(r, c);
            if r < 8 && c < 8 {
                let k = res.unwrap();
                assert_eq!((k.get_row(), k.get_col()), (r, c));
            } else {
                assert_eq!(res, Err(ReversiError::OutOfBoundCoord(r, c)));
            }
        }
    }
}

#[test]
fn coord_step_inside_and_outside() {
    let c = at(3, 3);
    let se = c.step(Direction::SouthEast).unwrap();
    assert_eq!((se.get_row(), se.get_col()), (4, 4));
    let w = c.step(Direction::West).unwrap();
    assert_eq!((w.get_row(), w.get_col()), (3, 2));
    let corner = at(0, 0);
    assert_eq!(
        corner.step(Direction::North),
        Err(ReversiError::OutOfBoundStep(corner, Direction::North))
    );
    let edge = at(7, 4);
    assert_eq!(
        edge.step(Direction::SouthWest),
        Err(ReversiError::OutOfBoundStep(edge, Direction::SouthWest))
    );
}

#[test]
fn direction_order_and_offsets() {
    assert_eq!(Direction::from_index(0), Direction::North);
    assert_eq!(Direction::from_index(3), Direction::SouthEast);
    assert_eq!(Direction::from_index(7), Direction::NorthWest);
    assert_eq!(Direction::NorthEast.offsets(), (-1, 1));
    assert_eq!(Direction::West.offsets(), (0, -1));
}

#[test]
fn opposite_is_involution() {
    for s in [Side::Dark, Side::Light] {
        assert_eq!(s.opposite().opposite(), s);
        assert_ne!(s.opposite(), s);
    }
    assert_eq!(Side::Dark.opposite(), Side::Light);
}

#[test]
fn game_start_position() {
    let g = Game::new();
    assert_eq!(occupied(&g), 4);
    assert_eq!(g.disk_count(Side::Dark), 2);
    assert_eq!(g.disk_count(Side::Light), 2);
    assert_eq!(g.cell_at(at(3, 3)), Cell::Taken(Side::Light));
    assert_eq!(g.cell_at(at(4, 4)), Cell::Taken(Side::Light));
    assert_eq!(g.cell_at(at(3, 4)), Cell::Taken(Side::Dark));
    assert_eq!(g.cell_at(at(4, 3)), Cell::Taken(Side::Dark));
    assert_eq!(g.current_side(), Side::Dark);
    assert_eq!(g.status(), Status::InProgress(Side::Dark));
    assert_eq!(pairs(&g.legal_moves()), vec![(2, 3), (3, 2), (4, 5), (5, 4)]);
    assert_eq!(g.turn_count(), 0);
}

#[test]
fn legal_moves_twice_agree() {
    let mut g = Game::new();
    assert_eq!(pairs(&g.legal_moves()), pairs(&g.legal_moves()));
    g.apply_move(at(2, 3)).unwrap();
    let a = pairs(&g.legal_moves());
    let b = pairs(&g.legal_moves());
    assert_eq!(a, b);
    assert_eq!(a, vec![(2, 2), (2, 4), (4, 2)]);
}

#[test]
fn legal_move_adds_one_disk() {
    let mut g = Game::new();
    let mut before = occupied(&g);
    for _ in 0..10 {
        let moves = g.legal_moves();
        if moves.is_empty() {
            break;
        }
        g.apply_move(moves[0]).unwrap();
        assert_eq!(occupied(&g), before + 1);
        before += 1;
    }
}

#[test]
fn illegal_move_leaves_board() {
    let mut g = Game::new();
    let before = cells_of(&g);
    assert_eq!(g.apply_move(at(0, 0)), Err(ReversiError::IllegalMove(at(0, 0))));
    assert_eq!(g.apply_move(at(2, 2)), Err(ReversiError::IllegalMove(at(2, 2))));
    assert_eq!(cells_of(&g), before);
    assert_eq!(g.current_side(), Side::Dark);
    assert_eq!(g.turn_count(), 0);
}

#[test]
fn occupied_cell_rejected() {
    let mut g = Game::new();
    let before = cells_of(&g);
    assert_eq!(g.apply_move(at(3, 3)), Err(ReversiError::CellAlreadyTaken(at(3, 3))));
    assert_eq!(g.apply_move(at(4, 3)), Err(ReversiError::CellAlreadyTaken(at(4, 3))));
    assert_eq!(cells_of(&g), before);
    assert_eq!(g.current_side(), Side::Dark);
}

#[test]
fn undo_restores_previous_state() {
    let mut g = Game::new();
    g.apply_move(at(2, 3)).unwrap();
    g.apply_move(at(2, 2)).unwrap();
    let cells = cells_of(&g);
    let side = g.current_side();
    let moves = pairs(&g.legal_moves());
    g.apply_move(g.legal_moves()[0]).unwrap();
    assert_eq!(g.undo(), Ok(()));
    assert_eq!(cells_of(&g), cells);
    assert_eq!(g.current_side(), side);
    assert_eq!(pairs(&g.legal_moves()), moves);
    assert_eq!(g.turn_count(), 2);
}

#[test]
fn undo_fresh_game_fails() {
    let mut g = Game::new();
    assert_eq!(g.undo(), Err(ReversiError::NoUndo));
    g.apply_move(at(5, 4)).unwrap();
    assert_eq!(g.undo(), Ok(()));
    assert_eq!(g.undo(), Err(ReversiError::NoUndo));
    assert_eq!(cells_of(&g), cells_of(&Game::new()));
}

#[test]
fn opening_capture_scenario() {
    let mut g = Game::new();
    assert_eq!(g.apply_move(at(2, 3)), Ok(()));
    assert_eq!(g.cell_at(at(2, 3)), Cell::Taken(Side::Dark));
    assert_eq!(g.cell_at(at(3, 3)), Cell::Taken(Side::Dark));
    assert_eq!(g.disk_count(Side::Dark), 4);
    assert_eq!(g.disk_count(Side::Light), 1);
    assert_eq!(g.current_side(), Side::Light);
    assert_eq!(g.turn_count(), 1);
}

#[test]
fn flips_runs_in_several_directions() {
    let b = board_with(&[
        (0, 0, Side::Dark),
        (1, 1, Side::Light),
        (2, 2, Side::Light),
        (3, 0, Side::Dark),
        (3, 1, Side::Light),
        (3, 5, Side::Light),
        (3, 6, Side::Dark),
        (5, 3, Side::Light),
    ]);
    let mut g = Game::from_board(b, Side::Dark);
    assert_eq!(g.apply_move(at(6, 3)), Err(ReversiError::IllegalMove(at(6, 3))));
    assert_eq!(g.apply_move(at(3, 2)), Ok(()));
    assert_eq!(g.cell_at(at(3, 1)), Cell::Taken(Side::Dark));
    assert_eq!(g.cell_at(at(2, 2)), Cell::Taken(Side::Light));
    assert_eq!(g.disk_count(Side::Dark), 5);
    let b = board_with(&[
        (0, 0, Side::Dark),
        (1, 1, Side::Light),
        (2, 2, Side::Light),
        (3, 0, Side::Dark),
        (3, 1, Side::Light),
        (3, 2, Side::Light),
    ]);
    let mut g = Game::from_board(b, Side::Dark);
    assert_eq!(g.apply_move(at(3, 3)), Ok(()));
    for (r, c) in [(1, 1), (2, 2), (3, 1), (3, 2), (3, 3)] {
        assert_eq!(g.cell_at(at(r, c)), Cell::Taken(Side::Dark));
    }
    assert_eq!(g.disk_count(Side::Light), 0);
    assert_eq!(g.status(), Status::Ended);
}

#[test]
fn end_game_detection() {
    let b = board_with(&[(0, 0, Side::Dark), (7, 7, Side::Light), (4, 4, Side::Dark)]);
    let mut g = Game::from_board(b, Side::Dark);
    assert_eq!(g.status(), Status::Ended);
    assert!(g.is_ended());
    assert!(g.legal_moves().is_empty());
    assert_eq!(g.apply_move(at(3, 3)), Err(ReversiError::EndedGame));
    assert_eq!(g.turn_count(), 0);
}

#[test]
fn game_ends_when_no_side_can_move() {
    let b = board_with(&[(0, 0, Side::Dark), (0, 1, Side::Light)]);
    let mut g = Game::from_board(b, Side::Dark);
    assert_eq!(g.status(), Status::InProgress(Side::Dark));
    assert_eq!(g.apply_move(at(0, 2)), Ok(()));
    assert_eq!(g.status(), Status::Ended);
    assert_eq!(g.apply_move(at(5, 5)), Err(ReversiError::EndedGame));
    assert_eq!(g.undo(), Ok(()));
    assert_eq!(g.status(), Status::InProgress(Side::Dark));
}

#[test]
fn forced_pass_keeps_side() {
    let b = board_with(&[
        (0, 0, Side::Dark),
        (0, 1, Side::Light),
        (7, 6, Side::Light),
        (7, 7, Side::Dark),
    ]);
    let mut g = Game::from_board(b, Side::Dark);
    assert_eq!(g.apply_move(at(0, 2)), Ok(()));
    assert_eq!(g.status(), Status::InProgress(Side::Dark));
    assert_eq!(pairs(&g.legal_moves()), vec![(7, 5)]);
}

#[test]
fn start_side_without_moves_passes() {
    let b = board_with(&[(0, 0, Side::Dark), (0, 1, Side::Light)]);
    let g = Game::from_board(b, Side::Light);
    assert_eq!(g.current_side(), Side::Dark);
}

#[test]
fn disk_lookup() {
    let b = Board::new();
    assert_eq!(b.disk_at(at(3, 4)), Ok(Side::Dark));
    assert_eq!(b.disk_at(at(0, 0)), Err(ReversiError::EmptyCell(at(0, 0))));
    assert_eq!(b.cell_at(at(4, 4)), Cell::Taken(Side::Light));
}

#[test]
fn board_from_cells_needs_64() {
    assert!(Board::from_cells(vec![Cell::Empty; 63]).is_none());
    assert!(Board::from_cells(vec![Cell::Empty; 65]).is_none());
    let b = Board::from_cells(vec![Cell::Taken(Side::Light); 64]).unwrap();
    assert_eq!(b.disk_count(Side::Light), 64);
    assert!(b.legal_moves(Side::Dark).is_empty());
    let g = Game::from_board(b, Side::Dark);
    assert_eq!(g.status(), Status::Ended);
}

#[test]
fn board_place_disk_direct() {
    let mut b = Board::new();
    assert_eq!(b.place_disk(at(3, 3), Side::Dark), Err(ReversiError::CellAlreadyTaken(at(3, 3))));
    assert_eq!(b.place_disk(at(2, 4), Side::Dark), Err(ReversiError::IllegalMove(at(2, 4))));
    assert_eq!(b.place_disk(at(2, 4), Side::Light), Ok(()));
    assert_eq!(b.disk_count(Side::Light), 4);
    assert_eq!(b.disk_count(Side::Dark), 1);
    let copy = b.copy();
    assert_eq!(copy.cell_at(at(3, 4)), Cell::Taken(Side::Light));
}

#[test]
fn turn_records_move() {
    let mut g = Game::new();
    g.apply_move(at(4, 5)).unwrap();
    assert_eq!(g.turn_count(), 1);
    assert_eq!(g.board().disk_count(Side::Dark), 4);
    let t = g.turn(0);
    assert_eq!(t.side(), Side::Dark);
    assert_eq!((t.coord().get_row(), t.coord().get_col()), (4, 5));
    assert_eq!(t.board().cell_at(at(4, 4)), Cell::Taken(Side::Dark));
    g.apply_move(at(5, 5)).unwrap();
    assert_eq!(g.turn(1).side(), Side::Light);
    assert_eq!(g.turn(1).board().disk_count(Side::Light), 3);
}

#[test]
fn error_descriptions() {
    assert_eq!(ReversiError::NoUndo.description(), "Undoing is not possible");
    assert_eq!(ReversiError::EndedGame.description(), "The game is already ended");
    assert_eq!(ReversiError::IllegalMove(at(1, 1)).description(), "Illegal move");
    assert_eq!(ReversiError::OutOfBoundCoord(8, 0).description(), "Out of bound coordinates");
    assert_eq!(
        ReversiError::OutOfBoundStep(at(0, 0), Direction::North).description(),
        "Out of bound step"
    );
    assert_eq!(
        ReversiError::CellAlreadyTaken(at(0, 0)).description(),
        "The cell you want to move to is already taken"
    );
    assert_eq!(ReversiError::EmptyCell(at(0, 0)).description(), "The cell you want is empty");
}
