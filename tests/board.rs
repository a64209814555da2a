use tictactoe::board::{Board, BoardPosition, Team};

fn at(x: u8, y: u8) -> BoardPosition {
    BoardPosition { x, y }
}

fn cell(i: u8) -> BoardPosition {
    at(i % 3, i / 3)
}

/// Puts `t` into the cells `marks`, leaving the turn with `t`.
fn board_with(t: Team, marks: &[u8]) -> Board {
    let mut b = Board::new();
    if t == Team::O {
        b.swap_players();
    }
    for &i in marks {
        b.set_cell(cell(i));
    }
    b
}

#[test]
fn new_board_is_empty_with_x_to_move() {
    let b = Board::new();
    assert_eq!(b.current_player, Team::X);
    for i in 0..9 {
        assert!(b.is_cell_empty(cell(i)));
        assert_eq!(b.get_cell(cell(i)), None);
    }
    assert!(!b.is_full());
    assert!(!b.evaluate());
}

#[test]
fn set_cell_takes_the_cell_for_the_player_to_move() {
    let mut b = Board::new();
    b.set_cell(at(2, 1));
    assert!(!b.is_cell_empty(at(2, 1)));
    assert_eq!(b.get_cell(at(2, 1)), Some(Team::X));
    assert_eq!(b.current_player, Team::X);
    b.swap_players();
    b.set_cell(at(0, 2));
    assert!(!b.is_cell_empty(at(0, 2)));
    assert_eq!(b.get_cell(at(0, 2)), Some(Team::O));
    assert_eq!(b.get_cell(at(2, 1)), Some(Team::X));
    assert!(b.is_cell_empty(at(1, 1)));
    assert_eq!(b.get_cell(at(1, 1)), None);
}

#[test]
fn swap_players_twice_restores_the_player() {
    let mut b = Board::new();
    b.swap_players();
    assert_eq!(b.current_player, Team::O);
    b.swap_players();
    assert_eq!(b.current_player, Team::X);
}

#[test]
fn is_full_exactly_when_every_cell_is_taken() {
    let mut b = Board::new();
    for i in 0..9u8 {
        assert!(!b.is_full());
        let all_taken = (0..9).all(|j| !b.is_cell_empty(cell(j)));
        assert_eq!(b.is_full(), all_taken);
        b.set_cell(cell(i));
        b.swap_players();
    }
    assert!(b.is_full());
    assert!((0..9).all(|j| !b.is_cell_empty(cell(j))));
}

const LINES: [[u8; 3]; 8] = [
    [0, 1, 2],
    [3, 4, 5],
    [6, 7, 8],
    [0, 3, 6],
    [1, 4, 7],
    [2, 5, 8],
    [0, 4, 8],
    [2, 4, 6],
];

#[test]
fn every_line_wins_for_either_symbol() {
    for t in [Team::X, Team::O] {
        for line in LINES.iter() {
            let b = board_with(t, line);
            assert!(b.evaluate(), "{:?} {:?}", t, line);
        }
    }
}

#[test]
fn no_other_three_cells_win() {
    for t in [Team::X, Team::O] {
        for a in 0..9u8 {
            for b in (a + 1)..9 {
                for c in (b + 1)..9 {
                    let is_line = LINES.iter().any(|l| *l == [a, b, c]);
                    let board = board_with(t, &[a, b, c]);
                    assert_eq!(board.evaluate(), is_line, "{:?} {} {} {}", t, a, b, c);
                }
            }
        }
    }
}

#[test]
fn a_line_of_the_other_symbol_is_no_win() {
    let mut b = board_with(Team::X, &[0, 1, 2]);
    b.swap_players();
    assert!(!b.evaluate());
}

#[test]
fn owner_bit_distinguishes_the_symbols_on_a_row() {
    let mut b = board_with(Team::X, &[0, 1]);
    b.swap_players();
    b.set_cell(cell(2));
    assert!(!b.evaluate());
    b.swap_players();
    assert!(!b.evaluate());
}
