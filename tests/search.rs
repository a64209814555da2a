use tictactoe::ai::get_next_move;
use tictactoe::board::{Board, BoardPosition, Team};

fn cell(i: u8) -> BoardPosition {
    BoardPosition { x: i % 3, y: i / 3 }
}

/// A board with `x` and `o` placed and `to_move` to move.
fn position(x: &[u8], o: &[u8], to_move: Team) -> Board {
    let mut b = Board::new();
    for &i in x {
        b.set_cell(cell(i));
    }
    b.swap_players();
    for &i in o {
        b.set_cell(cell(i));
    }
    if to_move == Team::X {
        b.swap_players();
    }
    b
}

/// Plays the search against itself; the winner, if any.
fn self_play(first: Team) -> Option<Team> {
    let mut b = Board::new();
    if first == Team::O {
        b.swap_players();
    }
    let mut moves = 0;
    loop {
        let mv = get_next_move(b);
        assert!(b.is_cell_empty(mv));
        b.set_cell(mv);
        moves += 1;
        if b.evaluate() {
            return Some(b.current_player);
        }
        if b.is_full() {
            assert_eq!(moves, 9);
            return None;
        }
        b.swap_players();
    }
}

#[test]
fn empty_board_opens_in_the_first_cell() {
    assert_eq!(get_next_move(Board::new()), BoardPosition { x: 0, y: 0 });
}

#[test]
fn completes_own_row() {
    let b = position(&[0, 1], &[3, 4], Team::X);
    assert_eq!(get_next_move(b), BoardPosition { x: 2, y: 0 });
}

#[test]
fn completes_own_line_before_blocking() {
    let b = position(&[0, 1, 4], &[6, 7], Team::O);
    assert_eq!(get_next_move(b), BoardPosition { x: 2, y: 2 });
}

#[test]
fn blocks_the_opponents_row() {
    let b = position(&[0, 1], &[4], Team::O);
    assert_eq!(get_next_move(b), BoardPosition { x: 2, y: 0 });
}

#[test]
fn blocks_the_opponents_middle_row() {
    let b = position(&[4, 5], &[0], Team::O);
    assert_eq!(get_next_move(b), BoardPosition { x: 0, y: 1 });
}

#[test]
fn the_only_free_cell_is_chosen() {
    let b = position(&[0, 2, 3, 7], &[1, 4, 5, 6], Team::X);
    assert_eq!(get_next_move(b), BoardPosition { x: 2, y: 2 });
}

#[test]
fn self_play_with_x_first_is_a_draw() {
    assert_eq!(self_play(Team::X), None);
}

#[test]
fn self_play_with_o_first_is_a_draw() {
    assert_eq!(self_play(Team::O), None);
}

#[test]
fn same_board_gives_same_move() {
    let b = position(&[4], &[0], Team::X);
    let first = get_next_move(b);
    let second = get_next_move(b);
    assert_eq!(first, second);
    assert!(b.is_cell_empty(first));
}
