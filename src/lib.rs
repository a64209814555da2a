//! Tic-tac-toe on a packed bitboard, with a minimax search that picks the
//! computer's move.
use vstd::prelude::*;

pub mod ai;
pub mod board;

verus! {

} // verus!
