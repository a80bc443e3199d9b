//! A player that plays a legal move chosen at random.

use crate::chance::random_in_range;
use crate::rustgammon::{Backgammon, Color, DiceRoll, Move, Player};
use vstd::prelude::*;

verus! {

/// The player of one side who lets chance choose among the legal moves.
pub struct RandomPlayer {
    pub color: Color,
}

impl Player for RandomPlayer {
    fn get_color(&self) -> (color: Color)
        ensures
            color == self.color,
    {
        self.color
    }

    /// One of the legal moves. Where there is none, the move without
    /// submoves, which is not legal either.
    fn make_move(&self, game: &Backgammon, roll: DiceRoll) -> (mov: Move)
        ensures
            game@.list_moves(self.color, roll).len() > 0 ==> game@.can_do_move(
                self.color,
                roll,
                mov@,
            ),
            game@.list_moves(self.color, roll).len() == 0 ==> mov@.len() == 0,
    {
        let moves = game.list_moves(self.color, roll);
        if moves.len() == 0 {
            return Move { submoves: Vec::new() };
        }
        let random_index = random_in_range(0, moves.len());
        assert(moves.deep_view()[random_index as int] == moves[random_index as int]@);
        pick_move(moves, random_index)
    }
}

/// The move of `moves` at `index`.
pub fn pick_move(moves: Vec<Move>, index: usize) -> (mov: Move)
    requires
        index < moves.len(),
    ensures
        mov@ == moves[index as int]@,
{
    let mut moves = moves;
    moves.swap_remove(index)
}

} // verus!
