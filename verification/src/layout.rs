//! The mathematical model of a position: the checker counts of both sides as
//! sequences of integers, and the rules of the game as functions on them.

use crate::rustgammon::{Color, Submove, Turn};
use vstd::prelude::*;

verus! {

/// The number of checkers that a sequence of counts holds.
pub open spec fn checkers_in(counts: Seq<int>) -> int
    decreases counts.len(),
{
    if counts.len() == 0 {
        0
    } else {
        checkers_in(counts.drop_last()) + counts.last()
    }
}

/// The same point seen from the other side of the board.
pub open spec fn mirror(pos: int) -> int {
    25 - pos
}

/// The checker counts of both sides, each indexed in its own frame:
/// 0 is the bar, 1 to 24 are the points in the direction of travel,
/// 25 is the bear-off position.
pub struct Layout {
    pub red: Seq<int>,
    pub white: Seq<int>,
}

impl Layout {
    /// The counts of one side.
    pub open spec fn side(self, color: Color) -> Seq<int> {
        match color {
            Color::Red => self.red,
            Color::White => self.white,
        }
    }

    /// The number of checkers of `color` at `pos`; none outside the board.
    pub open spec fn count(self, color: Color, pos: int) -> int {
        if 0 <= pos < self.side(color).len() {
            self.side(color)[pos]
        } else {
            0
        }
    }

    /// The layout with the count of `color` at `pos` replaced by `checkers`.
    pub open spec fn place(self, color: Color, pos: int, checkers: int) -> Layout {
        match color {
            Color::Red => Layout { red: self.red.update(pos, checkers), white: self.white },
            Color::White => Layout { red: self.red, white: self.white.update(pos, checkers) },
        }
    }

    /// All the checkers of `color`, wherever they are.
    pub open spec fn total(self, color: Color) -> int {
        checkers_in(self.side(color))
    }

    /// Both sides have their 26 positions.
    pub open spec fn well_formed(self) -> bool {
        self.red.len() == 26 && self.white.len() == 26
    }

    /// No count is negative, and all the checkers of a side can be counted in
    /// one `Checker`.
    pub open spec fn valid(self) -> bool {
        &&& self.well_formed()
        &&& forall|pos: int| 0 <= pos < 26 ==> 0 <= #[trigger] self.red[pos]
        &&& forall|pos: int| 0 <= pos < 26 ==> 0 <= #[trigger] self.white[pos]
        &&& self.total(Color::Red) <= i8::MAX
        &&& self.total(Color::White) <= i8::MAX
    }

    /// The other side holds `pos` with two checkers or more. The bear-off
    /// position is never held.
    pub open spec fn blocked(self, color: Color, pos: int) -> bool {
        pos != 25 && self.count(color.opposite(), mirror(pos)) > 1
    }

    /// No checker of `color` is on the bar or in the outer boards.
    pub open spec fn all_home(self, color: Color) -> bool {
        forall|pos: int| 0 <= pos < 19 ==> self.count(color, pos) <= 0
    }

    /// A checker of `color` stands behind `submove.from`, on the point that
    /// the die bears off exactly or between the two.
    pub open spec fn held_behind(self, color: Color, submove: Submove) -> bool {
        exists|pos: int| 25 - submove.die <= pos < submove.from && self.count(color, pos) > 0
    }

    /// Whether `color` may play `submove`.
    pub open spec fn can_do_submove(self, color: Color, submove: Submove) -> bool {
        &&& self.count(color, submove.from as int) != 0
        &&& submove.from != 25
        &&& (self.count(color, 0) > 0 ==> submove.from == 0)
        &&& (submove.destination() == 25 ==> self.all_home(color) && !self.held_behind(
            color,
            submove,
        ))
        &&& !self.blocked(color, submove.destination() as int)
    }

    /// The other side has a single checker where `submove` lands, and the
    /// landing is on the board.
    pub open spec fn hits(self, color: Color, submove: Submove) -> bool {
        submove.destination() != 25 && self.count(
            color.opposite(),
            mirror(submove.destination() as int),
        ) == 1
    }

    /// The layout after `color` has played `submove`: a blot at the landing
    /// point goes to its owner's bar, then one checker leaves `submove.from`
    /// and one arrives at the destination.
    pub open spec fn do_submove(self, color: Color, submove: Submove) -> Layout {
        let other = color.opposite();
        let landing = submove.destination() as int;
        let cleared = if self.hits(color, submove) {
            self.place(other, 0, self.count(other, 0) + 1).place(other, mirror(landing), 0)
        } else {
            self
        };
        let lifted = cleared.place(
            color,
            submove.from as int,
            cleared.count(color, submove.from as int) - 1,
        );
        lifted.place(color, landing, lifted.count(color, landing) + 1)
    }

    /// A submove of `die` from each position but the bear-off position, in
    /// ascending order.
    pub open spec fn candidates(die: usize) -> Seq<Submove> {
        Seq::new(25, |from: int| Submove { from: from as usize, die })
    }

    /// The submoves that `color` may play with `die`, in ascending order of
    /// where they start.
    pub open spec fn list_submoves(self, color: Color, die: usize) -> Seq<Submove> {
        Self::candidates(die).filter(|submove: Submove| self.can_do_submove(color, submove))
    }

    /// The moves that play `dice` in the order given, each as far as it can
    /// be played. A move is a stack: the submove played first is its last
    /// entry. With no die left there is no move.
    pub open spec fn ordered_moves(self, color: Color, dice: Seq<usize>) -> Seq<Seq<Submove>>
        decreases dice.len(), 0int,
    {
        if dice.len() == 0 {
            Seq::empty()
        } else {
            self.list_submoves(color, dice[0]).flat_map(
                self.continue_with(color, dice.drop_first()),
            )
        }
    }

    /// The function that takes a submove to the moves that begin with it and
    /// go on with `dice`.
    pub open spec fn continue_with(self, color: Color, dice: Seq<usize>) -> spec_fn(Submove) -> Seq<
        Seq<Submove>,
    >
        decreases dice.len(), 2int,
    {
        |submove: Submove| self.moves_after(color, submove, dice)
    }

    /// The moves that begin with `submove` and go on with `dice`: `submove`
    /// alone where no further die can be played.
    pub open spec fn moves_after(self, color: Color, submove: Submove, dice: Seq<usize>) -> Seq<
        Seq<Submove>,
    >
        decreases dice.len(), 1int,
    {
        let next = self.do_submove(color, submove).ordered_moves(color, dice);
        let continuations = if next.len() == 0 {
            seq![Seq::empty()]
        } else {
            next
        };
        continuations.map_values(|rest: Seq<Submove>| rest.push(submove))
    }

    /// The legal moves of `color` for `roll`. A double is played four times.
    /// Otherwise both orders of the two dice are tried: where any move plays
    /// both dice, only such moves are legal; where none does, the moves of the
    /// higher die are legal, and those of the lower die only where the higher
    /// cannot be played at all.
    pub open spec fn list_moves(self, color: Color, roll: (usize, usize)) -> Seq<Seq<Submove>> {
        if roll.0 == roll.1 {
            self.ordered_moves(color, seq![roll.0, roll.0, roll.0, roll.0])
        } else {
            let high_moves = self.ordered_moves(color, seq![higher(roll), lower(roll)]);
            let low_moves = self.ordered_moves(color, seq![lower(roll), higher(roll)]);
            let both_dice_moves = high_moves.filter(plays_both_dice()) + low_moves.filter(
                plays_both_dice(),
            );
            if both_dice_moves.len() > 0 {
                both_dice_moves
            } else if high_moves.len() > 0 {
                high_moves
            } else {
                low_moves
            }
        }
    }

    /// Whether `mov` is one of the legal moves of `color` for `roll`.
    pub open spec fn can_do_move(
        self,
        color: Color,
        roll: (usize, usize),
        mov: Seq<Submove>,
    ) -> bool {
        self.list_moves(color, roll).contains(mov)
    }

    /// Whether `color` may play the submoves of `mov` one after the other,
    /// from the last entry to the first.
    pub open spec fn playable(self, color: Color, mov: Seq<Submove>) -> bool
        decreases mov.len(),
    {
        mov.len() == 0 || (self.can_do_submove(color, mov.last()) && self.do_submove(
            color,
            mov.last(),
        ).playable(color, mov.drop_last()))
    }

    /// The layout after `color` has played the submoves of `mov`, from the
    /// last entry to the first.
    pub open spec fn do_move(self, color: Color, mov: Seq<Submove>) -> Layout
        decreases mov.len(),
    {
        if mov.len() == 0 {
            self
        } else {
            self.do_submove(color, mov.last()).do_move(color, mov.drop_last())
        }
    }

    /// Whether the turns can be played one after the other, each by the side
    /// and with the move that it names.
    pub open spec fn turns_playable(self, turns: Seq<(Color, Seq<Submove>)>) -> bool
        decreases turns.len(),
    {
        turns.len() == 0 || (self.playable(turns.first().0, turns.first().1) && self.do_move(
            turns.first().0,
            turns.first().1,
        ).turns_playable(turns.drop_first()))
    }

    /// The layout after the turns have been played one after the other.
    pub open spec fn after_turns(self, turns: Seq<(Color, Seq<Submove>)>) -> Layout
        decreases turns.len(),
    {
        if turns.len() == 0 {
            self
        } else {
            self.do_move(turns.first().0, turns.first().1).after_turns(turns.drop_first())
        }
    }

    /// The layout without checkers.
    pub open spec fn empty() -> Layout {
        Layout { red: no_counts(), white: no_counts() }
    }

    /// The layout at the start of a game.
    pub open spec fn initial() -> Layout {
        Layout { red: initial_counts(), white: initial_counts() }
    }

    /// One side has borne off fifteen checkers.
    pub open spec fn game_over(self) -> bool {
        self.count(Color::Red, 25) >= 15 || self.count(Color::White, 25) >= 15
    }

    /// What the driver does for `color`, which is to move and has rolled
    /// `roll`.
    pub open spec fn turn(self, color: Color, roll: (usize, usize)) -> Turn {
        if self.game_over() {
            Turn::Over
        } else if self.list_moves(color, roll).len() == 0 {
            Turn::Pass
        } else {
            Turn::Play
        }
    }
}

/// The higher die of a roll.
pub open spec fn higher(roll: (usize, usize)) -> usize {
    if roll.0 >= roll.1 {
        roll.0
    } else {
        roll.1
    }
}

/// The lower die of a roll.
pub open spec fn lower(roll: (usize, usize)) -> usize {
    if roll.0 >= roll.1 {
        roll.1
    } else {
        roll.0
    }
}

/// The test for a move that plays both dice of a roll.
pub open spec fn plays_both_dice() -> spec_fn(Seq<Submove>) -> bool {
    |mov: Seq<Submove>| mov.len() == 2
}

/// The counts of a side without checkers.
pub open spec fn no_counts() -> Seq<int> {
    Seq::new(26, |pos: int| 0int)
}

/// The counts of either side at the start of a game: two checkers on the
/// 24-point, five on the 13-point, three on the 8-point, five on the 6-point.
pub open spec fn initial_counts() -> Seq<int> {
    seq![
        0, 2, 0, 0, 0, 0, 0, 0, 0, 0, 0, 0, 5, 0, 0, 0, 0, 3, 0, 5, 0, 0, 0, 0, 0, 0,
    ]
}

} // verus!
