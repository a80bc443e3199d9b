//! The board, the two sides, and the rules that move checkers on it.

use crate::chance::random_in_range;
use crate::laws::{
    lemma_do_submove_keeps_checkers, lemma_empty_layout, lemma_initial_layout,
    lemma_legal_moves_playable,
};
use crate::layout::{
    checkers_in, higher, initial_counts, lower, mirror, no_counts, plays_both_dice, Layout,
};
use vstd::prelude::*;
use vstd::slice::slice_subrange;
use vstd::std_specs::cmp::PartialEqSpecImpl;

verus! {

/// Number of positions of a side: the bar, the 24 points and the bear-off position.
pub const BOARD_SIZE: usize = 26;

/// Where hit checkers wait to re-enter, in either side's own frame.
pub const BAR_POS: usize = 0;

/// Where borne-off checkers rest, in either side's own frame.
pub const BEARING_OFF_POS: usize = 25;

/// A position of a side, in that side's own frame.
pub type Position = usize;

/// A number of checkers.
pub type Checker = i8;

pub type InternalBoard = [Checker; BOARD_SIZE];

/// One die: 1 to 6 where it was rolled.
pub type Die = usize;

/// The two dice of a roll, in either order.
pub type DiceRoll = (Die, Die);

/// The counts of either side at the start of a game.
const INITIAL_BOARD: InternalBoard = [
    0, 2, 0, 0, 0, 0, 0, 0, 0, 0, 0, 0, 5, 0, 0, 0, 0, 3, 0, 5, 0, 0, 0, 0, 0, 0,
];

/// The checker counts of one side, indexed in that side's own frame.
#[derive(Copy, Clone)]
pub struct Board {
    board: InternalBoard,
}

impl View for Board {
    type V = Seq<int>;

    closed spec fn view(&self) -> Seq<int> {
        Seq::new(BOARD_SIZE as nat, |pos: int| self.board[pos] as int)
    }
}

impl Default for Board {
    /// The board without checkers.
    fn default() -> (board: Board)
        ensures
            board@ == no_counts(),
    {
        Board { board: [0; BOARD_SIZE] }
    }
}

impl Board {
    /// Every board has 26 counts, each within the range of a `Checker`.
    pub proof fn lemma_view_range(&self)
        ensures
            self@.len() == BOARD_SIZE,
            forall|pos: int| 0 <= pos < BOARD_SIZE ==> i8::MIN <= #[trigger] self@[pos] <= i8::MAX,
    {
    }

    /// The number of checkers at `pos`.
    pub fn get(&self, pos: Position) -> (checkers: Checker)
        requires
            pos < BOARD_SIZE,
        ensures
            checkers == self@[pos as int],
    {
        self.board[pos]
    }

    /// Puts `checkers` checkers at `pos`, whatever was there.
    pub fn set(&mut self, pos: Position, checkers: Checker)
        requires
            pos < BOARD_SIZE,
        ensures
            final(self)@ == old(self)@.update(pos as int, checkers as int),
    {
        self.board[pos] = checkers;
    }
}

/// The two sides.
#[derive(Copy, Clone, PartialEq, Eq, Structural)]
pub enum Color {
    Red,
    White,
}

/// One checker played by one die. `from` is in the mover's own frame; where
/// the checker lands follows from the two.
#[derive(Copy, Clone, PartialEq, Eq, Structural)]
pub struct Submove {
    pub from: Position,
    pub die: Die,
}

/// What the driver of a game does for the side that is to move.
#[derive(Copy, Clone, PartialEq, Eq, Structural)]
pub enum Turn {
    /// The game is over: the side that moved last has won.
    Over,
    /// The side to move has no legal move for its roll, and passes.
    Pass,
    /// The side to move is asked for moves until it gives a legal one.
    Play,
}

impl Color {
    /// The name of the side.
    pub open spec fn name(self) -> Seq<char> {
        match self {
            Color::Red => "red"@,
            Color::White => "white"@,
        }
    }

    /// The name of the side, as text.
    pub fn to_string(self) -> (name: String)
        ensures
            name@ == self.name(),
    {
        match self {
            Color::Red => "red".to_string(),
            Color::White => "white".to_string(),
        }
    }

    pub open spec fn spec_opposite(self) -> Color {
        match self {
            Color::Red => Color::White,
            Color::White => Color::Red,
        }
    }

    /// The side that plays against this one.
    #[verifier::when_used_as_spec(spec_opposite)]
    pub fn opposite(self) -> (other: Color)
        ensures
            other == self.spec_opposite(),
    {
        match self {
            Color::Red => Color::White,
            Color::White => Color::Red,
        }
    }
}

impl Submove {
    pub open spec fn spec_destination(&self) -> Position {
        if self.from + self.die >= BOARD_SIZE {
            BEARING_OFF_POS
        } else {
            (self.from + self.die) as usize
        }
    }

    /// Where the checker lands: `die` points further, or the bear-off position
    /// when that is past the last point.
    #[verifier::when_used_as_spec(spec_destination)]
    pub fn destination(&self) -> (pos: Position)
        ensures
            pos == self.spec_destination(),
            pos <= BEARING_OFF_POS,
    {
        if self.from >= BOARD_SIZE || self.die >= BOARD_SIZE - self.from {
            BEARING_OFF_POS
        } else {
            self.from + self.die
        }
    }
}

/// One full turn: the submoves played, as a stack. The submove played first
/// is the last entry. Two moves are equal when they hold the same submoves in
/// the same order.
pub struct Move {
    pub submoves: Vec<Submove>,
}

impl View for Move {
    type V = Seq<Submove>;

    open spec fn view(&self) -> Seq<Submove> {
        self.submoves@
    }
}

impl DeepView for Move {
    type V = Seq<Submove>;

    open spec fn deep_view(&self) -> Seq<Submove> {
        self.submoves@
    }
}

impl PartialEq for Move {
    fn eq(&self, other: &Move) -> (equal: bool) {
        if self.submoves.len() != other.submoves.len() {
            return false;
        }
        let mut idx: usize = 0;
        while idx < self.submoves.len()
            invariant
                idx <= self.submoves.len() == other.submoves.len(),
                forall|i: int| 0 <= i < idx ==> self@[i] == other@[i],
            decreases self.submoves.len() - idx,
        {
            if self.submoves[idx] != other.submoves[idx] {
                return false;
            }
            idx += 1;
        }
        assert(self@ =~= other@);
        true
    }
}

impl PartialEqSpecImpl for Move {
    open spec fn obeys_eq_spec() -> bool {
        true
    }

    open spec fn eq_spec(&self, other: &Move) -> bool {
        self@ == other@
    }
}

impl Eq for Move {

}

/// A source of moves for one side: a person at a console, or a program. The
/// move it proposes need not be legal.
pub trait Player {
    /// The side that the player plays.
    fn get_color(&self) -> Color;

    /// The move that the player proposes for `roll` in `game`.
    fn make_move(&self, game: &Backgammon, roll: DiceRoll) -> Move
        requires
            game@.valid(),
    ;
}

/// A game in progress: the boards of both sides.
#[derive(Copy, Clone)]
pub struct Backgammon {
    pub red_board: Board,
    pub white_board: Board,
}

impl View for Backgammon {
    type V = Layout;

    open spec fn view(&self) -> Layout {
        Layout { red: self.red_board@, white: self.white_board@ }
    }
}

impl Default for Backgammon {
    /// The game without checkers on either board.
    fn default() -> (game: Backgammon)
        ensures
            game@ == Layout::empty(),
            game@.valid(),
    {
        proof {
            lemma_empty_layout();
        }
        Backgammon { red_board: Board::default(), white_board: Board::default() }
    }
}

impl Backgammon {
    /// Sets both sides up for the start of a game.
    pub fn init(&mut self)
        ensures
            final(self)@ == Layout::initial(),
            final(self)@.valid(),
            final(self)@.total(Color::Red) == 15,
            final(self)@.total(Color::White) == 15,
    {
        self.red_board = Board { board: INITIAL_BOARD };
        self.white_board = Board { board: INITIAL_BOARD };
        assert(self.red_board@ =~= initial_counts());
        assert(self.white_board@ =~= initial_counts());
        proof {
            lemma_initial_layout();
        }
    }

    /// The number of checkers of `color` at `pos`.
    pub fn get_board(&self, color: Color, pos: Position) -> (checkers: Checker)
        requires
            pos < BOARD_SIZE,
        ensures
            checkers == self@.count(color, pos as int),
    {
        proof {
            self.red_board.lemma_view_range();
            self.white_board.lemma_view_range();
        }
        match color {
            Color::Red => self.red_board.get(pos),
            Color::White => self.white_board.get(pos),
        }
    }

    /// Puts `checkers` checkers of `color` at `pos`, whatever was there.
    pub fn set_board(&mut self, color: Color, pos: Position, checkers: Checker)
        requires
            pos < BOARD_SIZE,
        ensures
            final(self)@ == old(self)@.place(color, pos as int, checkers as int),
    {
        match color {
            Color::Red => self.red_board.set(pos, checkers),
            Color::White => self.white_board.set(pos, checkers),
        }
    }

    /// Whether the counts of `color` are sound: none negative, and no more in
    /// all than one `Checker` can count.
    fn side_is_valid(&self, color: Color) -> (valid: bool)
        ensures
            valid == ((forall|pos: int| 0 <= pos < 26 ==> 0 <= #[trigger] self@.side(color)[pos])
                && self@.total(color) <= i8::MAX),
    {
        proof {
            self.red_board.lemma_view_range();
            self.white_board.lemma_view_range();
        }
        let ghost counts = self@.side(color);
        let mut total: i32 = 0;
        let mut pos: usize = 0;
        while pos < BOARD_SIZE
            invariant
                pos <= BOARD_SIZE,
                counts == self@.side(color),
                counts.len() == BOARD_SIZE,
                forall|p: int| 0 <= p < pos ==> 0 <= #[trigger] counts[p],
                total == checkers_in(counts.take(pos as int)),
                0 <= total <= i8::MAX * pos,
            decreases BOARD_SIZE - pos,
        {
            let checkers = self.get_board(color, pos);
            if checkers < 0 {
                return false;
            }
            proof {
                assert(counts.take(pos + 1).drop_last() =~= counts.take(pos as int));
            }
            total = total + checkers as i32;
            pos += 1;
        }
        proof {
            assert(counts.take(BOARD_SIZE as int) =~= counts);
        }
        total <= i8::MAX as i32
    }

    /// Whether the game is in a state that moves can be played from: no count
    /// is negative, and a side has no more checkers than one `Checker` can
    /// count.
    pub fn is_valid(&self) -> (valid: bool)
        ensures
            valid == self@.valid(),
    {
        proof {
            self.red_board.lemma_view_range();
            self.white_board.lemma_view_range();
        }
        self.side_is_valid(Color::Red) && self.side_is_valid(Color::White)
    }

    /// The same point in the frame of the other side.
    pub fn get_opposite_pos(&self, pos: Position) -> (opposite: Position)
        requires
            pos <= BEARING_OFF_POS,
        ensures
            opposite == mirror(pos as int),
    {
        BEARING_OFF_POS - pos
    }

    /// Whether the other side holds `pos` against `color`.
    pub fn is_blocked(&self, color: Color, pos: Position) -> (blocked: bool)
        requires
            pos <= BEARING_OFF_POS,
        ensures
            blocked == self@.blocked(color, pos as int),
    {
        if pos == BEARING_OFF_POS {
            return false;
        }
        let opposite_pos = self.get_opposite_pos(pos);
        1 < self.get_board(color.opposite(), opposite_pos)
    }

    /// Whether every checker of `color` has reached its home board.
    pub fn is_all_home(&self, color: Color) -> (home: bool)
        ensures
            home == self@.all_home(color),
    {
        let end_of_outer_board: usize = 19;
        let mut pos: usize = 0;
        while pos < end_of_outer_board
            invariant
                pos <= end_of_outer_board == 19,
                forall|p: int| 0 <= p < pos ==> self@.count(color, p) <= 0,
            decreases end_of_outer_board - pos,
        {
            if 0 < self.get_board(color, pos) {
                return false;
            }
            pos += 1;
        }
        true
    }

    /// Whether `color` may play `submove` on this board.
    pub fn can_do_submove(&self, color: Color, submove: &Submove) -> (legal: bool)
        ensures
            legal == self@.can_do_submove(color, *submove),
    {
        proof {
            self.red_board.lemma_view_range();
            self.white_board.lemma_view_range();
        }
        // Off the board there is no checker to move.
        if submove.from >= BOARD_SIZE {
            return false;
        }
        // Make sure there is a checker to move.
        if 0 == self.get_board(color, submove.from) {
            return false;
        }
        // Checkers that were borne off stay off.
        if BEARING_OFF_POS == submove.from {
            return false;
        }
        // Checkers on the bar must enter first.
        if 0 < self.get_board(color, BAR_POS) && submove.from != BAR_POS {
            return false;
        }
        let destination = submove.destination();
        if destination == BEARING_OFF_POS {
            if !self.is_all_home(color) {
                return false;
            }
            // A die may bear off a checker from a lower point only when no
            // checker is left on the point it bears off exactly, nor between.
            let start_pos: usize = if submove.die >= BEARING_OFF_POS {
                0
            } else {
                BEARING_OFF_POS - submove.die
            };
            let mut pos: usize = start_pos;
            while pos < submove.from
                invariant
                    25 - submove.die <= start_pos <= pos,
                    submove.from < BOARD_SIZE,
                    forall|p: int| start_pos <= p < pos ==> self@.count(color, p) <= 0,
                decreases submove.from - pos,
            {
                if 0 < self.get_board(color, pos) {
                    assert(self@.held_behind(color, *submove)) by {
                        assert(25 - submove.die <= pos < submove.from && self@.count(
                            color,
                            pos as int,
                        ) > 0);
                    }
                    return false;
                }
                pos += 1;
            }
        }
        !self.is_blocked(color, destination)
    }

    /// The submoves that `color` may play with `die`, in ascending order of
    /// where they start.
    pub fn list_submoves(&self, color: Color, die: Die) -> (submoves: Vec<Submove>)
        ensures
            submoves@ == self@.list_submoves(color, die),
    {
        let mut submoves: Vec<Submove> = Vec::new();
        let ghost candidates = Layout::candidates(die);
        let ghost legal = |submove: Submove| self@.can_do_submove(color, submove);
        proof {
            assert(candidates.take(0) =~= Seq::empty());
            assert(candidates.take(0).filter(legal) =~= Seq::empty()) by {
                reveal(Seq::filter);
            }
        }
        let mut pos: usize = 0;
        while pos < BEARING_OFF_POS
            invariant
                pos <= BEARING_OFF_POS,
                candidates == Layout::candidates(die),
                legal == (|submove: Submove| self@.can_do_submove(color, submove)),
                submoves@ == candidates.take(pos as int).filter(legal),
            decreases BEARING_OFF_POS - pos,
        {
            let submove = Submove { from: pos, die: die };
            proof {
                assert(candidates.take(pos + 1) =~= candidates.take(pos as int).push(submove));
                candidates.take(pos as int).lemma_filter_push(submove, legal);
            }
            if self.can_do_submove(color, &submove) {
                submoves.push(submove);
            }
            pos += 1;
        }
        proof {
            assert(candidates.take(BEARING_OFF_POS as int) =~= candidates);
        }
        submoves
    }

    /// Plays `submove` for `color`: a blot at the landing point goes to its
    /// owner's bar, and the checker moves.
    pub fn do_submove(&mut self, color: Color, submove: &Submove)
        requires
            old(self)@.valid(),
            old(self)@.can_do_submove(color, *submove),
        ensures
            final(self)@ == old(self)@.do_submove(color, *submove),
            final(self)@.valid(),
            final(self)@.total(Color::Red) == old(self)@.total(Color::Red),
            final(self)@.total(Color::White) == old(self)@.total(Color::White),
    {
        proof {
            lemma_do_submove_keeps_checkers(self@, color, *submove);
        }
        let destination = submove.destination();
        let opposite_pos = self.get_opposite_pos(destination);
        let opposite_color = color.opposite();
        // A blot is hit and goes to the bar, but not where we are bearing off.
        let is_blot = 1 == self.get_board(opposite_color, opposite_pos);
        if is_blot && destination != BEARING_OFF_POS {
            let checkers_in_bar = self.get_board(opposite_color, BAR_POS);
            self.set_board(opposite_color, BAR_POS, checkers_in_bar + 1);
            self.set_board(opposite_color, opposite_pos, 0);
        }
        let checkers_from = self.get_board(color, submove.from);
        self.set_board(color, submove.from, checkers_from - 1);
        let checkers_to = self.get_board(color, destination);
        self.set_board(color, destination, checkers_to + 1);
    }

    /// The moves that play `dice` in the order given, each as far as it can be
    /// played.
    pub fn list_moves_with_ordered_dice_r(&self, color: Color, dice: &[Die]) -> (moves: Vec<Move>)
        requires
            self@.valid(),
        ensures
            moves.deep_view() == self@.ordered_moves(color, dice@),
        decreases dice.len(),
    {
        let mut moves: Vec<Move> = Vec::new();
        if dice.len() == 0 {
            assert(moves.deep_view() =~= Seq::empty());
            return moves;
        }
        let die = dice[0];
        let dice_tail = slice_subrange(dice, 1, dice.len());
        let submoves = self.list_submoves(color, die);
        let ghost after = self@.continue_with(color, dice@.drop_first());
        proof {
            assert(dice_tail@ =~= dice@.drop_first());
            assert(submoves@.take(0) =~= Seq::empty());
            assert(moves.deep_view() =~= submoves@.take(0).flat_map(after));
        }
        let mut idx: usize = 0;
        while idx < submoves.len()
            invariant
                idx <= submoves.len(),
                self@.valid(),
                submoves@ == self@.list_submoves(color, die),
                dice_tail@ == dice@.drop_first(),
                dice.len() > 0,
                after == self@.continue_with(color, dice@.drop_first()),
                moves.deep_view() == submoves@.take(idx as int).flat_map(after),
            decreases submoves.len() - idx,
        {
            let submove = submoves[idx];
            proof {
                Layout::candidates(die).lemma_filter_pred(
                    |submove: Submove| self@.can_do_submove(color, submove),
                    idx as int,
                );
            }
            let mut game = *self;
            game.do_submove(color, &submove);
            let mut next_moves = game.list_moves_with_ordered_dice_r(color, dice_tail);
            // Where no further die can be played, the submove is a move by itself.
            if next_moves.is_empty() {
                next_moves.push(Move { submoves: Vec::new() });
                assert(next_moves.deep_view() =~= seq![Seq::<Submove>::empty()]);
            }
            push_onto_each(&mut next_moves, submove);
            proof {
                submoves@.lemma_flat_map_take_append(after, idx as int);
            }
            let ghost before = moves.deep_view();
            let ghost added = next_moves.deep_view();
            moves.append(&mut next_moves);
            assert(moves.deep_view() =~= before + added);
            idx += 1;
        }
        proof {
            assert(submoves@.take(submoves.len() as int) =~= submoves@);
        }
        moves
    }

    /// The legal moves of `color` for `roll`: all those that play both dice
    /// where there is one, else those that play the higher die, else those
    /// that play the lower.
    pub fn list_moves(&self, color: Color, roll: DiceRoll) -> (moves: Vec<Move>)
        requires
            self@.valid(),
        ensures
            moves.deep_view() == self@.list_moves(color, roll),
    {
        if roll.0 == roll.1 {
            let dice = [roll.0, roll.0, roll.0, roll.0];
            assert(dice@ =~= seq![roll.0, roll.0, roll.0, roll.0]);
            return self.list_moves_with_ordered_dice_r(color, dice.as_slice());
        }
        let high = if roll.0 >= roll.1 {
            roll.0
        } else {
            roll.1
        };
        let low = if roll.0 >= roll.1 {
            roll.1
        } else {
            roll.0
        };
        let high_dice = [high, low];
        let low_dice = [low, high];
        assert(high_dice@ =~= seq![higher(roll), lower(roll)]);
        assert(low_dice@ =~= seq![lower(roll), higher(roll)]);
        let high_moves = self.list_moves_with_ordered_dice_r(color, high_dice.as_slice());
        let low_moves = self.list_moves_with_ordered_dice_r(color, low_dice.as_slice());
        let mut both_dice_moves: Vec<Move> = Vec::new();
        assert(both_dice_moves.deep_view() =~= Seq::empty());
        keep_both_dice_moves(&high_moves, &mut both_dice_moves);
        keep_both_dice_moves(&low_moves, &mut both_dice_moves);
        if both_dice_moves.len() > 0 {
            // Only moves that play both dice are allowed.
            return both_dice_moves;
        }
        // Only one die can be played: the higher wherever it can.
        if 0 < high_moves.len() {
            high_moves
        } else {
            low_moves
        }
    }

    /// Whether `mov` is one of the legal moves of `color` for `roll`.
    pub fn can_do_move(&self, color: Color, roll: DiceRoll, mov: &Move) -> (legal: bool)
        requires
            self@.valid(),
        ensures
            legal == self@.can_do_move(color, roll, mov@),
    {
        let legal_moves = self.list_moves(color, roll);
        let mut idx: usize = 0;
        while idx < legal_moves.len()
            invariant
                idx <= legal_moves.len(),
                legal_moves.deep_view() == self@.list_moves(color, roll),
                forall|i: int| 0 <= i < idx ==> self@.list_moves(color, roll)[i] != mov@,
            decreases legal_moves.len() - idx,
        {
            assert(legal_moves.deep_view()[idx as int] == legal_moves[idx as int]@);
            if *mov == legal_moves[idx] {
                return true;
            }
            idx += 1;
        }
        false
    }

    /// Plays the submoves of `mov` for `color`, from the last entry to the
    /// first. The move is not tested: the caller has found it legal.
    pub fn do_move(&mut self, color: Color, mov: &Move)
        requires
            old(self)@.valid(),
            old(self)@.playable(color, mov@),
        ensures
            final(self)@ == old(self)@.do_move(color, mov@),
            final(self)@.valid(),
            final(self)@.total(Color::Red) == old(self)@.total(Color::Red),
            final(self)@.total(Color::White) == old(self)@.total(Color::White),
    {
        let mut move_idx: usize = mov.submoves.len();
        assert(mov@.take(move_idx as int) =~= mov@);
        while move_idx > 0
            invariant
                move_idx <= mov.submoves.len(),
                self@.valid(),
                self@.playable(color, mov@.take(move_idx as int)),
                self@.do_move(color, mov@.take(move_idx as int)) == old(self)@.do_move(color, mov@),
                self@.total(Color::Red) == old(self)@.total(Color::Red),
                self@.total(Color::White) == old(self)@.total(Color::White),
            decreases move_idx,
        {
            let ghost left = mov@.take(move_idx as int);
            move_idx -= 1;
            assert(left.last() == mov@[move_idx as int]);
            assert(left.drop_last() =~= mov@.take(move_idx as int));
            self.do_submove(color, &mov.submoves[move_idx]);
        }
    }

    /// Plays `mov` for `color` if it is legal for `roll`, and says whether it
    /// was played. An illegal move leaves the board as it is.
    pub fn try_move(&mut self, color: Color, roll: DiceRoll, mov: &Move) -> (played: bool)
        requires
            old(self)@.valid(),
        ensures
            played == old(self)@.can_do_move(color, roll, mov@),
            played ==> final(self)@ == old(self)@.do_move(color, mov@),
            !played ==> final(self)@ == old(self)@,
            final(self)@.valid(),
            final(self)@.total(Color::Red) == old(self)@.total(Color::Red),
            final(self)@.total(Color::White) == old(self)@.total(Color::White),
    {
        if self.can_do_move(color, roll, mov) {
            proof {
                lemma_legal_moves_playable(self@, color, roll, mov@);
            }
            self.do_move(color, mov);
            return true;
        }
        false
    }

    /// Asks `player` for its color and for a move, and plays that move for
    /// that color if it is legal for `roll`. Returns whether the move was
    /// played; an illegal move leaves the board as it is. What the player
    /// answers is its own affair: the contract holds for every color and
    /// every move that its two methods can give for this game and this roll.
    pub fn play_move<T: Player>(&mut self, roll: DiceRoll, player: &T) -> (played: bool)
        requires
            old(self)@.valid(),
        ensures
            exists|color: Color, mov: Move|
                #![trigger
                    call_ensures(T::get_color, (player,), color),
                    call_ensures(T::make_move, (player, &*old(self), roll), mov)
                ]
                {
                    &&& call_ensures(T::get_color, (player,), color)
                    &&& call_ensures(T::make_move, (player, &*old(self), roll), mov)
                    &&& played == old(self)@.can_do_move(color, roll, mov@)
                    &&& played ==> final(self)@ == old(self)@.do_move(color, mov@)
                },
            !played ==> final(self)@ == old(self)@,
            final(self)@.valid(),
            final(self)@.total(Color::Red) == old(self)@.total(Color::Red),
            final(self)@.total(Color::White) == old(self)@.total(Color::White),
    {
        let color = player.get_color();
        let player_move = player.make_move(self, roll);
        self.try_move(color, roll, &player_move)
    }

    /// Rolls the two dice.
    pub fn roll_dice(&self) -> (roll: DiceRoll)
        ensures
            1 <= roll.0 <= 6,
            1 <= roll.1 <= 6,
    {
        let a = random_in_range(1, 7);
        let b = random_in_range(1, 7);
        (a, b)
    }

    /// What the driver does for `color`, which is to move and has rolled
    /// `roll`.
    pub fn turn(&self, color: Color, roll: DiceRoll) -> (next: Turn)
        requires
            self@.valid(),
        ensures
            next == self@.turn(color, roll),
    {
        if self.is_game_over() {
            return Turn::Over;
        }
        if self.list_moves(color, roll).is_empty() {
            Turn::Pass
        } else {
            Turn::Play
        }
    }

    /// Whether one side has borne off all of its fifteen checkers.
    pub fn is_game_over(&self) -> (over: bool)
        ensures
            over == self@.game_over(),
    {
        let red_checkers = self.get_board(Color::Red, BEARING_OFF_POS);
        if 15 <= red_checkers {
            return true;
        }
        let white_checkers = self.get_board(Color::White, BEARING_OFF_POS);
        15 <= white_checkers
    }
}

/// Appends to `kept` a copy of each move of `moves` that plays both dice.
fn keep_both_dice_moves(moves: &Vec<Move>, kept: &mut Vec<Move>)
    ensures
        final(kept).deep_view() == old(kept).deep_view() + moves.deep_view().filter(
            plays_both_dice(),
        ),
{
    let ghost all = moves.deep_view();
    proof {
        assert(all.take(0) =~= Seq::empty());
        assert(all.take(0).filter(plays_both_dice()) =~= Seq::empty()) by {
            reveal(Seq::filter);
        }
        assert(kept.deep_view() =~= old(kept).deep_view() + all.take(0).filter(plays_both_dice()));
    }
    let mut idx: usize = 0;
    while idx < moves.len()
        invariant
            idx <= moves.len(),
            all == moves.deep_view(),
            kept.deep_view() == old(kept).deep_view() + all.take(idx as int).filter(
                plays_both_dice(),
            ),
        decreases moves.len() - idx,
    {
        proof {
            assert(all.take(idx + 1) =~= all.take(idx as int).push(moves[idx as int]@));
            all.take(idx as int).lemma_filter_push(moves[idx as int]@, plays_both_dice());
        }
        if moves[idx].submoves.len() == 2 {
            let ghost before = kept.deep_view();
            let copy = Move { submoves: vec![moves[idx].submoves[0], moves[idx].submoves[1]] };
            assert(copy@ =~= moves[idx as int]@);
            kept.push(copy);
            assert(kept.deep_view() =~= before.push(copy@));
        }
        idx += 1;
    }
    proof {
        assert(all.take(moves.len() as int) =~= all);
    }
}

/// Puts `submove` on top of each move of `moves`.
fn push_onto_each(moves: &mut Vec<Move>, submove: Submove)
    ensures
        final(moves).deep_view() == old(moves).deep_view().map_values(
            |rest: Seq<Submove>| rest.push(submove),
        ),
{
    let mut idx: usize = 0;
    while idx < moves.len()
        invariant
            idx <= moves.len() == old(moves).len(),
            forall|i: int| 0 <= i < idx ==> moves[i]@ == (#[trigger] old(moves)[i])@.push(submove),
            forall|i: int| idx <= i < moves.len() ==> moves[i]@ == (#[trigger] old(moves)[i])@,
        decreases moves.len() - idx,
    {
        moves[idx].submoves.push(submove);
        idx += 1;
    }
    assert(moves.deep_view() =~= old(moves).deep_view().map_values(
        |rest: Seq<Submove>| rest.push(submove),
    ));
}

} // verus!
