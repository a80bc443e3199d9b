//! A player at a console, who writes moves in backgammon notation.

use crate::layout::Layout;
use crate::notation::{
    assign_dice, bears_off, chars_of, is_word, lemma_first_error, parse_command, parse_move,
    parse_position, parse_submove, parse_submoves, read_command, read_number, slash_index, told,
    trim, trim_bounds, with_die, word_bounds, words, NotationError,
};
use crate::rustgammon::{Backgammon, Color, DiceRoll, Move, Submove, BEARING_OFF_POS};
use vstd::prelude::*;
use vstd::slice::slice_subrange;
use vstd::string::StrSliceExecFns;

verus! {

/// What a person is told where a line gives no move to play.
pub type CommandLineError = String;

/// The player of one side who types moves.
pub struct CommandLinePlayer {
    pub color: Color,
}

/// What a typed line asks for.
#[derive(Copy, Clone, PartialEq, Eq, Structural)]
pub enum Request {
    /// To see the legal moves.
    List,
    /// To see the board.
    Show,
    /// To play the move that it writes.
    Play,
}

/// Whether `result` gives the submove that was parsed, or tells its error.
pub open spec fn reports_submove(
    result: Result<Submove, CommandLineError>,
    parsed: Result<Submove, NotationError>,
) -> bool {
    match parsed {
        Ok(submove) => result == Ok::<Submove, CommandLineError>(submove),
        Err(error) => result matches Err(text) && text@ == error.spec_message(),
    }
}

/// Whether `result` gives the move that was parsed, or tells what is to be
/// told.
pub open spec fn reports_move(
    result: Result<Move, CommandLineError>,
    parsed: Result<Seq<Submove>, Seq<char>>,
) -> bool {
    match parsed {
        Ok(submoves) => result matches Ok(mov) && mov@ == submoves,
        Err(message) => result matches Err(text) && text@ == message,
    }
}

/// What the player of `color` is answered for a typed line after `roll`: the
/// move that the line writes where it is legal, else why there is none.
pub open spec fn answer(
    layout: Layout,
    color: Color,
    roll: (usize, usize),
    line: Seq<char>,
) -> Result<Seq<Submove>, Seq<char>> {
    match read_command(color, roll, line) {
        Err(message) => Err(message),
        Ok(submoves) => if layout.can_do_move(color, roll, submoves) {
            Ok(submoves)
        } else {
            Err("illegal move"@)
        },
    }
}

/// What the typed line asks for.
pub open spec fn request(line: Seq<char>) -> Request {
    if trim(line) == "list"@ {
        Request::List
    } else if trim(line) == "show"@ {
        Request::Show
    } else {
        Request::Play
    }
}

impl CommandLinePlayer {
    /// The side that the player plays.
    pub fn get_color(&self) -> (color: Color)
        ensures
            color == self.color,
    {
        self.color
    }

    /// Whether `pos` is a position of the board.
    pub fn is_valid_pos(&self, pos: usize) -> (valid: bool)
        ensures
            valid == (pos <= 25),
    {
        pos <= 25
    }

    /// The position, in the player's frame, that `text` names, where `keyword`
    /// names `position`.
    fn position_of(&self, text: &[char], keyword: &str, position: usize) -> (result: Result<
        i128,
        NotationError,
    >)
        requires
            position <= 25,
        ensures
            match parse_position(self.color, text@, keyword@, position as int) {
                Ok(pos) => result == Ok::<i128, NotationError>(pos as i128) && -usize::MAX <= pos
                    <= usize::MAX,
                Err(error) => result == Err::<i128, NotationError>(error),
            },
    {
        if is_word(text, keyword) {
            return Ok(position as i128);
        }
        match read_number(text) {
            Ok(point) => match self.color {
                Color::Red => Ok(BEARING_OFF_POS as i128 - point as i128),
                Color::White => Ok(point as i128),
            },
            Err(error) => Err(NotationError::Number(error)),
        }
    }

    /// The submove that `text` writes.
    fn submove_of(&self, text: &[char]) -> (result: Result<Submove, NotationError>)
        ensures
            result == parse_submove(self.color, text@),
    {
        let from_end = slash_index(text);
        let from_text = slice_subrange(text, 0, from_end);
        assert(from_text@ =~= text@.take(from_end as int));
        let from = match self.position_of(from_text, "bar", 0) {
            Ok(from) => from,
            Err(error) => {
                return Err(error);
            },
        };
        if from_end == text.len() {
            return Err(NotationError::Incomplete);
        }
        let rest = slice_subrange(text, from_end + 1, text.len());
        assert(rest@ =~= text@.skip(from_end + 1));
        let to_end = slash_index(rest);
        let to_text = slice_subrange(rest, 0, to_end);
        assert(to_text@ =~= rest@.take(to_end as int));
        let to = match self.position_of(to_text, "off", BEARING_OFF_POS) {
            Ok(to) => to,
            Err(error) => {
                return Err(error);
            },
        };
        if from >= to {
            return Err(NotationError::WrongDirection);
        }
        if from < 0 || !self.is_valid_pos(from as usize) {
            return Err(NotationError::OutOfRange);
        }
        if to < 0 || !self.is_valid_pos(to as usize) {
            return Err(NotationError::OutOfRange);
        }
        // Where the checker is borne off the die may be higher than this
        // distance: `parse_move` sees to that.
        Ok(Submove { from: from as usize, die: (to - from) as usize })
    }

    /// The submove that `submove` writes: `from/to`, where `from` is a point
    /// or `bar` and `to` is a point or `off`. The notation means the same on
    /// every board: `game` is not consulted.
    pub fn parse_submove(&self, game: &Backgammon, submove: &str) -> (result: Result<
        Submove,
        CommandLineError,
    >)
        ensures
            reports_submove(result, parse_submove(self.color, submove@)),
    {
        let text = chars_of(submove);
        match self.submove_of(text.as_slice()) {
            Ok(submove) => Ok(submove),
            Err(error) => Err(error.message()),
        }
    }

    /// The move that `command` writes after `roll`, as a stack: the submove
    /// written first is the last entry.
    pub fn parse_move(&self, game: &Backgammon, roll: DiceRoll, command: &str) -> (result: Result<
        Move,
        CommandLineError,
    >)
        ensures
            reports_move(result, told(parse_move(self.color, roll, command@))),
    {
        let text = chars_of(command);
        let bounds = word_bounds(text.as_slice());
        let ghost all = words(command@);
        let mut submoves: Vec<Submove> = Vec::new();
        let mut idx: usize = 0;
        proof {
            assert(all.take(0) =~= Seq::empty());
        }
        while idx < bounds.len()
            invariant
                idx <= bounds.len() == all.len(),
                all == words(command@),
                forall|k: int|
                    0 <= k < bounds@.len() ==> {
                        &&& (#[trigger] bounds@[k]).0 <= bounds@[k].1 <= command@.len()
                        &&& all[k] == command@.subrange(bounds@[k].0 as int, bounds@[k].1 as int)
                    },
                parse_submoves(self.color, all.take(idx as int)) == Ok::<
                    Seq<Submove>,
                    NotationError,
                >(submoves@),
            decreases bounds.len() - idx,
        {
            let (start, end) = bounds[idx];
            let word = command.substring_char(start, end);
            proof {
                assert(all.take(idx + 1).drop_last() =~= all.take(idx as int));
                assert(all.take(idx + 1).last() == word@);
            }
            match self.parse_submove(game, word) {
                Ok(submove) => {
                    submoves.push(submove);
                },
                Err(message) => {
                    proof {
                        lemma_first_error(self.color, all, idx + 1);
                    }
                    return Err(message);
                },
            }
            idx += 1;
        }
        proof {
            assert(all.take(idx as int) =~= all);
        }
        let submoves = play_dice(roll, submoves);
        // Submoves are treated as a stack, so reverse them.
        let mut stack: Vec<Submove> = Vec::new();
        let mut left: usize = submoves.len();
        while left > 0
            invariant
                left <= submoves.len(),
                stack@.len() == submoves.len() - left,
                forall|k: int|
                    0 <= k < stack@.len() ==> stack@[k] == submoves@[submoves.len() - 1 - k],
            decreases left,
        {
            left -= 1;
            stack.push(submoves[left]);
        }
        assert(stack@ =~= submoves@.reverse());
        Ok(Move { submoves: stack })
    }

    /// What `command` asks: nothing to play for `list` and `show`, else the
    /// move that it writes.
    pub fn parse_command(&self, game: &Backgammon, roll: DiceRoll, command: &str) -> (result:
        Result<Move, CommandLineError>)
        ensures
            reports_move(result, parse_command(self.color, roll, command@)),
    {
        let text = chars_of(command);
        if is_word(text.as_slice(), "list") || is_word(text.as_slice(), "show") {
            return Err(String::new());
        }
        self.parse_move(game, roll, command)
    }

    /// What a line as it was typed asks.
    pub fn read_command(&self, game: &Backgammon, roll: DiceRoll, line: &str) -> (result: Result<
        Move,
        CommandLineError,
    >)
        ensures
            reports_move(result, read_command(self.color, roll, line@)),
    {
        let text = chars_of(line);
        let (start, end) = trim_bounds(text.as_slice());
        self.parse_command(game, roll, line.substring_char(start, end))
    }

    /// What the typed line asks for: the driver lists the moves or shows the
    /// board itself.
    pub fn request_of(&self, line: &str) -> (asked: Request)
        ensures
            asked == request(line@),
    {
        let text = chars_of(line);
        let (start, end) = trim_bounds(text.as_slice());
        let command = slice_subrange(text.as_slice(), start, end);
        if is_word(command, "list") {
            Request::List
        } else if is_word(command, "show") {
            Request::Show
        } else {
            Request::Play
        }
    }

    /// Answers a typed line: the move that it writes where that move is
    /// legal, else what to tell the person before asking again.
    pub fn answer(&self, game: &Backgammon, roll: DiceRoll, line: &str) -> (result: Result<
        Move,
        CommandLineError,
    >)
        requires
            game@.valid(),
        ensures
            reports_move(result, answer(game@, self.color, roll, line@)),
    {
        let mov = match self.read_command(game, roll, line) {
            Ok(mov) => mov,
            Err(message) => {
                return Err(message);
            },
        };
        if game.can_do_move(self.color, roll, &mov) {
            return Ok(mov);
        }
        Err("illegal move".to_string())
    }
}

/// The submoves as written, with the dice of `roll` in place of distances
/// where a checker is borne off.
fn play_dice(roll: DiceRoll, submoves: Vec<Submove>) -> (played: Vec<Submove>)
    ensures
        played@ == assign_dice(roll, submoves@),
{
    let mut submoves = submoves;
    let ghost written = submoves@;
    if roll.0 == roll.1 {
        let mut idx: usize = 0;
        while idx < submoves.len() && idx < 4
            invariant
                idx <= 4,
                submoves@.len() == written.len(),
                forall|i: int|
                    0 <= i < idx && i < written.len() ==> submoves@[i] == with_die(
                        written[i],
                        roll.0,
                    ),
                forall|i: int| idx <= i < written.len() ==> submoves@[i] == written[i],
            decreases 4 - idx,
        {
            submoves[idx].die = roll.0;
            idx += 1;
        }
        assert(submoves@ =~= assign_dice(roll, written));
    } else if submoves.len() == 2 {
        let high = if roll.0 >= roll.1 {
            roll.0
        } else {
            roll.1
        };
        let low = if roll.0 >= roll.1 {
            roll.1
        } else {
            roll.0
        };
        let sub1 = submoves[0];
        let sub2 = submoves[1];
        let sub1_bearing_off = bears_off_exactly(&sub1);
        let sub2_bearing_off = bears_off_exactly(&sub2);
        if !sub1_bearing_off && sub2_bearing_off {
            if sub1.die == roll.0 {
                submoves[1].die = roll.1;
            } else {
                submoves[1].die = roll.0;
            }
        } else if sub1_bearing_off && !sub2_bearing_off {
            if sub2.die == roll.0 {
                submoves[0].die = roll.1;
            } else {
                submoves[0].die = roll.0;
            }
        } else if sub1_bearing_off && sub2_bearing_off {
            if sub1.die < sub2.die {
                submoves[0].die = low;
                submoves[1].die = high;
            } else {
                submoves[0].die = high;
                submoves[1].die = low;
            }
        }
        assert(submoves@ =~= assign_dice(roll, written));
    } else if submoves.len() == 1 {
        let sub = submoves[0];
        if bears_off_exactly(&sub) {
            submoves[0].die = if roll.0 >= roll.1 {
                roll.0
            } else {
                roll.1
            };
        }
        assert(submoves@ =~= assign_dice(roll, written));
    }
    submoves
}

/// Whether the distance of `submove` takes its checker to the bear-off
/// position.
fn bears_off_exactly(submove: &Submove) -> (exactly: bool)
    ensures
        exactly == bears_off(*submove),
{
    submove.from <= BEARING_OFF_POS && submove.die == BEARING_OFF_POS - submove.from
}

} // verus!
