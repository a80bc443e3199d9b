//! The notation in which a person writes a move: submoves separated by white
//! space, each written `from/to`, where `from` is a point number or `bar` and
//! `to` is a point number or `off`. Point numbers are those of White's frame.

use crate::layout::{higher, lower};
use crate::rustgammon::{Color, Submove};
use vstd::prelude::*;

verus! {

/// White space, as Unicode defines it.
pub open spec fn is_space(c: char) -> bool {
    let code = c as u32;
    ||| 0x9 <= code <= 0xD
    ||| code == 0x20
    ||| code == 0x85
    ||| code == 0xA0
    ||| code == 0x1680
    ||| 0x2000 <= code <= 0x200A
    ||| code == 0x2028
    ||| code == 0x2029
    ||| code == 0x202F
    ||| code == 0x205F
    ||| code == 0x3000
}

/// A word begun as `begun` and ended here counts as a word unless it is empty.
pub open spec fn ended(begun: Seq<char>) -> Seq<Seq<char>> {
    if begun.len() == 0 {
        Seq::empty()
    } else {
        seq![begun]
    }
}

/// The words of `text`, the first of them begun as `begun` before `text`
/// starts.
pub open spec fn words_after(begun: Seq<char>, text: Seq<char>) -> Seq<Seq<char>>
    decreases text.len(),
{
    if text.len() == 0 {
        ended(begun)
    } else if is_space(text.first()) {
        ended(begun) + words_after(Seq::empty(), text.drop_first())
    } else {
        words_after(begun.push(text.first()), text.drop_first())
    }
}

/// The words of `text`: its longest runs of characters that are not white
/// space, in order.
pub open spec fn words(text: Seq<char>) -> Seq<Seq<char>> {
    words_after(Seq::empty(), text)
}

/// `text` without the white space at its start.
pub open spec fn trim_start(text: Seq<char>) -> Seq<char>
    decreases text.len(),
{
    if text.len() > 0 && is_space(text.first()) {
        trim_start(text.drop_first())
    } else {
        text
    }
}

/// `text` without the white space at its end.
pub open spec fn trim_end(text: Seq<char>) -> Seq<char>
    decreases text.len(),
{
    if text.len() > 0 && is_space(text.last()) {
        trim_end(text.drop_last())
    } else {
        text
    }
}

/// `text` without the white space at its start and at its end.
pub open spec fn trim(text: Seq<char>) -> Seq<char> {
    trim_end(trim_start(text))
}

/// The characters of `text` before its first `/`: all of it where it has none.
pub open spec fn before_slash(text: Seq<char>) -> Seq<char>
    decreases text.len(),
{
    if text.len() == 0 || text.first() == '/' {
        Seq::empty()
    } else {
        seq![text.first()] + before_slash(text.drop_first())
    }
}

/// What follows the first `/` of `text`, where it has one.
pub open spec fn after_slash(text: Seq<char>) -> Option<Seq<char>>
    decreases text.len(),
{
    if text.len() == 0 {
        None
    } else if text.first() == '/' {
        Some(text.drop_first())
    } else {
        after_slash(text.drop_first())
    }
}

/// Why a text is no number.
pub enum NumberError {
    /// The text is empty.
    Empty,
    /// The text holds a character that is no decimal digit, or a sign alone.
    InvalidDigit,
    /// The number is more than a `usize` holds.
    TooLarge,
}

/// Why a text is no move.
pub enum NotationError {
    /// A submove has no `/`.
    Incomplete,
    /// A point is not written as a number.
    Number(NumberError),
    /// A submove does not go forward.
    WrongDirection,
    /// A point is not on the board.
    OutOfRange,
}

/// Whether `c` is one of the decimal digits `0` to `9`.
pub open spec fn is_digit(c: char) -> bool {
    0x30 <= c as u32 <= 0x39
}

/// The value of a decimal digit.
pub open spec fn digit(c: char) -> int {
    c as u32 - 0x30
}

/// The number that a sequence of decimal digits writes.
pub open spec fn decimal(digits: Seq<char>) -> int
    decreases digits.len(),
{
    if digits.len() == 0 {
        0
    } else {
        10 * decimal(digits.drop_last()) + digit(digits.last())
    }
}

/// The decimal digits at the start of `text`.
pub open spec fn leading_digits(text: Seq<char>) -> Seq<char>
    decreases text.len(),
{
    if text.len() == 0 || !is_digit(text.first()) {
        Seq::empty()
    } else {
        seq![text.first()] + leading_digits(text.drop_first())
    }
}

/// `text` without a plus sign at its start.
pub open spec fn unsigned(text: Seq<char>) -> Seq<char> {
    if text.len() > 0 && text.first() == '+' {
        text.drop_first()
    } else {
        text
    }
}

/// The number that `text` writes: decimal digits, with or without a plus
/// sign before them, of a value that a `usize` holds. A text that goes past
/// that value before its first wrong character is too large.
pub open spec fn parse_number(text: Seq<char>) -> Result<usize, NumberError> {
    let digits = leading_digits(unsigned(text));
    if text.len() == 0 {
        Err(NumberError::Empty)
    } else if unsigned(text).len() == 0 {
        Err(NumberError::InvalidDigit)
    } else if decimal(digits) > usize::MAX {
        Err(NumberError::TooLarge)
    } else if digits.len() < unsigned(text).len() {
        Err(NumberError::InvalidDigit)
    } else {
        Ok(decimal(digits) as usize)
    }
}

/// The position, in the frame of `color`, of the point that is written
/// `point`.
pub open spec fn own_frame(color: Color, point: int) -> int {
    match color {
        Color::Red => 25 - point,
        Color::White => point,
    }
}

/// The position that `text` names, where `keyword` names `position`.
pub open spec fn parse_position(
    color: Color,
    text: Seq<char>,
    keyword: Seq<char>,
    position: int,
) -> Result<int, NotationError> {
    if text == keyword {
        Ok(position)
    } else {
        match parse_number(text) {
            Ok(point) => Ok(own_frame(color, point as int)),
            Err(error) => Err(NotationError::Number(error)),
        }
    }
}

/// The submove that `text` writes for `color`. The die is the distance that
/// the checker goes.
pub open spec fn parse_submove(color: Color, text: Seq<char>) -> Result<Submove, NotationError> {
    match parse_position(color, before_slash(text), "bar"@, 0) {
        Err(error) => Err(error),
        Ok(from) => match after_slash(text) {
            None => Err(NotationError::Incomplete),
            Some(rest) => match parse_position(color, before_slash(rest), "off"@, 25) {
                Err(error) => Err(error),
                Ok(to) => if from >= to {
                    Err(NotationError::WrongDirection)
                } else if !(0 <= from <= 25 && 0 <= to <= 25) {
                    Err(NotationError::OutOfRange)
                } else {
                    Ok(Submove { from: from as usize, die: (to - from) as usize })
                },
            },
        },
    }
}

/// The submoves that `words` write for `color`, in order, or what is wrong
/// with the first of them that is wrong.
pub open spec fn parse_submoves(color: Color, words: Seq<Seq<char>>) -> Result<
    Seq<Submove>,
    NotationError,
>
    decreases words.len(),
{
    if words.len() == 0 {
        Ok(Seq::empty())
    } else {
        match parse_submoves(color, words.drop_last()) {
            Err(error) => Err(error),
            Ok(submoves) => match parse_submove(color, words.last()) {
                Err(error) => Err(error),
                Ok(submove) => Ok(submoves.push(submove)),
            },
        }
    }
}

/// Whether the distance of `submove` takes its checker to the bear-off
/// position.
pub open spec fn bears_off(submove: Submove) -> bool {
    submove.from + submove.die == 25
}

/// `submove` played with `die`.
pub open spec fn with_die(submove: Submove, die: usize) -> Submove {
    Submove { from: submove.from, die }
}

/// The die of `roll` that is left when `die` has been played.
pub open spec fn other_die(roll: (usize, usize), die: usize) -> usize {
    if die == roll.0 {
        roll.1
    } else {
        roll.0
    }
}

/// The submoves as written, with the dice of `roll` in place of distances
/// where a checker is borne off, since a die may then be higher than the
/// distance. After a double each of the first four submoves plays that die.
/// Of two submoves the one that bears off plays the die that the other left;
/// where both bear off, the longer way plays the higher die. A single submove
/// that bears off plays the higher die.
pub open spec fn assign_dice(roll: (usize, usize), submoves: Seq<Submove>) -> Seq<Submove> {
    if roll.0 == roll.1 {
        Seq::new(
            submoves.len(),
            |i: int|
                if i < 4 {
                    with_die(submoves[i], roll.0)
                } else {
                    submoves[i]
                },
        )
    } else if submoves.len() == 2 {
        let first = submoves[0];
        let second = submoves[1];
        if !bears_off(first) && bears_off(second) {
            seq![first, with_die(second, other_die(roll, first.die))]
        } else if bears_off(first) && !bears_off(second) {
            seq![with_die(first, other_die(roll, second.die)), second]
        } else if bears_off(first) && bears_off(second) {
            if first.die < second.die {
                seq![with_die(first, lower(roll)), with_die(second, higher(roll))]
            } else {
                seq![with_die(first, higher(roll)), with_die(second, lower(roll))]
            }
        } else {
            submoves
        }
    } else if submoves.len() == 1 && bears_off(submoves[0]) {
        seq![with_die(submoves[0], higher(roll))]
    } else {
        submoves
    }
}

/// The move that `text` writes for `color` after `roll`, as a stack: the
/// submove written first is its last entry.
pub open spec fn parse_move(color: Color, roll: (usize, usize), text: Seq<char>) -> Result<
    Seq<Submove>,
    NotationError,
> {
    match parse_submoves(color, words(text)) {
        Err(error) => Err(error),
        Ok(submoves) => Ok(assign_dice(roll, submoves).reverse()),
    }
}

/// What is told of a move that was parsed: the move, or the message of the
/// error.
pub open spec fn told(parsed: Result<Seq<Submove>, NotationError>) -> Result<
    Seq<Submove>,
    Seq<char>,
> {
    match parsed {
        Ok(submoves) => Ok(submoves),
        Err(error) => Err(error.spec_message()),
    }
}

/// The first wrong word decides: where some of the first words are wrong, all
/// the words are wrong in the same way.
pub proof fn lemma_first_error(color: Color, words: Seq<Seq<char>>, count: int)
    requires
        0 <= count <= words.len(),
        parse_submoves(color, words.take(count)) is Err,
    ensures
        parse_submoves(color, words) == parse_submoves(color, words.take(count)),
    decreases words.len() - count,
{
    if count < words.len() {
        assert(words.take(count + 1).drop_last() =~= words.take(count));
        lemma_first_error(color, words, count + 1);
    } else {
        assert(words.take(count) =~= words);
    }
}

/// What the command `text` asks of the player of `color` after `roll`. The
/// commands `list` and `show` ask for no move, and have nothing to tell; any
/// other command is a move, or is told what is wrong with it.
pub open spec fn parse_command(color: Color, roll: (usize, usize), text: Seq<char>) -> Result<
    Seq<Submove>,
    Seq<char>,
> {
    if text == "list"@ || text == "show"@ {
        Err(Seq::empty())
    } else {
        told(parse_move(color, roll, text))
    }
}

/// What a line as it was typed asks: the command that is left of it without
/// the white space around it.
pub open spec fn read_command(color: Color, roll: (usize, usize), line: Seq<char>) -> Result<
    Seq<Submove>,
    Seq<char>,
> {
    parse_command(color, roll, trim(line))
}

impl NotationError {
    /// What a person is told of the error.
    pub open spec fn spec_message(self) -> Seq<char> {
        match self {
            NotationError::Incomplete => "Invalid backgammon notation"@,
            NotationError::Number(NumberError::Empty) => "cannot parse integer from empty string"@,
            NotationError::Number(NumberError::InvalidDigit) => "invalid digit found in string"@,
            NotationError::Number(NumberError::TooLarge) => {
                "number too large to fit in target type"@
            },
            NotationError::WrongDirection => "move is in the wrong direction"@,
            NotationError::OutOfRange => "position out of range"@,
        }
    }

    /// What a person is told of the error.
    pub fn message(&self) -> (text: String)
        ensures
            text@ == self.spec_message(),
    {
        match self {
            NotationError::Incomplete => "Invalid backgammon notation".to_string(),
            NotationError::Number(NumberError::Empty) => {
                "cannot parse integer from empty string".to_string()
            },
            NotationError::Number(NumberError::InvalidDigit) => {
                "invalid digit found in string".to_string()
            },
            NotationError::Number(NumberError::TooLarge) => {
                "number too large to fit in target type".to_string()
            },
            NotationError::WrongDirection => "move is in the wrong direction".to_string(),
            NotationError::OutOfRange => "position out of range".to_string(),
        }
    }
}

/// The characters of `text`.
pub fn chars_of(text: &str) -> (chars: Vec<char>)
    ensures
        chars@ == text@,
{
    let mut chars: Vec<char> = Vec::new();
    for c in iter: text.chars()
        invariant
            iter.seq() == text@,
            chars@ == iter.seq().take(iter.index()),
    {
        assert(iter.seq().take(iter.index() + 1) =~= iter.seq().take(iter.index()).push(c));
        chars.push(c);
    }
    assert(text@.take(text@.len() as int) =~= text@);
    chars
}

/// Whether `c` is white space.
pub fn is_white_space(c: char) -> (space: bool)
    ensures
        space == is_space(c),
{
    let code = c as u32;
    (0x9 <= code && code <= 0xD) || code == 0x20 || code == 0x85 || code == 0xA0 || code == 0x1680
        || (0x2000 <= code && code <= 0x200A) || code == 0x2028 || code == 0x2029 || code
        == 0x202F || code == 0x205F || code == 0x3000
}

/// Whether `text` is `word`.
pub fn is_word(text: &[char], word: &str) -> (same: bool)
    ensures
        same == (text@ == word@),
{
    let letters = chars_of(word);
    if text.len() != letters.len() {
        return false;
    }
    let mut idx: usize = 0;
    while idx < text.len()
        invariant
            idx <= text.len() == letters.len(),
            letters@ == word@,
            forall|i: int| 0 <= i < idx ==> text@[i] == letters@[i],
        decreases text.len() - idx,
    {
        if text[idx] != letters[idx] {
            return false;
        }
        idx += 1;
    }
    assert(text@ =~= letters@);
    true
}

/// Where the words of `text` start and end.
pub fn word_bounds(text: &[char]) -> (bounds: Vec<(usize, usize)>)
    ensures
        bounds@.len() == words(text@).len(),
        forall|k: int|
            0 <= k < bounds@.len() ==> {
                &&& (#[trigger] bounds@[k]).0 <= bounds@[k].1 <= text@.len()
                &&& words(text@)[k] == text@.subrange(bounds@[k].0 as int, bounds@[k].1 as int)
            },
{
    let mut bounds: Vec<(usize, usize)> = Vec::new();
    let ghost mut found: Seq<Seq<char>> = Seq::empty();
    let mut start: usize = 0;
    let mut idx: usize = 0;
    proof {
        assert(text@.subrange(0, 0) =~= Seq::empty());
        assert(text@.skip(0) =~= text@);
    }
    while idx < text.len()
        invariant
            start <= idx <= text.len(),
            found.len() == bounds@.len(),
            forall|k: int|
                0 <= k < bounds@.len() ==> {
                    &&& (#[trigger] bounds@[k]).0 <= bounds@[k].1 <= text@.len()
                    &&& found[k] == text@.subrange(bounds@[k].0 as int, bounds@[k].1 as int)
                },
            words(text@) == found + words_after(
                text@.subrange(start as int, idx as int),
                text@.skip(idx as int),
            ),
        decreases text.len() - idx,
    {
        let ghost begun = text@.subrange(start as int, idx as int);
        proof {
            assert(text@.skip(idx as int).first() == text@[idx as int]);
            assert(text@.skip(idx as int).drop_first() =~= text@.skip(idx + 1));
        }
        if is_white_space(text[idx]) {
            if start < idx {
                bounds.push((start, idx));
                proof {
                    found = found.push(begun);
                }
            }
            proof {
                assert(text@.subrange(idx + 1, idx + 1) =~= Seq::empty());
                assert(words(text@) =~= found + words_after(Seq::empty(), text@.skip(idx + 1)));
            }
            start = idx + 1;
        } else {
            proof {
                assert(begun.push(text@[idx as int]) =~= text@.subrange(start as int, idx + 1));
            }
        }
        idx += 1;
    }
    let ghost begun = text@.subrange(start as int, idx as int);
    if start < idx {
        bounds.push((start, idx));
        proof {
            found = found.push(begun);
        }
    }
    proof {
        assert(text@.skip(idx as int) =~= Seq::empty());
        assert(words(text@) =~= found);
    }
    bounds
}

/// Where `text` without the white space at both ends starts and ends.
pub fn trim_bounds(text: &[char]) -> (bounds: (usize, usize))
    ensures
        bounds.0 <= bounds.1 <= text@.len(),
        trim(text@) == text@.subrange(bounds.0 as int, bounds.1 as int),
{
    let mut start: usize = 0;
    proof {
        assert(text@.skip(0) =~= text@);
    }
    while start < text.len() && is_white_space(text[start])
        invariant
            start <= text.len(),
            trim_start(text@) == trim_start(text@.skip(start as int)),
        decreases text.len() - start,
    {
        proof {
            assert(text@.skip(start as int).first() == text@[start as int]);
            assert(text@.skip(start as int).drop_first() =~= text@.skip(start + 1));
        }
        start += 1;
    }
    proof {
        if start < text.len() {
            assert(text@.skip(start as int).first() == text@[start as int]);
        }
        assert(trim_start(text@) == text@.skip(start as int));
        assert(text@.skip(start as int) =~= text@.subrange(start as int, text@.len() as int));
    }
    let mut end: usize = text.len();
    while start < end && is_white_space(text[end - 1])
        invariant
            start <= end <= text.len(),
            start < text.len() ==> !is_space(text@[start as int]),
            trim(text@) == trim_end(text@.subrange(start as int, end as int)),
        decreases end,
    {
        proof {
            let part = text@.subrange(start as int, end as int);
            assert(part.last() == text@[end - 1]);
            assert(part.drop_last() =~= text@.subrange(start as int, end - 1));
        }
        end -= 1;
    }
    proof {
        let part = text@.subrange(start as int, end as int);
        if start < end {
            assert(part.last() == text@[end - 1]);
        }
    }
    (start, end)
}

/// What stands before the first `/` of a text that has none before `idx`,
/// and what follows it.
pub proof fn lemma_slash_split(text: Seq<char>, idx: int)
    requires
        0 <= idx <= text.len(),
        forall|i: int| 0 <= i < idx ==> text[i] != '/',
        idx < text.len() ==> text[idx] == '/',
    ensures
        before_slash(text) == text.take(idx),
        after_slash(text) == if idx < text.len() {
            Some(text.skip(idx + 1))
        } else {
            None
        },
    decreases idx,
{
    if idx == 0 {
        assert(text.take(0) =~= Seq::empty());
        if text.len() > 0 {
            assert(text.drop_first() =~= text.skip(1));
        }
    } else {
        let rest = text.drop_first();
        assert forall|i: int| 0 <= i < idx - 1 implies rest[i] != '/' by {
            assert(rest[i] == text[i + 1]);
        }
        lemma_slash_split(rest, idx - 1);
        assert(seq![text.first()] + rest.take(idx - 1) =~= text.take(idx));
        if idx < text.len() {
            assert(rest.skip(idx) =~= text.skip(idx + 1));
        }
    }
}

/// Where the first `/` of `text` stands: at its end where it has none.
pub fn slash_index(text: &[char]) -> (idx: usize)
    ensures
        idx <= text@.len(),
        before_slash(text@) == text@.take(idx as int),
        after_slash(text@) == if idx < text@.len() {
            Some(text@.skip(idx + 1))
        } else {
            None
        },
{
    let mut idx: usize = 0;
    while idx < text.len() && text[idx] != '/'
        invariant
            idx <= text.len(),
            forall|i: int| 0 <= i < idx ==> text@[i] != '/',
        decreases text.len() - idx,
    {
        idx += 1;
    }
    proof {
        lemma_slash_split(text@, idx as int);
    }
    idx
}

/// The leading digits of a text that starts with `count` digits are those
/// and the leading digits of what follows them.
pub proof fn lemma_leading_digits(text: Seq<char>, count: int)
    requires
        0 <= count <= text.len(),
        forall|i: int| 0 <= i < count ==> is_digit(text[i]),
    ensures
        leading_digits(text) == text.take(count) + leading_digits(text.skip(count)),
    decreases count,
{
    if count == 0 {
        assert(text.take(0) =~= Seq::empty());
        assert(text.skip(0) =~= text);
        assert(Seq::<char>::empty() + leading_digits(text) =~= leading_digits(text));
    } else {
        let rest = text.drop_first();
        assert forall|i: int| 0 <= i < count - 1 implies is_digit(rest[i]) by {
            assert(rest[i] == text[i + 1]);
        }
        lemma_leading_digits(rest, count - 1);
        assert(rest.skip(count - 1) =~= text.skip(count));
        assert(seq![text.first()] + (rest.take(count - 1) + leading_digits(text.skip(count)))
            =~= text.take(count) + leading_digits(text.skip(count)));
    }
}

/// Leading digits are digits.
pub proof fn lemma_leading_digits_are_digits(text: Seq<char>)
    ensures
        forall|i: int|
            0 <= i < leading_digits(text).len() ==> is_digit(#[trigger] leading_digits(text)[i]),
    decreases text.len(),
{
    if text.len() > 0 && is_digit(text.first()) {
        let rest = leading_digits(text.drop_first());
        lemma_leading_digits_are_digits(text.drop_first());
        assert forall|i: int| 0 <= i < leading_digits(text).len() implies is_digit(
            #[trigger] leading_digits(text)[i],
        ) by {
            if i > 0 {
                assert(leading_digits(text)[i] == rest[i - 1]);
            }
        }
    }
}

/// More digits make no smaller number.
pub proof fn lemma_decimal_grows(digits: Seq<char>, more: Seq<char>)
    requires
        forall|i: int| 0 <= i < digits.len() ==> is_digit(digits[i]),
        forall|i: int| 0 <= i < more.len() ==> is_digit(more[i]),
    ensures
        0 <= decimal(digits) <= decimal(digits + more),
    decreases more.len(),
{
    lemma_decimal_nonnegative(digits);
    if more.len() == 0 {
        assert(digits + more =~= digits);
    } else {
        lemma_decimal_grows(digits, more.drop_last());
        assert((digits + more).drop_last() =~= digits + more.drop_last());
        assert((digits + more).last() == more.last());
    }
}

/// Digits write no negative number.
pub proof fn lemma_decimal_nonnegative(digits: Seq<char>)
    requires
        forall|i: int| 0 <= i < digits.len() ==> is_digit(digits[i]),
    ensures
        0 <= decimal(digits),
    decreases digits.len(),
{
    if digits.len() > 0 {
        lemma_decimal_nonnegative(digits.drop_last());
    }
}

/// The number that `text` writes.
pub fn read_number(text: &[char]) -> (result: Result<usize, NumberError>)
    ensures
        result == parse_number(text@),
{
    if text.len() == 0 {
        return Err(NumberError::Empty);
    }
    let start: usize = if text[0] == '+' {
        1
    } else {
        0
    };
    let ghost body = unsigned(text@);
    proof {
        assert(body =~= text@.skip(start as int));
    }
    if start == text.len() {
        return Err(NumberError::InvalidDigit);
    }
    let mut value: usize = 0;
    let mut idx: usize = start;
    proof {
        assert(body.take(0) =~= Seq::empty());
    }
    while idx < text.len()
        invariant
            start <= idx <= text.len(),
            start < text.len(),
            body == unsigned(text@),
            body == text@.skip(start as int),
            forall|i: int| 0 <= i < idx - start ==> is_digit(body[i]),
            value == decimal(body.take(idx - start)),
        decreases text.len() - idx,
    {
        let c = text[idx];
        let code = c as u32;
        let ghost read = body.take(idx - start);
        let ghost next = body.take(idx - start + 1);
        proof {
            assert(body[idx - start] == c);
            lemma_leading_digits(body, idx - start);
        }
        if code < 0x30 || code > 0x39 {
            proof {
                assert(body.skip(idx - start).first() == c);
                assert(read + Seq::<char>::empty() =~= read);
            }
            return Err(NumberError::InvalidDigit);
        }
        proof {
            assert(next.drop_last() =~= read);
            assert(next.last() == c);
            lemma_leading_digits(body, idx - start + 1);
            lemma_leading_digits_are_digits(body.skip(idx - start + 1));
            lemma_decimal_grows(next, leading_digits(body.skip(idx - start + 1)));
        }
        let tens = match value.checked_mul(10) {
            Some(tens) => tens,
            None => {
                return Err(NumberError::TooLarge);
            },
        };
        value = match tens.checked_add((code - 0x30) as usize) {
            Some(sum) => sum,
            None => {
                return Err(NumberError::TooLarge);
            },
        };
        idx += 1;
    }
    proof {
        assert(body.take(body.len() as int) =~= body);
        lemma_leading_digits(body, body.len() as int);
        assert(body.skip(body.len() as int) =~= Seq::empty());
        assert(body + Seq::<char>::empty() =~= body);
    }
    Ok(value)
}

} // verus!
