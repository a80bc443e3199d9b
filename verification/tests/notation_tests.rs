use rustgammon::commandlineplayer::{CommandLinePlayer, Request};
use rustgammon::notation::{
    chars_of, is_white_space, is_word, read_number, slash_index, trim_bounds, word_bounds,
    NotationError, NumberError,
};
use rustgammon::rustgammon::{Backgammon, Color, Submove};

fn white() -> CommandLinePlayer {
    CommandLinePlayer { color: Color::White }
}

fn red() -> CommandLinePlayer {
    CommandLinePlayer { color: Color::Red }
}

fn empty_game() -> Backgammon {
    Default::default()
}

#[test]
fn chars_of_gives_every_character() {
    assert_eq!(chars_of("1/off"), vec!['1', '/', 'o', 'f', 'f']);
    assert_eq!(chars_of(""), Vec::<char>::new());
    assert_eq!(chars_of("é\u{3000}7"), vec!['é', '\u{3000}', '7']);
}

#[test]
fn white_space_is_what_unicode_says() {
    for c in ['\t', '\n', '\u{b}', '\u{c}', '\r', ' ', '\u{85}', '\u{a0}', '\u{1680}'] {
        assert!(is_white_space(c));
    }
    for c in ['\u{2000}', '\u{200a}', '\u{2028}', '\u{2029}', '\u{202f}', '\u{205f}', '\u{3000}'] {
        assert!(is_white_space(c));
    }
    for c in ['a', '/', '0', '\u{8}', '\u{e}', '\u{200b}', '\u{1f}', '\u{2001}'] {
        assert_eq!(is_white_space(c), c.is_whitespace());
    }
    for code in 0..0x3100u32 {
        if let Some(c) = char::from_u32(code) {
            assert_eq!(is_white_space(c), c.is_whitespace());
        }
    }
}

#[test]
fn is_word_compares_whole_texts() {
    assert!(is_word(&['o', 'f', 'f'], "off"));
    assert!(!is_word(&['o', 'f'], "off"));
    assert!(!is_word(&['o', 'f', 'f', 'f'], "off"));
    assert!(!is_word(&['O', 'f', 'f'], "off"));
    assert!(is_word(&[], ""));
}

#[test]
fn word_bounds_finds_the_runs_between_white_space() {
    let text = chars_of("  24/off\t21/24 \n");
    assert_eq!(word_bounds(&text), vec![(2, 8), (9, 14)]);
    assert_eq!(word_bounds(&chars_of("")), vec![]);
    assert_eq!(word_bounds(&chars_of(" \t ")), vec![]);
    assert_eq!(word_bounds(&chars_of("a")), vec![(0, 1)]);
    assert_eq!(word_bounds(&chars_of("a\u{3000}bc")), vec![(0, 1), (2, 4)]);
}

#[test]
fn trim_bounds_leaves_out_white_space_at_both_ends() {
    assert_eq!(trim_bounds(&chars_of("  list \n")), (2, 6));
    assert_eq!(trim_bounds(&chars_of("a b")), (0, 3));
    assert_eq!(trim_bounds(&chars_of("")), (0, 0));
    let blank = trim_bounds(&chars_of(" \t "));
    assert_eq!(blank.0, blank.1);
}

#[test]
fn slash_index_finds_the_first_slash() {
    assert_eq!(slash_index(&chars_of("24/off")), 2);
    assert_eq!(slash_index(&chars_of("/off")), 0);
    assert_eq!(slash_index(&chars_of("24")), 2);
    assert_eq!(slash_index(&chars_of("1/2/3")), 1);
    assert_eq!(slash_index(&chars_of("")), 0);
}

#[test]
fn read_number_reads_decimal_digits() {
    assert!(matches!(read_number(&chars_of("0")), Ok(0)));
    assert!(matches!(read_number(&chars_of("24")), Ok(24)));
    assert!(matches!(read_number(&chars_of("+7")), Ok(7)));
    assert!(matches!(read_number(&chars_of("007")), Ok(7)));
    let largest = usize::MAX.to_string();
    assert!(matches!(read_number(&chars_of(&largest)), Ok(usize::MAX)));
}

#[test]
fn read_number_tells_what_is_wrong() {
    assert!(matches!(read_number(&chars_of("")), Err(NumberError::Empty)));
    assert!(matches!(read_number(&chars_of("+")), Err(NumberError::InvalidDigit)));
    assert!(matches!(read_number(&chars_of("-")), Err(NumberError::InvalidDigit)));
    assert!(matches!(read_number(&chars_of("-3")), Err(NumberError::InvalidDigit)));
    assert!(matches!(read_number(&chars_of("1x")), Err(NumberError::InvalidDigit)));
    assert!(matches!(read_number(&chars_of("++1")), Err(NumberError::InvalidDigit)));
    assert!(matches!(read_number(&chars_of("١")), Err(NumberError::InvalidDigit)));
    let mut too_large = usize::MAX.to_string();
    too_large.push('0');
    assert!(matches!(read_number(&chars_of(&too_large)), Err(NumberError::TooLarge)));
    // The text is too large before its wrong character is reached.
    too_large.push('x');
    assert!(matches!(read_number(&chars_of(&too_large)), Err(NumberError::TooLarge)));
    let next = format!("{}", usize::MAX as u128 + 1);
    assert!(matches!(read_number(&chars_of(&next)), Err(NumberError::TooLarge)));
}

#[test]
fn read_number_agrees_with_the_standard_library() {
    let texts = [
        "", "+", "-", "0", "+0", "-0", "12", "+12", "1 2", " 12", "12 ", "1_2", "0x10", "99999",
        "18446744073709551615", "18446744073709551616", "184467440737095516150",
        "99999999999999999999999999x", "x99999999999999999999999999", "+-1", "1+",
    ];
    for text in texts {
        let ours = read_number(&chars_of(text));
        match text.parse::<usize>() {
            Ok(value) => assert!(matches!(ours, Ok(ours) if ours == value)),
            Err(error) => {
                let message = match ours {
                    Ok(_) => panic!("{} was read as a number", text),
                    Err(ours) => NotationError::Number(ours).message(),
                };
                assert_eq!(message, error.to_string());
            }
        }
    }
}

#[test]
fn error_messages() {
    assert_eq!(NotationError::Incomplete.message(), "Invalid backgammon notation");
    assert_eq!(
        NotationError::Number(NumberError::Empty).message(),
        "cannot parse integer from empty string"
    );
    assert_eq!(
        NotationError::Number(NumberError::InvalidDigit).message(),
        "invalid digit found in string"
    );
    assert_eq!(
        NotationError::Number(NumberError::TooLarge).message(),
        "number too large to fit in target type"
    );
    assert_eq!(NotationError::WrongDirection.message(), "move is in the wrong direction");
    assert_eq!(NotationError::OutOfRange.message(), "position out of range");
}

#[test]
fn is_valid_pos_accepts_the_26_positions() {
    assert!(white().is_valid_pos(0));
    assert!(white().is_valid_pos(25));
    assert!(!white().is_valid_pos(26));
    assert!(!white().is_valid_pos(usize::MAX));
}

#[test]
fn parse_submove_reads_points_in_the_frame_of_white() {
    let game = empty_game();
    assert!(white().parse_submove(&game, "3/7") == Ok(Submove { from: 3, die: 4 }));
    assert!(red().parse_submove(&game, "7/3") == Ok(Submove { from: 18, die: 4 }));
    assert!(red().parse_submove(&game, "24/18") == Ok(Submove { from: 1, die: 6 }));
    assert!(white().parse_submove(&game, "0/25") == Ok(Submove { from: 0, die: 25 }));
    assert!(red().parse_submove(&game, "25/0") == Ok(Submove { from: 0, die: 25 }));
}

#[test]
fn parse_submove_reads_bar_and_off() {
    let game = empty_game();
    assert!(white().parse_submove(&game, "bar/3") == Ok(Submove { from: 0, die: 3 }));
    assert!(red().parse_submove(&game, "bar/22") == Ok(Submove { from: 0, die: 3 }));
    assert!(white().parse_submove(&game, "20/off") == Ok(Submove { from: 20, die: 5 }));
    assert!(red().parse_submove(&game, "5/off") == Ok(Submove { from: 20, die: 5 }));
    assert!(white().parse_submove(&game, "bar/off") == Ok(Submove { from: 0, die: 25 }));
}

#[test]
fn parse_submove_reads_no_more_than_two_parts() {
    let game = empty_game();
    assert!(white().parse_submove(&game, "1/3/9") == Ok(Submove { from: 1, die: 2 }));
    assert!(white().parse_submove(&game, "1/3/") == Ok(Submove { from: 1, die: 2 }));
    assert!(white().parse_submove(&game, "+1/+3") == Ok(Submove { from: 1, die: 2 }));
}

#[test]
fn parse_submove_tells_what_is_wrong() {
    let game = empty_game();
    let told = |player: CommandLinePlayer, text: &str| match player.parse_submove(&game, text) {
        Ok(_) => panic!("{} was read as a submove", text),
        Err(message) => message,
    };
    assert_eq!(told(white(), "24"), "Invalid backgammon notation");
    assert_eq!(told(white(), "bar"), "Invalid backgammon notation");
    assert_eq!(told(white(), ""), "cannot parse integer from empty string");
    assert_eq!(told(white(), "/5"), "cannot parse integer from empty string");
    assert_eq!(told(white(), "5/"), "cannot parse integer from empty string");
    assert_eq!(told(white(), "x/5"), "invalid digit found in string");
    assert_eq!(told(white(), "x"), "invalid digit found in string");
    assert_eq!(told(white(), "5/y"), "invalid digit found in string");
    assert_eq!(told(white(), "off/5"), "invalid digit found in string");
    assert_eq!(told(white(), "5/bar"), "invalid digit found in string");
    assert_eq!(told(white(), "Bar/5"), "invalid digit found in string");
    assert_eq!(
        told(white(), "99999999999999999999999/5"),
        "number too large to fit in target type"
    );
    assert_eq!(told(white(), "5/3"), "move is in the wrong direction");
    assert_eq!(told(white(), "5/5"), "move is in the wrong direction");
    assert_eq!(told(red(), "3/5"), "move is in the wrong direction");
    assert_eq!(told(white(), "40/30"), "move is in the wrong direction");
    assert_eq!(told(white(), "off/off"), "invalid digit found in string");
    assert_eq!(told(white(), "30/40"), "position out of range");
    assert_eq!(told(white(), "20/26"), "position out of range");
    assert_eq!(told(white(), "26/off"), "move is in the wrong direction");
}

#[test]
fn parse_submove_for_red_takes_points_past_the_board_without_fault() {
    let game = empty_game();
    let told = |text: &str| match red().parse_submove(&game, text) {
        Ok(_) => panic!("{} was read as a submove", text),
        Err(message) => message,
    };
    assert_eq!(told("30/off"), "position out of range");
    assert_eq!(told("30/20"), "position out of range");
    assert_eq!(told("20/30"), "move is in the wrong direction");
    assert_eq!(told("bar/26"), "move is in the wrong direction");
    let largest = format!("{}/off", usize::MAX);
    assert_eq!(told(&largest), "position out of range");
}

#[test]
fn parse_move_stacks_the_submoves() {
    let game = empty_game();
    let mov = match white().parse_move(&game, (1, 2), "1/2 2/4") {
        Ok(mov) => mov,
        Err(message) => panic!("{}", message),
    };
    assert!(mov.submoves == vec![Submove { from: 2, die: 2 }, Submove { from: 1, die: 1 }]);
}

#[test]
fn parse_move_takes_any_white_space_between_submoves() {
    let game = empty_game();
    let mov = match white().parse_move(&game, (1, 2), "\t1/2 \u{a0}  2/4\n") {
        Ok(mov) => mov,
        Err(message) => panic!("{}", message),
    };
    assert!(mov.submoves == vec![Submove { from: 2, die: 2 }, Submove { from: 1, die: 1 }]);
}

#[test]
fn parse_move_of_nothing_is_the_empty_move() {
    let game = empty_game();
    for roll in [(1, 2), (3, 3)] {
        for text in ["", "  \n"] {
            match white().parse_move(&game, roll, text) {
                Ok(mov) => assert!(mov.submoves.is_empty()),
                Err(message) => panic!("{}", message),
            }
        }
    }
}

#[test]
fn parse_move_tells_the_first_error() {
    let game = empty_game();
    let told = |text: &str| match white().parse_move(&game, (1, 2), text) {
        Ok(_) => panic!("{} was read as a move", text),
        Err(message) => message,
    };
    assert_eq!(told("1/2 5/3 x"), "move is in the wrong direction");
    assert_eq!(told("x 5/3"), "invalid digit found in string");
    assert_eq!(told("1/2 3"), "Invalid backgammon notation");
}

#[test]
fn parse_move_after_a_double_plays_that_die() {
    let game = empty_game();
    let read = |text: &str| match white().parse_move(&game, (3, 3), text) {
        Ok(mov) => mov.submoves,
        Err(message) => panic!("{}", message),
    };
    assert!(read("24/off") == vec![Submove { from: 24, die: 3 }]);
    assert!(
        read("1/4 4/7 23/off") == vec![
            Submove { from: 23, die: 3 },
            Submove { from: 4, die: 3 },
            Submove { from: 1, die: 3 },
        ]
    );
    // A fifth submove keeps its distance.
    assert!(
        read("1/4 4/7 7/10 10/13 13/17") == vec![
            Submove { from: 13, die: 4 },
            Submove { from: 10, die: 3 },
            Submove { from: 7, die: 3 },
            Submove { from: 4, die: 3 },
            Submove { from: 1, die: 3 },
        ]
    );
}

#[test]
fn parse_move_of_one_submove_that_bears_off_plays_the_higher_die() {
    let game = empty_game();
    let read = |roll: (usize, usize), text: &str| match white().parse_move(&game, roll, text) {
        Ok(mov) => mov.submoves,
        Err(message) => panic!("{}", message),
    };
    assert!(read((4, 5), "24/off") == vec![Submove { from: 24, die: 5 }]);
    assert!(read((5, 4), "24/off") == vec![Submove { from: 24, die: 5 }]);
    assert!(read((1, 2), "20/off") == vec![Submove { from: 20, die: 2 }]);
    // A submove that stays on the board keeps its distance.
    assert!(read((4, 5), "20/24") == vec![Submove { from: 20, die: 4 }]);
    assert!(read((4, 5), "20/23") == vec![Submove { from: 20, die: 3 }]);
}

#[test]
fn parse_move_of_two_submoves_gives_the_other_die_to_the_one_that_bears_off() {
    let game = empty_game();
    let read = |roll: (usize, usize), text: &str| match white().parse_move(&game, roll, text) {
        Ok(mov) => mov.submoves,
        Err(message) => panic!("{}", message),
    };
    assert!(
        read((3, 6), "20/23 23/off") == vec![
            Submove { from: 23, die: 6 },
            Submove { from: 20, die: 3 },
        ]
    );
    assert!(
        read((6, 3), "23/off 20/23") == vec![
            Submove { from: 20, die: 3 },
            Submove { from: 23, die: 6 },
        ]
    );
    // The submove on the board plays neither die: the other gets the first.
    assert!(
        read((3, 6), "20/22 23/off") == vec![
            Submove { from: 23, die: 3 },
            Submove { from: 20, die: 2 },
        ]
    );
    // Both bear off: the longer way plays the higher die.
    assert!(
        read((3, 6), "24/off 21/off") == vec![
            Submove { from: 21, die: 6 },
            Submove { from: 24, die: 3 },
        ]
    );
    // Neither bears off: both keep their distances.
    assert!(
        read((3, 6), "1/4 4/10") == vec![Submove { from: 4, die: 6 }, Submove { from: 1, die: 3 }]
    );
    // Three submoves keep their distances.
    assert!(
        read((3, 6), "1/4 4/10 24/off") == vec![
            Submove { from: 24, die: 1 },
            Submove { from: 4, die: 6 },
            Submove { from: 1, die: 3 },
        ]
    );
}

#[test]
fn parse_command_has_nothing_to_play_for_list_and_show() {
    let game = empty_game();
    assert!(white().parse_command(&game, (1, 2), "list") == Err(String::new()));
    assert!(white().parse_command(&game, (1, 2), "show") == Err(String::new()));
    assert!(
        white().parse_command(&game, (1, 2), "lists") == Err(
            "invalid digit found in string".to_string()
        )
    );
    assert!(
        white().parse_command(&game, (1, 2), " list") == Err(
            "invalid digit found in string".to_string()
        )
    );
}

#[test]
fn read_command_leaves_out_the_white_space_around_the_line() {
    let game = empty_game();
    assert!(white().read_command(&game, (1, 2), "  list\n") == Err(String::new()));
    assert!(white().read_command(&game, (1, 2), "show\r\n") == Err(String::new()));
    let mov = match red().read_command(&game, (4, 5), " 1/off \n") {
        Ok(mov) => mov,
        Err(message) => panic!("{}", message),
    };
    assert!(mov.submoves == vec![Submove { from: 24, die: 5 }]);
    assert!(
        white().read_command(&game, (1, 2), "li st\n") == Err(
            "invalid digit found in string".to_string()
        )
    );
}

#[test]
fn request_of_tells_commands_from_moves() {
    assert!(white().request_of("list\n") == Request::List);
    assert!(white().request_of("  show ") == Request::Show);
    assert!(white().request_of("1/2") == Request::Play);
    assert!(white().request_of("List") == Request::Play);
    assert!(white().request_of("") == Request::Play);
}

#[test]
fn answer_gives_a_legal_move_and_tells_of_an_illegal_one() {
    let mut game = empty_game();
    game.white_board.set(1, 1);
    let player = white();
    assert!(player.get_color() == Color::White);
    let mov = match player.answer(&game, (1, 2), "1/2 2/4\n") {
        Ok(mov) => mov,
        Err(message) => panic!("{}", message),
    };
    assert!(mov.submoves == vec![Submove { from: 2, die: 2 }, Submove { from: 1, die: 1 }]);
    assert!(player.answer(&game, (1, 2), "1/2\n") == Err("illegal move".to_string()));
    assert!(player.answer(&game, (1, 2), "\n") == Err("illegal move".to_string()));
    assert!(
        player.answer(&game, (1, 2), "1-2\n") == Err("invalid digit found in string".to_string())
    );
    assert!(player.answer(&game, (1, 2), "list\n") == Err(String::new()));
}

#[test]
fn words_and_trimming_agree_with_the_standard_library() {
    let texts = [
        "",
        " ",
        "24/off 21/24",
        "  24/off\t\t21/24\r\n",
        "\u{a0}a\u{2003}b c\u{3000}",
        "one",
        " x  y   z ",
        "é/è ü",
    ];
    for text in texts {
        let chars = chars_of(text);
        let ours: Vec<String> = word_bounds(&chars)
            .iter()
            .map(|bounds| chars[bounds.0..bounds.1].iter().collect())
            .collect();
        let theirs: Vec<String> = text.split_whitespace().map(|word| word.to_string()).collect();
        assert_eq!(ours, theirs);
        let (start, end) = trim_bounds(&chars);
        let trimmed: String = chars[start..end].iter().collect();
        assert_eq!(trimmed, text.trim());
    }
}
