use deet::hangman::{pick_a_random_word, Hangman, FOUND, HIDDEN, NUM_INCORRECT_GUESSES};
use deet::rwc::{measure, separates, Counts};

fn letters(word: &str) -> Vec<char> {
    word.chars().collect()
}

#[test]
fn a_game_starts_with_everything_hidden() {
    let game = Hangman::new(letters("rust"));
    assert_eq!(game.shown(), &letters("----"));
    assert_eq!(game.secret(), &letters("rust"));
    assert!(game.guessed().is_empty());
    assert_eq!(game.guesses_left(), 5);
    assert!(!game.is_over());
    assert_eq!(NUM_INCORRECT_GUESSES, 5);
    assert_eq!(HIDDEN, '-');
    assert_eq!(FOUND, '_');
}

#[test]
fn a_found_letter_is_shown_at_its_first_open_place() {
    let mut game = Hangman::new(letters("llama"));
    assert!(game.guess('a'));
    assert_eq!(game.shown(), &letters("--a--"));
    assert!(game.guess('l'));
    assert_eq!(game.shown(), &letters("l-a--"));
    assert!(game.guess('l'));
    assert_eq!(game.shown(), &letters("lla--"));
    assert!(!game.guess('l'));
    assert_eq!(game.shown(), &letters("lla--"));
    assert_eq!(game.guesses_left(), 4);
    assert_eq!(game.guessed(), &letters("alll"));
}

#[test]
fn five_wrong_guesses_lose_the_game() {
    let mut game = Hangman::new(letters("ab"));
    for (i, letter) in ['x', 'y', 'z', 'x', 'w'].into_iter().enumerate() {
        assert!(!game.is_over());
        assert!(!game.guess(letter));
        assert_eq!(game.guesses_left(), 4 - i as u32);
    }
    assert!(game.is_over());
    assert!(!game.has_won());
    assert_eq!(game.shown(), &letters("--"));
}

#[test]
fn the_game_is_won_when_the_guesses_spell_the_word() {
    let mut game = Hangman::new(letters("cab"));
    assert!(game.guess('c'));
    assert!(game.guess('a'));
    assert!(!game.is_over());
    assert!(game.guess('b'));
    assert!(game.is_over());
    assert!(game.has_won());
    assert_eq!(game.shown(), &letters("cab"));
}

#[test]
fn the_game_goes_on_when_the_word_is_found_in_another_order() {
    let mut game = Hangman::new(letters("ab"));
    assert!(game.guess('b'));
    assert!(game.guess('a'));
    assert_eq!(game.shown(), &letters("ab"));
    assert!(!game.is_over());
    assert!(!game.guess('a'));
    assert_eq!(game.guesses_left(), 4);
}

#[test]
fn the_found_mark_can_be_guessed() {
    let mut game = Hangman::new(letters("ab"));
    assert!(!game.guess('_'));
    assert!(game.guess('a'));
    assert!(game.guess('_'));
    assert_eq!(game.shown(), &letters("_-"));
}

#[test]
fn an_empty_word_is_won_at_once() {
    let game = Hangman::new(Vec::new());
    assert!(game.is_over());
    assert!(game.has_won());
}

#[test]
fn a_word_is_picked_inside_the_list() {
    assert_eq!(pick_a_random_word(1), 0);
    let mut seen = [false; 4];
    for _ in 0..400 {
        let place = pick_a_random_word(4);
        assert!(place < 4);
        seen[place] = true;
    }
    assert_eq!(seen, [true; 4]);
}

#[test]
fn white_space_separates_words() {
    for c in [' ', '\t', '\n', '\u{b}', '\u{c}', '\r', '\u{85}', '\u{a0}', '\u{1680}', '\u{2000}',
        '\u{2005}', '\u{200a}', '\u{2028}', '\u{2029}', '\u{202f}', '\u{205f}', '\u{3000}']
    {
        assert!(separates(c));
        assert!(c.is_whitespace());
    }
    for c in ['a', '0', '_', '\u{8}', '\u{e}', '\u{1f}', '\u{200b}', '\u{180e}', '\u{feff}', 'é'] {
        assert!(!separates(c));
        assert!(!c.is_whitespace());
    }
}

#[test]
fn separators_agree_with_the_standard_library_everywhere() {
    for code in 0..=0x10ffff_u32 {
        if let Some(c) = char::from_u32(code) {
            assert_eq!(separates(c), c.is_whitespace());
        }
    }
}

#[test]
fn a_line_is_measured_in_characters_and_words() {
    assert_eq!(measure(""), (0, 0));
    assert_eq!(measure("   "), (3, 0));
    assert_eq!(measure("word"), (4, 1));
    assert_eq!(measure("two words"), (9, 2));
    assert_eq!(measure("  padded \t line  "), (17, 2));
    assert_eq!(measure("grüße aus\u{a0}köln"), (14, 3));
    assert_eq!(measure("a b c d e"), (9, 5));
    for line in ["", " x", "x ", " x y  z ", "\tone\u{3000}two\u{2009}3", "naïve café"] {
        assert_eq!(
            measure(line),
            (line.chars().count(), line.split_whitespace().count())
        );
    }
}

#[test]
fn totals_add_up_line_by_line() {
    let mut counts = Counts::new();
    assert_eq!(counts, Counts { lines: -1, words: 0, chars: 0 });
    counts.add_line("the quick brown fox");
    assert_eq!(counts, Counts { lines: 0, words: 4, chars: 19 });
    counts.add_line("");
    assert_eq!(counts, Counts { lines: 1, words: 4, chars: 19 });
    counts.add_line("  jumps ");
    assert_eq!(counts, Counts { lines: 2, words: 5, chars: 27 });
}
