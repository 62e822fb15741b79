use snowman::dictionary::{
    choose_word, dictionary_entry, parse_dictionary, review_new_words, select_word, split_words,
};
use snowman::display::{render_slots, reveal_word, Slot};
use snowman::letters::GuessedLetters;
use snowman::text::normalize_input;
use snowman::validate::{in_dictionary, validate_guess, validate_new_word, RejectReason};

fn letters(cs: &[char]) -> GuessedLetters {
    let mut g = GuessedLetters::new();
    for c in cs {
        g.insert(*c);
    }
    g
}

fn words(ws: &[&str]) -> Vec<String> {
    ws.iter().map(|w| w.to_string()).collect()
}

#[test]
fn guess_must_be_one_character() {
    let g = GuessedLetters::new();
    assert_eq!(validate_guess("ab", &g), Err(RejectReason::NotSingleCharacter));
    assert_eq!(validate_guess("", &g), Err(RejectReason::NotSingleCharacter));
}

#[test]
fn guess_must_be_a_word_character() {
    let g = GuessedLetters::new();
    assert_eq!(validate_guess("1", &g), Err(RejectReason::InvalidCharacter));
    assert_eq!(validate_guess(" ", &g), Err(RejectReason::InvalidCharacter));
    assert_eq!(validate_guess("-", &g), Ok(()));
    assert_eq!(validate_guess("'", &g), Ok(()));
    assert_eq!(validate_guess("é", &g), Ok(()));
}

#[test]
fn guess_already_made_is_rejected_only_after_other_checks() {
    let g = letters(&['a', 'q']);
    assert_eq!(validate_guess("a", &g), Err(RejectReason::AlreadyGuessed));
    assert_eq!(validate_guess("b", &g), Ok(()));
    assert_eq!(validate_guess("aa", &g), Err(RejectReason::NotSingleCharacter));
}

#[test]
fn guessed_letters_are_sorted_and_unique() {
    let g = letters(&['t', 'a', 'c', 'a', 't']);
    assert_eq!(g.sorted(), vec!['a', 'c', 't']);
    assert_eq!(g.len(), 3);
    assert!(g.contains('c'));
    assert!(!g.contains('b'));
}

#[test]
fn short_words_are_rejected_whatever_the_dictionary() {
    assert_eq!(validate_new_word("a", &Vec::new()), Err(RejectReason::TooShort));
    assert_eq!(validate_new_word("", &words(&["a", ""])), Err(RejectReason::TooShort));
    assert_eq!(validate_new_word("x", &words(&["x"])), Err(RejectReason::TooShort));
}

#[test]
fn new_word_characters_are_checked() {
    assert_eq!(validate_new_word("ab1", &Vec::new()), Err(RejectReason::InvalidCharacter));
    assert_eq!(validate_new_word("a b", &Vec::new()), Err(RejectReason::InvalidCharacter));
    assert_eq!(validate_new_word("don't", &Vec::new()), Ok(()));
    assert_eq!(validate_new_word("x-ray", &Vec::new()), Ok(()));
}

#[test]
fn new_word_already_present() {
    let d = words(&["cat", "dog"]);
    assert_eq!(validate_new_word("dog", &d), Err(RejectReason::AlreadyPresent));
    assert_eq!(validate_new_word("doge", &d), Ok(()));
    assert!(in_dictionary("cat", &d));
    assert!(!in_dictionary("ca", &d));
}

#[test]
fn reveal_shows_guessed_letters() {
    let g = letters(&['c', 't', 'z']);
    let (slots, full) = reveal_word("cat", &g);
    assert_eq!(slots, vec![Slot::Shown('c'), Slot::Blank, Slot::Shown('t')]);
    assert!(!full);
    assert_eq!(render_slots(&slots), "c _ t ");
    let (again, full_again) = reveal_word("cat", &g);
    assert_eq!(slots, again);
    assert_eq!(full, full_again);
}

#[test]
fn reveal_of_complete_word() {
    let g = letters(&['o', 'd', 'g']);
    let (slots, full) = reveal_word("dog", &g);
    assert!(full);
    assert_eq!(render_slots(&slots), "d o g ");
}

#[test]
fn word_list_lines() {
    let d = parse_dictionary("cat\ndog\n\nbird\r\nfish");
    assert_eq!(d, words(&["cat", "dog", "bird", "fish"]));
    assert_eq!(parse_dictionary(""), Vec::<String>::new());
    assert_eq!(parse_dictionary("\n\n"), Vec::<String>::new());
    assert_eq!(parse_dictionary("a\r\rb\n"), words(&["a\r\rb"]));
}

#[test]
fn append_then_reload_empty_list() {
    let entry = dictionary_entry("snow");
    assert_eq!(entry, "snow\n");
    assert_eq!(parse_dictionary(&entry), words(&["snow"]));
    let mut text = String::from("cat\n");
    text.push_str(&dictionary_entry("hat"));
    assert_eq!(parse_dictionary(&text), words(&["cat", "hat"]));
}

#[test]
fn word_selection() {
    let d = words(&["cat", "dog"]);
    assert_eq!(select_word(&d, 1), Some("dog".to_string()));
    assert_eq!(select_word(&d, 2), None);
    assert_eq!(choose_word(&Vec::new()), None);
    for _ in 0..20 {
        let w = choose_word(&d).unwrap();
        assert!(w == "cat" || w == "dog");
    }
}

#[test]
fn split_line_into_words() {
    assert_eq!(split_words("ab  cd e"), words(&["ab", "cd", "e"]));
    assert_eq!(split_words(" "), Vec::<String>::new());
    assert_eq!(split_words("snow"), words(&["snow"]));
}

#[test]
fn review_admits_each_word_once() {
    let mut d = words(&["cat"]);
    let offered = words(&["dog", "cat", "dog", "a", "b4d"]);
    let verdicts = review_new_words(&offered, &mut d);
    assert_eq!(
        verdicts,
        vec![
            Ok(()),
            Err(RejectReason::AlreadyPresent),
            Err(RejectReason::AlreadyPresent),
            Err(RejectReason::TooShort),
            Err(RejectReason::InvalidCharacter),
        ]
    );
    assert_eq!(d, words(&["cat", "dog"]));
}

#[test]
fn input_is_trimmed_and_lowered() {
    assert_eq!(normalize_input("  CaT \n"), "cat");
    assert_eq!(normalize_input("\tÉ"), "é");
}

#[test]
fn guess_is_compared_in_lower_case() {
    let g = letters(&['a']);
    assert_eq!(validate_guess("A", &g), Err(RejectReason::AlreadyGuessed));
    assert_eq!(validate_guess("B", &g), Ok(()));
}

#[test]
fn new_word_duplicate_check_ignores_case() {
    assert_eq!(validate_new_word("Snow", &words(&["snow"])), Err(RejectReason::AlreadyPresent));
    assert_eq!(validate_new_word("snow", &words(&["Snow"])), Err(RejectReason::AlreadyPresent));
    assert!(in_dictionary("CAT", &words(&["dog", "cAt"])));
    let mut d = words(&["Snow"]);
    let verdicts = review_new_words(&words(&["snow", "Hat", "hat"]), &mut d);
    assert_eq!(
        verdicts,
        vec![Err(RejectReason::AlreadyPresent), Ok(()), Err(RejectReason::AlreadyPresent)]
    );
    assert_eq!(d, words(&["Snow", "Hat"]));
}

#[test]
fn reveal_ignores_case_of_the_word() {
    let g = letters(&['c']);
    let (slots, full) = reveal_word("Cat", &g);
    assert_eq!(slots, vec![Slot::Shown('C'), Slot::Blank, Slot::Blank]);
    assert!(!full);
}

#[test]
fn split_line_at_any_white_space() {
    assert_eq!(split_words("ab\tcd\n  e"), words(&["ab", "cd", "e"]));
    assert_eq!(split_words("\t \n"), Vec::<String>::new());
}
