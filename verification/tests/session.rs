use emily_bee::corpus::{ConfigurationError, PuzzleDefinition};
use emily_bee::keyboard::{Keyboard, Msg, Status, SHUFFLE};
use emily_bee::session::{
    action_for_key, key, keyboard_callback, Action, Effect, Mark, Rejection, Session,
    MESSAGE_MILLIS,
};

fn puzzle() -> PuzzleDefinition {
    PuzzleDefinition {
        center: 't',
        outer: "opqrsu".to_string(),
        words: vec!["quotes".to_string(), "troupes".to_string(), "spouter".to_string()],
    }
}

fn start(stored: &str) -> Session {
    Session::new(puzzle(), stored).unwrap()
}

fn type_word(session: &mut Session, word: &str) {
    for c in word.chars() {
        assert_eq!(session.dispatch(Action::PushLetter(c)), Effect::Nothing);
    }
}

fn strings(words: &[&str]) -> Vec<String> {
    words.iter().map(|w| w.to_string()).collect()
}

#[test]
fn a_new_session_is_empty() {
    let session = start("");
    assert_eq!(session.center(), 't');
    assert_eq!(session.definition(), &puzzle());
    assert_eq!(session.letters(), &"opqrsu".chars().collect::<Vec<char>>());
    assert_eq!(session.found_words(), &Vec::<String>::new());
    assert_eq!(session.current_word(), "");
    assert_eq!(session.message(), &None);
    assert!(!session.wordlist_visible());
    assert_eq!(session.grid(), "topqrsu".chars().collect::<Vec<char>>());
    assert_eq!(session.storage_key(), "topqrsu");
    assert_eq!(session.stored_value(), "");
}

#[test]
fn a_faulty_puzzle_starts_no_session() {
    let mut short = puzzle();
    short.outer = "opqrs".to_string();
    assert_eq!(Session::new(short, "").err(), Some(ConfigurationError::LetterCount));
    let mut twice = puzzle();
    twice.outer = "opqrss".to_string();
    assert_eq!(Session::new(twice, "").err(), Some(ConfigurationError::RepeatedLetter));
    let mut center = puzzle();
    center.outer = "opqrst".to_string();
    assert_eq!(Session::new(center, "").err(), Some(ConfigurationError::CenterAmongOuter));
}

#[test]
fn stored_lines_seed_the_found_words() {
    let session = start("troupes\r\nnonsense\nquotes\ntroupes\n");
    assert_eq!(session.found_words(), &strings(&["troupes", "quotes"]));
}

#[test]
fn letters_are_typed_in_lower_case() {
    let mut session = start("");
    type_word(&mut session, "QuO-t\u{c9}");
    assert_eq!(session.current_word(), "quo-t\u{c9}");
}

#[test]
fn backspace_takes_the_last_letter() {
    let mut session = start("");
    assert_eq!(session.dispatch(Action::Backspace), Effect::Nothing);
    assert_eq!(session.current_word(), "");
    type_word(&mut session, "tro");
    assert_eq!(session.dispatch(Action::Backspace), Effect::Nothing);
    assert_eq!(session.current_word(), "tr");
    session.dispatch(Action::Backspace);
    session.dispatch(Action::Backspace);
    session.dispatch(Action::Backspace);
    assert_eq!(session.current_word(), "");
    type_word(&mut session, "u");
    assert_eq!(session.current_word(), "u");
}

#[test]
fn guess_length_counts_key_strokes() {
    let mut session = start("");
    let strokes = [
        Action::Backspace,
        Action::PushLetter('a'),
        Action::PushLetter('b'),
        Action::Backspace,
        Action::Backspace,
        Action::Backspace,
        Action::PushLetter('c'),
        Action::PushLetter('d'),
        Action::PushLetter('e'),
        Action::Backspace,
    ];
    let mut expected: usize = 0;
    for stroke in strokes {
        session.dispatch(stroke);
        expected = match stroke {
            Action::PushLetter(_) => expected + 1,
            _ => expected.saturating_sub(1),
        };
        assert_eq!(session.current_word().chars().count(), expected);
    }
    assert_eq!(session.current_word(), "cd");
}

#[test]
fn a_word_of_the_puzzle_is_found_and_stored() {
    let mut session = start("");
    type_word(&mut session, "troupes");
    assert_eq!(session.verdict(), None);
    let effect = session.dispatch(Action::Submit);
    assert_eq!(
        effect,
        Effect::Persist { key: "topqrsu".to_string(), value: "troupes".to_string() }
    );
    assert_eq!(session.found_words(), &strings(&["troupes"]));
    assert_eq!(session.current_word(), "");
    assert_eq!(session.message(), &None);

    type_word(&mut session, "spouter");
    let effect = session.dispatch(Action::Submit);
    assert_eq!(
        effect,
        Effect::Persist { key: "topqrsu".to_string(), value: "troupes\nspouter".to_string() }
    );
    assert_eq!(session.found_words(), &strings(&["troupes", "spouter"]));
    assert_eq!(session.stored_value(), "troupes\nspouter");
}

#[test]
fn a_word_that_lacks_two_letters_is_turned_down_though_listed() {
    let mut session = start("");
    for c in ['q', 'u', 'o', 't', 'e', 's'] {
        session.dispatch(Action::PushLetter(c));
    }
    let effect = session.dispatch(Action::Submit);
    assert_eq!(effect, Effect::ClearMessageLater);
    assert_eq!(session.message(), &Some(Rejection::MissingLetters(vec!['p', 'r'])));
    assert_eq!(session.found_words(), &Vec::<String>::new());
    assert_eq!(session.current_word(), "");
    assert_eq!(session.stored_value(), "");
}

#[test]
fn too_many_new_letters_come_first() {
    let mut session = start("");
    type_word(&mut session, "xy");
    assert_eq!(session.verdict(), Some(Rejection::TooManyNewLetters));
    assert_eq!(session.dispatch(Action::Submit), Effect::ClearMessageLater);
    assert_eq!(session.message(), &Some(Rejection::TooManyNewLetters));
    assert_eq!(session.current_word(), "");
}

#[test]
fn an_empty_guess_misses_every_letter() {
    let mut session = start("");
    assert_eq!(session.dispatch(Action::Submit), Effect::ClearMessageLater);
    assert_eq!(
        session.message(),
        &Some(Rejection::MissingLetters(vec!['t', 'o', 'p', 'q', 'r', 's', 'u']))
    );
}

#[test]
fn a_word_outside_the_list_is_turned_down() {
    let mut session = start("");
    type_word(&mut session, "troupers");
    assert_eq!(session.dispatch(Action::Submit), Effect::ClearMessageLater);
    assert_eq!(session.message(), &Some(Rejection::NotInWordlist));
    assert_eq!(session.found_words(), &Vec::<String>::new());
}

#[test]
fn a_found_word_is_turned_down_each_time() {
    let mut session = start("");
    type_word(&mut session, "troupes");
    session.dispatch(Action::Submit);
    for _ in 0..2 {
        type_word(&mut session, "troupes");
        assert_eq!(session.dispatch(Action::Submit), Effect::ClearMessageLater);
        assert_eq!(session.message(), &Some(Rejection::AlreadyFound));
        assert_eq!(session.found_words(), &strings(&["troupes"]));
        assert_eq!(session.current_word(), "");
    }
}

#[test]
fn the_message_is_cleared_on_request_and_by_a_find() {
    let mut session = start("");
    type_word(&mut session, "xy");
    session.dispatch(Action::Submit);
    assert!(session.message().is_some());
    assert_eq!(session.dispatch(Action::ClearMessage), Effect::Nothing);
    assert_eq!(session.message(), &None);

    type_word(&mut session, "xy");
    session.dispatch(Action::Submit);
    type_word(&mut session, "troupes");
    session.dispatch(Action::Submit);
    assert_eq!(session.message(), &None);
    assert_eq!(MESSAGE_MILLIS, 1000);
}

#[test]
fn rejection_texts() {
    assert_eq!(Rejection::TooManyNewLetters.text(), "Too many new letters");
    assert_eq!(Rejection::NotInWordlist.text(), "Not in wordlist");
    assert_eq!(Rejection::AlreadyFound.text(), "Already found");
    assert_eq!(
        Rejection::MissingLetters(vec!['p', 'r']).text(),
        "All letters except one must be included. Missing: ['p', 'r']"
    );
    assert_eq!(
        Rejection::MissingLetters(vec!['q']).text(),
        "All letters except one must be included. Missing: ['q']"
    );
    assert_eq!(
        Rejection::MissingLetters(Vec::new()).text(),
        "All letters except one must be included. Missing: []"
    );
}

#[test]
fn reloading_brings_the_found_words_back() {
    let mut session = start("");
    type_word(&mut session, "spouter");
    session.dispatch(Action::Submit);
    type_word(&mut session, "troupes");
    let effect = session.dispatch(Action::Submit);
    let (key, value) = match effect {
        Effect::Persist { key, value } => (key, value),
        other => panic!("nothing to store: {:?}", other),
    };
    let reloaded = start(&value);
    assert_eq!(reloaded.storage_key(), key);
    assert_eq!(reloaded.found_words(), session.found_words());
    assert_eq!(reloaded.found_words(), &strings(&["spouter", "troupes"]));
}

#[test]
fn shuffle_keeps_the_letters_and_the_key() {
    let mut changed = false;
    for seed in 0..20u64 {
        let mut session = start("");
        assert_eq!(session.dispatch(Action::Shuffle(seed)), Effect::Nothing);
        let mut sorted = session.letters().clone();
        sorted.sort();
        assert_eq!(sorted, "opqrsu".chars().collect::<Vec<char>>());
        assert_eq!(session.storage_key(), "topqrsu");
        assert_eq!(session.grid(), "topqrsu".chars().collect::<Vec<char>>());
        changed = changed || session.letters() != &"opqrsu".chars().collect::<Vec<char>>();

        let mut again = start("");
        again.dispatch(Action::Shuffle(seed));
        assert_eq!(again.letters(), session.letters());
    }
    assert!(changed);
}

#[test]
fn other_actions() {
    let mut session = start("");
    type_word(&mut session, "tr");
    assert_eq!(session.dispatch(Action::ToggleWords), Effect::Nothing);
    assert!(session.wordlist_visible());
    assert_eq!(session.dispatch(Action::ToggleWords), Effect::Nothing);
    assert!(!session.wordlist_visible());
    assert_eq!(session.dispatch(Action::Keyboard), Effect::FocusInput);
    assert_eq!(session.dispatch(Action::OtherKeypress), Effect::Nothing);
    assert_eq!(session.current_word(), "tr");
}

#[test]
fn keys_map_to_actions() {
    assert_eq!(action_for_key(" ", 7), Action::Shuffle(7));
    assert_eq!(action_for_key("a", 7), Action::PushLetter('a'));
    assert_eq!(action_for_key("A", 7), Action::PushLetter('A'));
    assert_eq!(action_for_key("1", 7), Action::PushLetter('1'));
    assert_eq!(action_for_key("Backspace", 7), Action::Backspace);
    assert_eq!(action_for_key("Enter", 7), Action::Submit);
    assert_eq!(action_for_key("Shift", 7), Action::OtherKeypress);
    assert_eq!(action_for_key("", 7), Action::OtherKeypress);
    assert_eq!(action_for_key("\u{e9}", 7), Action::OtherKeypress);
    assert_eq!(action_for_key("enter", 7), Action::OtherKeypress);
}

#[test]
fn keyboard_messages_map_to_actions() {
    assert_eq!(keyboard_callback(Msg::Char('x'), 3), Action::PushLetter('x'));
    assert_eq!(keyboard_callback(Msg::Shuffle, 3), Action::Shuffle(3));
}

#[test]
fn storage_key_is_center_then_outer() {
    assert_eq!(key('t', &"opqrsu".chars().collect()), "topqrsu");
    assert_eq!(key('g', &Vec::new()), "g");
}

#[test]
fn letters_are_marked_by_the_guess() {
    let mut session = start("");
    assert_eq!(session.purple(), None);
    assert_eq!(session.letter_status('t'), Status::InGrid);
    assert_eq!(session.letter_status('e'), Status::Normal);

    type_word(&mut session, "tre");
    assert_eq!(session.purple(), Some('e'));
    assert_eq!(session.letter_status('q'), Status::InGrid);
    assert_eq!(session.letter_status('e'), Status::Purple);
    assert_eq!(session.letter_status('x'), Status::Disabled);

    type_word(&mut session, "ex");
    assert_eq!(session.purple(), None);
    assert_eq!(session.letter_status('e'), Status::Disabled);
    assert_eq!(session.letter_status('x'), Status::Disabled);
    assert_eq!(session.letter_status('z'), Status::Disabled);
    assert_eq!(session.letter_status('u'), Status::InGrid);
}

#[test]
fn the_keyboard_marks_as_the_session_does() {
    let mut session = start("");
    for typed in ["", "tr", "e", "x"] {
        type_word(&mut session, typed);
        let keyboard = Keyboard::create(session.keyboard_props());
        for letter in "abcdefghijklmnopqrstuvwxyz".chars() {
            assert_eq!(keyboard.letter_status(letter), session.letter_status(letter));
        }
        assert_eq!(keyboard.letter_status(SHUFFLE), Status::Normal);
    }
}

#[test]
fn guess_letters_are_marked_for_show() {
    let mut session = start("");
    type_word(&mut session, "toex");
    assert_eq!(session.guess_marks(), vec![Mark::Center, Mark::Plain, Mark::Extra, Mark::Extra]);
    assert_eq!(Mark::Center.class(), "sb-input-bright");
    assert_eq!(Mark::Extra.class(), "sb-input-extra");
    assert_eq!(Mark::Plain.class(), "");
}

#[test]
fn progress_dots_fill_with_the_found_words() {
    let mut session = start("");
    assert_eq!(session.progress_dots(), vec![true, false, false]);
    type_word(&mut session, "troupes");
    session.dispatch(Action::Submit);
    assert_eq!(session.progress_dots(), vec![true, true, false]);
    type_word(&mut session, "spouter");
    session.dispatch(Action::Submit);
    assert_eq!(session.progress_dots(), vec![true, true, true]);
}
