use emily_bee::keyboard::{
    compute_transform, make_hexagon, Hexagon, Keyboard, Msg, Props, Status, SHUFFLE,
};

fn props(purple: Option<char>, extra_used: bool) -> Props {
    Props { purple, grid: "topqrsu".chars().collect(), extra_used }
}

#[test]
fn status_classes() {
    assert_eq!(Status::InGrid.class(), "grid-letter");
    assert_eq!(Status::Normal.class(), "normal-letter");
    assert_eq!(Status::Disabled.class(), "disabled-letter");
    assert_eq!(Status::Purple.class(), "purple-letter");
}

#[test]
fn transform_places_a_key() {
    assert_eq!(compute_transform(0, 0), "transform: translateX(0%) translateY(0%)");
    assert_eq!(compute_transform(1, 2), "transform: translateX(250%) translateY(75%)");
    assert_eq!(compute_transform(2, 7), "transform: translateX(800%) translateY(150%)");
}

#[test]
fn hexagon_styles() {
    let key = make_hexagon('e', 1, 2, Status::Purple);
    assert_eq!(key, Hexagon { letter: 'e', row: 1, col: 2, status: Status::Purple });
    assert_eq!(key.class(), "purple-letter");
    assert_eq!(key.text_class(), "keyboard-letter purple-letter-text");
    assert_eq!(key.style(), "transform: translateX(250%) translateY(75%)");
}

#[test]
fn keys_are_marked_by_the_props() {
    let fresh = Keyboard::create(props(None, false));
    assert_eq!(fresh.letter_status('t'), Status::InGrid);
    assert_eq!(fresh.letter_status('e'), Status::Normal);
    assert_eq!(fresh.letter_status(SHUFFLE), Status::Normal);

    let one = Keyboard::create(props(Some('e'), true));
    assert_eq!(one.letter_status('t'), Status::InGrid);
    assert_eq!(one.letter_status('e'), Status::Purple);
    assert_eq!(one.letter_status('x'), Status::Disabled);
    assert_eq!(one.letter_status(SHUFFLE), Status::Normal);

    let two = Keyboard::create(props(None, true));
    assert_eq!(two.letter_status('e'), Status::Disabled);
    assert_eq!(two.letter_status('x'), Status::Disabled);
    assert_eq!(two.letter_status('q'), Status::InGrid);
}

#[test]
fn update_tells_the_owner_what_was_pressed() {
    let keyboard = Keyboard::create(props(None, false));
    assert_eq!(keyboard.update('a'), Msg::Char('a'));
    assert_eq!(keyboard.update(SHUFFLE), Msg::Shuffle);
}

#[test]
fn change_says_whether_the_props_differ() {
    let mut keyboard = Keyboard::create(props(None, false));
    assert!(!keyboard.change(props(None, false)));
    // The order of the grid's letters does not count.
    assert!(!keyboard.change(Props {
        purple: None,
        grid: "usrqpot".chars().collect(),
        extra_used: false
    }));
    assert!(keyboard.change(props(Some('e'), true)));
    assert_eq!(keyboard.letter_status('e'), Status::Purple);
    assert!(keyboard.change(props(Some('x'), true)));
    assert!(keyboard.change(props(None, true)));
    assert!(keyboard.change(Props {
        purple: None,
        grid: "topqrs".chars().collect(),
        extra_used: true
    }));
}

#[test]
fn view_lists_the_keys_row_by_row() {
    let keys = Keyboard::create(props(Some('e'), true)).view();
    assert_eq!(keys.len(), 27);
    let letters: String = keys.iter().map(|k| k.letter).collect();
    assert_eq!(letters, format!("qwertyuiopasdfghjklzxcvbnm{}", SHUFFLE));
    assert_eq!(keys[0], Hexagon { letter: 'q', row: 0, col: 0, status: Status::InGrid });
    assert_eq!(keys[2], Hexagon { letter: 'e', row: 0, col: 2, status: Status::Purple });
    assert_eq!(keys[10], Hexagon { letter: 'a', row: 1, col: 0, status: Status::Disabled });
    assert_eq!(keys[18], Hexagon { letter: 'l', row: 1, col: 8, status: Status::Disabled });
    assert_eq!(keys[19], Hexagon { letter: 'z', row: 2, col: 0, status: Status::Disabled });
    assert_eq!(keys[26], Hexagon { letter: SHUFFLE, row: 2, col: 7, status: Status::Normal });
}
