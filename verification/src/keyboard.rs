//! The on-screen keyboard: which key stands where, and how each key is
//! marked while a guess is being typed.

use crate::letters::contains;
use crate::text::{chars_of, decimal, push_chars, push_decimal};
use vstd::prelude::*;
use vstd::string::StringExecFns;

verus! {

/// The key that shuffles the outer letters.
pub const SHUFFLE: char = '\u{21ba}';

/// What the keyboard tells its owner when a key is pressed.
#[derive(Clone, Copy, Debug, PartialEq, Eq)]
pub enum Msg {
    Char(char),
    Shuffle,
}

/// How a key is marked.
#[derive(Clone, Copy, Debug, PartialEq, Eq)]
pub enum Status {
    /// The letter is one of the seven letters of the puzzle.
    InGrid,
    /// The guess holds no foreign letter yet: any letter may still come.
    Normal,
    /// The guess already holds another foreign letter.
    Disabled,
    /// The letter is the one foreign letter of the guess.
    Purple,
}

/// What the keyboard is told about the session.
#[derive(Clone, Debug, PartialEq, Eq)]
pub struct Props {
    /// The one letter of the guess that is foreign to the puzzle, if the
    /// guess holds exactly one.
    pub purple: Option<char>,
    /// The seven letters of the puzzle.
    pub grid: Vec<char>,
    /// Whether the guess holds any letter that is foreign to the puzzle.
    pub extra_used: bool,
}

/// The keyboard of the puzzle.
pub struct Keyboard {
    props: Props,
}

/// One key of the keyboard: a hexagon in row `row`, at place `col`.
#[derive(Clone, Copy, Debug, PartialEq, Eq)]
pub struct Hexagon {
    pub letter: char,
    pub row: usize,
    pub col: usize,
    pub status: Status,
}

/// The style class of a key with the given mark.
pub open spec fn class_name(status: Status) -> Seq<char> {
    match status {
        Status::InGrid => "grid-letter"@,
        Status::Normal => "normal-letter"@,
        Status::Disabled => "disabled-letter"@,
        Status::Purple => "purple-letter"@,
    }
}

/// The style that moves a key to its place: each key is a hundred percent of
/// its width from the next, each row half a key further right than the row
/// above and three quarters of a key below it.
pub open spec fn transform(row: nat, col: nat) -> Seq<char> {
    "transform: translateX("@ + decimal(col * 100 + row * 50) + "%) translateY("@ + decimal(
        75 * row,
    ) + "%)"@
}

/// The mark of a key. The shuffle key is never marked; a letter of the grid
/// is marked as such; of the other letters the purple one is purple, and the
/// rest are disabled once the guess holds a foreign letter.
pub open spec fn key_status(
    purple: Option<char>,
    grid: Set<char>,
    extra_used: bool,
    letter: char,
) -> Status {
    if letter == SHUFFLE {
        Status::Normal
    } else if grid.contains(letter) {
        Status::InGrid
    } else if purple == Some(letter) {
        Status::Purple
    } else if purple is Some || extra_used {
        Status::Disabled
    } else {
        Status::Normal
    }
}

/// The letters of a row of the keyboard, from the left. There are three
/// rows; the shuffle key ends the last.
pub open spec fn key_row(row: int) -> Seq<char> {
    if row == 0 {
        "qwertyuiop"@
    } else if row == 1 {
        "asdfghjkl"@
    } else {
        "zxcvbnm"@.push(SHUFFLE)
    }
}

/// The keys of one row, from the left, each with its mark.
pub open spec fn row_keys(
    purple: Option<char>,
    grid: Set<char>,
    extra_used: bool,
    row: usize,
    letters: Seq<char>,
) -> Seq<Hexagon>
    decreases letters.len(),
{
    if letters.len() == 0 {
        Seq::empty()
    } else {
        row_keys(purple, grid, extra_used, row, letters.drop_last()).push(
            Hexagon {
                letter: letters.last(),
                row,
                col: (letters.len() - 1) as usize,
                status: key_status(purple, grid, extra_used, letters.last()),
            },
        )
    }
}

/// Whether two sets of props say the same: the same purple letter, the same
/// letters in the grid, and the same word on foreign letters.
pub open spec fn same_props(a: Props, b: Props) -> bool {
    &&& a.purple == b.purple
    &&& a.grid@.to_set() == b.grid@.to_set()
    &&& a.extra_used == b.extra_used
}

/// The style that moves the key in row `row`, at place `col`, to its place.
pub fn compute_transform(row: usize, col: usize) -> (style: String)
    requires
        75 * row <= i32::MAX,
        col * 100 + row * 50 <= usize::MAX,
    ensures
        style@ == transform(row as nat, col as nat),
{
    let y: i32 = 75 * (row as i32);
    let x: usize = (col * 100) + row * 50;
    let mut style = String::from_str("transform: translateX(");
    let mut digits: Vec<char> = Vec::new();
    push_decimal(&mut digits, x as u64);
    push_chars(&mut style, &digits);
    style.append("%) translateY(");
    let mut digits: Vec<char> = Vec::new();
    push_decimal(&mut digits, y as u64);
    push_chars(&mut style, &digits);
    style.append("%)");
    style
}

impl Status {
    /// The style class of a key with this mark.
    pub fn class(&self) -> (name: &'static str)
        ensures
            name@ == class_name(*self),
    {
        match self {
            Status::InGrid => "grid-letter",
            Status::Normal => "normal-letter",
            Status::Disabled => "disabled-letter",
            Status::Purple => "purple-letter",
        }
    }
}

/// The key with the given letter, place and mark.
pub fn make_hexagon(letter: char, row: usize, col: usize, status: Status) -> (key: Hexagon)
    ensures
        key == (Hexagon { letter, row, col, status }),
{
    Hexagon { letter, row, col, status }
}

impl Hexagon {
    /// The style class of the key's shape.
    pub fn class(&self) -> (name: &'static str)
        ensures
            name@ == class_name(self.status),
    {
        self.status.class()
    }

    /// The style class of the key's letter.
    pub fn text_class(&self) -> (name: String)
        ensures
            name@ == "keyboard-letter "@ + class_name(self.status) + "-text"@,
    {
        let mut name = String::from_str("keyboard-letter ");
        name.append(self.status.class());
        name.append("-text");
        name
    }

    /// The style that moves the key to its place.
    pub fn style(&self) -> (style: String)
        requires
            75 * self.row <= i32::MAX,
            self.col * 100 + self.row * 50 <= usize::MAX,
        ensures
            style@ == transform(self.row as nat, self.col as nat),
    {
        compute_transform(self.row, self.col)
    }
}

/// Whether every letter of `a` is a letter of `b`.
fn within(a: &Vec<char>, b: &Vec<char>) -> (r: bool)
    ensures
        r == a@.to_set().subset_of(b@.to_set()),
{
    let mut i: usize = 0;
    while i < a.len()
        invariant
            i <= a.len(),
            forall|j: int| 0 <= j < i ==> b@.contains(a@[j]),
        decreases a.len() - i,
    {
        if !contains(b, a[i]) {
            assert(a@.to_set().contains(a@[i as int]));
            return false;
        }
        i += 1;
    }
    true
}

impl Props {
    /// Whether these props say the same as the others.
    pub fn same_as(&self, other: &Props) -> (r: bool)
        ensures
            r == same_props(*self, *other),
    {
        let purple = match (self.purple, other.purple) {
            (Some(a), Some(b)) => a == b,
            (None, None) => true,
            _ => false,
        };
        let there = within(&self.grid, &other.grid);
        let back = within(&other.grid, &self.grid);
        proof {
            if there && back {
                assert(self.grid@.to_set() =~= other.grid@.to_set());
            }
        }
        purple && there && back && self.extra_used == other.extra_used
    }
}

impl Keyboard {
    /// What the keyboard was last told.
    pub closed spec fn props(&self) -> Props {
        self.props
    }

    /// A keyboard that shows what the props say.
    pub fn create(props: Props) -> (keyboard: Keyboard)
        ensures
            keyboard.props() == props,
    {
        Keyboard { props }
    }

    /// A key was pressed: what to tell the owner. The shuffle key asks for a
    /// shuffle, every other key gives its letter.
    pub fn update(&self, msg: char) -> (told: Msg)
        ensures
            told == if msg == SHUFFLE {
                Msg::Shuffle
            } else {
                Msg::Char(msg)
            },
    {
        if msg == SHUFFLE {
            Msg::Shuffle
        } else {
            Msg::Char(msg)
        }
    }

    /// Takes new props, and says whether they differ from the old ones.
    pub fn change(&mut self, props: Props) -> (changed: bool)
        ensures
            changed == !same_props(props, old(self).props()),
            final(self).props() == props,
    {
        let changed = !props.same_as(&self.props);
        self.props = props;
        changed
    }

    /// The mark of the key with the given letter.
    pub fn letter_status(&self, letter: char) -> (status: Status)
        ensures
            status == key_status(
                self.props().purple,
                self.props().grid@.to_set(),
                self.props().extra_used,
                letter,
            ),
    {
        if letter == SHUFFLE {
            return Status::Normal;
        }
        if contains(&self.props.grid, letter) {
            return Status::InGrid;
        }
        match self.props.purple {
            None => if self.props.extra_used {
                Status::Disabled
            } else {
                Status::Normal
            },
            Some(purple) => if letter == purple {
                Status::Purple
            } else {
                Status::Disabled
            },
        }
    }

    /// Appends the keys of one row to `keys`.
    fn push_row(&self, keys: &mut Vec<Hexagon>, row: usize, letters: &Vec<char>)
        ensures
            final(keys)@ == old(keys)@ + row_keys(
                self.props().purple,
                self.props().grid@.to_set(),
                self.props().extra_used,
                row,
                letters@,
            ),
    {
        let mut col: usize = 0;
        proof {
            assert(keys@ + Seq::<Hexagon>::empty() =~= keys@);
        }
        while col < letters.len()
            invariant
                col <= letters.len(),
                keys@ == old(keys)@ + row_keys(
                    self.props().purple,
                    self.props().grid@.to_set(),
                    self.props().extra_used,
                    row,
                    letters@.take(col as int),
                ),
            decreases letters.len() - col,
        {
            let letter = letters[col];
            let ghost done = row_keys(
                self.props().purple,
                self.props().grid@.to_set(),
                self.props().extra_used,
                row,
                letters@.take(col as int),
            );
            proof {
                assert(letters@.take(col + 1).drop_last() =~= letters@.take(col as int));
                assert(letters@.take(col + 1).last() == letter);
            }
            let key = make_hexagon(letter, row, col, self.letter_status(letter));
            keys.push(key);
            proof {
                assert(keys@ =~= old(keys)@ + done.push(key));
            }
            col += 1;
        }
        proof {
            assert(letters@.take(col as int) =~= letters@);
        }
    }

    /// The keys of the keyboard, row by row and from the left, each with its
    /// mark.
    pub fn view(&self) -> (keys: Vec<Hexagon>)
        ensures
            keys@ == row_keys(
                self.props().purple,
                self.props().grid@.to_set(),
                self.props().extra_used,
                0,
                key_row(0),
            ) + row_keys(
                self.props().purple,
                self.props().grid@.to_set(),
                self.props().extra_used,
                1,
                key_row(1),
            ) + row_keys(
                self.props().purple,
                self.props().grid@.to_set(),
                self.props().extra_used,
                2,
                key_row(2),
            ),
    {
        let top = chars_of("qwertyuiop");
        let middle = chars_of("asdfghjkl");
        let mut bottom = chars_of("zxcvbnm");
        bottom.push(SHUFFLE);
        let mut keys: Vec<Hexagon> = Vec::new();
        self.push_row(&mut keys, 0, &top);
        self.push_row(&mut keys, 1, &middle);
        self.push_row(&mut keys, 2, &bottom);
        keys
    }
}

} // verus!
