//! A player's session: the guess being typed, the words found so far, and
//! what each action makes of them.

use crate::corpus::{alphabet, alphabet_of, check_seed, seed_fault, valid_seed};
use crate::corpus::{ConfigurationError, PuzzleDefinition};
use crate::keyboard::{key_status, Msg, Props, Status, SHUFFLE};
use crate::letters::{contains, letters_outside, lemma_outside_counts, lower, lowercase, outside};
use crate::text::{chars_of, holds_text, join_lines, joined, lines, lines_of, string_of};
use crate::text::{law_lines_of_joined, push_chars, survives_joining, texts};
use rand::rngs::StdRng;
use rand::seq::SliceRandom;
use rand::SeedableRng;
use vstd::prelude::*;
use vstd::string::StringExecFns;

verus! {

/// The generator of rand that a seed starts.
#[verifier::external_type_specification]
#[verifier::external_body]
pub struct ExStdRng(rand::rngs::StdRng);

/// `StdRng::seed_from_u64` of rand: a generator started from the seed.
/// Nothing is claimed of it.
#[verifier::external_body]
fn seeded(seed: u64) -> StdRng {
    StdRng::seed_from_u64(seed)
}

/// `SliceRandom::shuffle` of rand. It only swaps items of the slice, so the
/// letters afterwards are those from before, each as often as before; their
/// order is left to the generator.
#[verifier::external_body]
fn shuffle(letters: &mut Vec<char>, rng: &mut StdRng)
    ensures
        final(letters)@.to_multiset() == old(letters)@.to_multiset(),
{
    letters.shuffle(rng);
}

/// How long a message stays before it is to be cleared, in milliseconds.
pub const MESSAGE_MILLIS: u32 = 1000;

/// What a player, or the clock, can do to a session.
#[derive(Clone, Copy, Debug, PartialEq, Eq)]
pub enum Action {
    /// A letter was typed.
    PushLetter(char),
    /// The list of found words is to be shown or hidden.
    ToggleWords,
    /// The last letter of the guess is to go.
    Backspace,
    /// The device's own keyboard is asked for.
    Keyboard,
    /// The guess is handed in.
    Submit,
    /// The message has been shown long enough.
    ClearMessage,
    /// The outer letters are to be shuffled, by a generator started from the
    /// given seed.
    Shuffle(u64),
    /// A key that means nothing here.
    OtherKeypress,
}

/// Why a guess was turned down.
#[derive(Clone, Debug, PartialEq, Eq)]
pub enum Rejection {
    /// The guess holds more than one letter that is foreign to the puzzle.
    TooManyNewLetters,
    /// The guess lacks more than one letter of the puzzle: these.
    MissingLetters(Vec<char>),
    /// The guess is not in the word list.
    NotInWordlist,
    /// The guess was found before.
    AlreadyFound,
}

/// Why a guess was turned down, as a plain value.
pub enum Notice {
    TooManyNewLetters,
    MissingLetters(Seq<char>),
    NotInWordlist,
    AlreadyFound,
}

impl View for Rejection {
    type V = Notice;

    open spec fn view(&self) -> Notice {
        match self {
            Rejection::TooManyNewLetters => Notice::TooManyNewLetters,
            Rejection::MissingLetters(letters) => Notice::MissingLetters(letters@),
            Rejection::NotInWordlist => Notice::NotInWordlist,
            Rejection::AlreadyFound => Notice::AlreadyFound,
        }
    }
}

/// What the caller has to do after an action.
#[derive(Clone, Debug, PartialEq, Eq)]
pub enum Effect {
    /// Nothing.
    Nothing,
    /// Store `value` under `key`, in place of what was there.
    Persist { key: String, value: String },
    /// Send `ClearMessage` once the message has been shown long enough.
    ClearMessageLater,
    /// Put the focus on the input of the device's own keyboard.
    FocusInput,
}

/// How a letter of the guess is shown.
#[derive(Clone, Copy, Debug, PartialEq, Eq)]
pub enum Mark {
    /// The center letter.
    Center,
    /// A letter that is none of the puzzle's.
    Extra,
    /// An outer letter.
    Plain,
}

/// How a letter of the guess is shown: the center letter, a letter that is
/// not among the outer letters, or an outer letter.
pub open spec fn mark_of(center: char, outer: Seq<char>, c: char) -> Mark {
    if c == center {
        Mark::Center
    } else if !outer.contains(c) {
        Mark::Extra
    } else {
        Mark::Plain
    }
}

/// The style class of a letter of the guess.
pub open spec fn mark_class(mark: Mark) -> Seq<char> {
    match mark {
        Mark::Center => "sb-input-bright"@,
        Mark::Extra => "sb-input-extra"@,
        Mark::Plain => ""@,
    }
}

impl Mark {
    /// The style class of a letter of the guess.
    pub fn class(&self) -> (name: &'static str)
        ensures
            name@ == mark_class(*self),
    {
        match self {
            Mark::Center => "sb-input-bright",
            Mark::Extra => "sb-input-extra",
            Mark::Plain => "",
        }
    }
}

/// A session as plain values.
pub struct Game {
    pub center: char,
    pub outer: Seq<char>,
    pub words: Seq<Seq<char>>,
    pub letter_order: Seq<char>,
    pub found: Seq<Seq<char>>,
    pub guess: Seq<char>,
    pub message: Option<Notice>,
    pub words_visible: bool,
}

/// The message of an optional rejection, as a plain value.
pub open spec fn notice_of(message: Option<Rejection>) -> Option<Notice> {
    match message {
        Some(rejection) => Some(rejection@),
        None => None,
    }
}

/// The lines that a session takes from the store: each line that is a word
/// of the puzzle and did not come before, in the order of the lines.
pub open spec fn kept(words: Seq<Seq<char>>, lines: Seq<Seq<char>>) -> Seq<Seq<char>>
    decreases lines.len(),
{
    if lines.len() == 0 {
        Seq::empty()
    } else {
        let before = kept(words, lines.drop_last());
        if words.contains(lines.last()) && !before.contains(lines.last()) {
            before.push(lines.last())
        } else {
            before
        }
    }
}

/// A letter in single quotes.
pub open spec fn quoted(c: char) -> Seq<char> {
    seq!['\'', c, '\'']
}

/// Letters in single quotes, with a comma and a space between each two.
pub open spec fn listed(letters: Seq<char>) -> Seq<char>
    decreases letters.len(),
{
    if letters.len() == 0 {
        Seq::empty()
    } else if letters.len() == 1 {
        quoted(letters[0])
    } else {
        listed(letters.drop_last()) + seq![',', ' '] + quoted(letters.last())
    }
}

/// The message that tells a player why the guess was turned down.
pub open spec fn notice_text(notice: Notice) -> Seq<char> {
    match notice {
        Notice::TooManyNewLetters => "Too many new letters"@,
        Notice::MissingLetters(letters) => "All letters except one must be included. Missing: ["@
            + listed(letters) + "]"@,
        Notice::NotInWordlist => "Not in wordlist"@,
        Notice::AlreadyFound => "Already found"@,
    }
}

impl Game {
    /// The seven letters of the puzzle: the center letter, then the outer
    /// letters in the order of the puzzle.
    pub open spec fn alphabet(self) -> Seq<char> {
        alphabet(self.center, self.outer)
    }

    /// The letters of the guess that are foreign to the puzzle.
    pub open spec fn foreign(self) -> Set<char> {
        self.guess.to_set().difference(self.alphabet().to_set())
    }

    /// The letters of the puzzle that the guess lacks.
    pub open spec fn missing(self) -> Set<char> {
        self.alphabet().to_set().difference(self.guess.to_set())
    }

    /// What always holds of a session: its letters make a puzzle, the letters
    /// shown are the outer letters in some order, and the found words are
    /// words of the puzzle, none of them twice.
    pub open spec fn wf(self) -> bool {
        &&& valid_seed(self.center, self.outer)
        &&& self.letter_order.to_multiset() == self.outer.to_multiset()
        &&& self.found.no_duplicates()
        &&& forall|i: int| 0 <= i < self.found.len() ==> self.words.contains(#[trigger] self.found[i])
    }

    /// The session that starts from a puzzle and from what the store holds
    /// under the key of the puzzle.
    pub open spec fn start(
        center: char,
        outer: Seq<char>,
        words: Seq<Seq<char>>,
        stored: Seq<char>,
    ) -> Game {
        Game {
            center,
            outer,
            words,
            letter_order: outer,
            found: kept(words, lines_of(stored)),
            guess: Seq::empty(),
            message: None,
            words_visible: false,
        }
    }

    /// Why the guess is turned down, if it is. The tests come in this order:
    /// more than one foreign letter; more than one missing letter; not a word
    /// of the puzzle; found before.
    pub open spec fn verdict(self) -> Option<Notice> {
        if self.foreign().len() > 1 {
            Some(Notice::TooManyNewLetters)
        } else if self.missing().len() > 1 {
            Some(Notice::MissingLetters(outside(self.alphabet(), self.guess)))
        } else if !self.words.contains(self.guess) {
            Some(Notice::NotInWordlist)
        } else if self.found.contains(self.guess) {
            Some(Notice::AlreadyFound)
        } else {
            None
        }
    }

    /// The session after the guess was handed in. The guess is cleared either
    /// way; a guess that passes joins the found words and leaves no message,
    /// any other leaves the reason as the message.
    pub open spec fn submit(self) -> Game {
        match self.verdict() {
            Some(notice) => Game { guess: Seq::empty(), message: Some(notice), ..self },
            None => Game {
                found: self.found.push(self.guess),
                guess: Seq::empty(),
                message: None,
                ..self
            },
        }
    }

    /// The session with the given guess typed in.
    pub open spec fn typed(self, guess: Seq<char>) -> Game {
        Game { guess, ..self }
    }

    /// The session after an action. `order` is the order in which a shuffle
    /// leaves the outer letters; no other action looks at it.
    pub open spec fn step(self, action: Action, order: Seq<char>) -> Game {
        match action {
            Action::PushLetter(c) => Game { guess: self.guess.push(lower(c)), ..self },
            Action::ToggleWords => Game { words_visible: !self.words_visible, ..self },
            Action::Backspace => Game {
                guess: if self.guess.len() > 0 {
                    self.guess.drop_last()
                } else {
                    self.guess
                },
                ..self
            },
            Action::Keyboard => self,
            Action::Submit => self.submit(),
            Action::ClearMessage => Game { message: None, ..self },
            Action::Shuffle(_) => Game { letter_order: order, ..self },
            Action::OtherKeypress => self,
        }
    }

    /// The session after a row of actions, with every shuffle leaving the
    /// letters as they were.
    pub open spec fn after(self, actions: Seq<Action>) -> Game
        decreases actions.len(),
    {
        if actions.len() == 0 {
            self
        } else {
            let before = self.after(actions.drop_last());
            before.step(actions.last(), before.letter_order)
        }
    }

    /// The key under which the found words are stored: the center letter,
    /// then the outer letters in the order of the puzzle.
    pub open spec fn storage_key(self) -> Seq<char> {
        alphabet(self.center, self.outer)
    }

    /// What is stored: the found words, a line feed between each two.
    pub open spec fn stored_value(self) -> Seq<char> {
        joined(self.found)
    }

    /// Whether `effect` is what the caller has to do after the action: to
    /// store the found words after a guess that passed, to clear the message
    /// later after one that did not, to focus the input where the keyboard
    /// was asked for, and nothing after any other action.
    pub open spec fn calls_for(self, action: Action, effect: Effect) -> bool {
        match action {
            Action::Submit => match self.verdict() {
                None => effect matches Effect::Persist { key, value } && key@
                    == self.storage_key() && value@ == self.submit().stored_value(),
                Some(_) => effect is ClearMessageLater,
            },
            Action::Keyboard => effect is FocusInput,
            _ => effect is Nothing,
        }
    }

    /// The one letter of the guess that is foreign to the puzzle, if the
    /// guess holds exactly one.
    pub open spec fn purple(self) -> Option<char> {
        if self.foreign().len() == 1 {
            Some(self.foreign().choose())
        } else {
            None
        }
    }

    /// How a letter is marked while the guess is typed: as a letter of the
    /// puzzle; as the one foreign letter of the guess; as disabled, where the
    /// guess holds a foreign letter other than this one; or not at all.
    pub open spec fn letter_status(self, letter: char) -> Status {
        if self.alphabet().to_set().contains(letter) {
            Status::InGrid
        } else if self.foreign().len() == 1 && self.foreign().contains(letter) {
            Status::Purple
        } else if exists|other: char| self.foreign().contains(other) && other != letter {
            Status::Disabled
        } else {
            Status::Normal
        }
    }
}

/// How long the guess is after a row of key strokes, starting from `start`
/// letters: a letter makes it one longer, a backspace one shorter unless it
/// is empty.
pub open spec fn typed_length(start: int, actions: Seq<Action>) -> int
    decreases actions.len(),
{
    if actions.len() == 0 {
        start
    } else {
        let before = typed_length(start, actions.drop_last());
        match actions.last() {
            Action::PushLetter(_) => before + 1,
            Action::Backspace => if before > 0 {
                before - 1
            } else {
                0
            },
            _ => before,
        }
    }
}

/// The key under which a puzzle's found words are stored: the center letter,
/// then the outer letters.
pub fn key(c: char, letters: &Vec<char>) -> (s: String)
    ensures
        s@ == alphabet(c, letters@),
{
    let mut s = String::new();
    s.push(c);
    push_chars(&mut s, letters);
    s
}

/// The action that a key of the device's keyboard stands for.
pub open spec fn key_action(name: Seq<char>, seed: u64) -> Action {
    if name.len() == 1 {
        if name[0] == ' ' {
            Action::Shuffle(seed)
        } else if (name[0] as u32) < 128 {
            Action::PushLetter(name[0])
        } else {
            Action::OtherKeypress
        }
    } else if name == "Backspace"@ {
        Action::Backspace
    } else if name == "Enter"@ {
        Action::Submit
    } else {
        Action::OtherKeypress
    }
}

/// The action that a key of the device's keyboard stands for: the space bar
/// shuffles, with the given seed; a key of one ASCII character types it;
/// `Backspace` and `Enter` do what they say; no other key means anything.
pub fn action_for_key(name: &str, seed: u64) -> (action: Action)
    ensures
        action == key_action(name@, seed),
{
    let chars = chars_of(name);
    let backspace = chars_of("Backspace");
    let enter = chars_of("Enter");
    if chars.len() == 1 {
        let c = chars[0];
        if c == ' ' {
            Action::Shuffle(seed)
        } else if (c as u32) < 128 {
            Action::PushLetter(c)
        } else {
            Action::OtherKeypress
        }
    } else if same_chars(&chars, &backspace) {
        Action::Backspace
    } else if same_chars(&chars, &enter) {
        Action::Submit
    } else {
        Action::OtherKeypress
    }
}

/// The action that a message of the on-screen keyboard stands for.
pub fn keyboard_callback(msg: Msg, seed: u64) -> (action: Action)
    ensures
        action == match msg {
            Msg::Char(c) => Action::PushLetter(c),
            Msg::Shuffle => Action::Shuffle(seed),
        },
{
    match msg {
        Msg::Char(c) => Action::PushLetter(c),
        Msg::Shuffle => Action::Shuffle(seed),
    }
}

/// Whether two texts are the same.
fn same_chars(a: &Vec<char>, b: &Vec<char>) -> (r: bool)
    ensures
        r == (a@ == b@),
{
    if a.len() != b.len() {
        return false;
    }
    let mut i: usize = 0;
    while i < a.len()
        invariant
            i <= a.len(),
            a.len() == b.len(),
            forall|j: int| 0 <= j < i ==> a@[j] == b@[j],
        decreases a.len() - i,
    {
        if a[i] != b[i] {
            return false;
        }
        i += 1;
    }
    proof {
        assert(a@ =~= b@);
    }
    true
}

impl Rejection {
    /// The message that tells a player why the guess was turned down.
    pub fn text(&self) -> (s: String)
        ensures
            s@ == notice_text(self@),
    {
        match self {
            Rejection::TooManyNewLetters => String::from_str("Too many new letters"),
            Rejection::MissingLetters(letters) => {
                let mut s = String::from_str("All letters except one must be included. Missing: [");
                let ghost head = s@;
                let mut i: usize = 0;
                proof {
                    assert(letters@.take(0) =~= Seq::<char>::empty());
                    assert(head + Seq::<char>::empty() =~= head);
                }
                while i < letters.len()
                    invariant
                        i <= letters.len(),
                        s@ == head + listed(letters@.take(i as int)),
                    decreases letters.len() - i,
                {
                    let ghost done = letters@.take(i as int);
                    let ghost next = letters@.take(i + 1);
                    proof {
                        assert(next.drop_last() =~= done);
                        assert(next.last() == letters@[i as int]);
                    }
                    if i > 0 {
                        s.push(',');
                        s.push(' ');
                    }
                    s.push('\'');
                    s.push(letters[i]);
                    s.push('\'');
                    proof {
                        if i > 0 {
                            assert(s@ =~= head + (listed(done) + seq![',', ' '] + quoted(
                                next.last(),
                            )));
                        } else {
                            assert(next[0] == letters@[0]);
                            assert(s@ =~= head + quoted(next[0]));
                        }
                    }
                    i += 1;
                }
                proof {
                    assert(letters@.take(i as int) =~= letters@);
                }
                s.append("]");
                s
            },
            Rejection::NotInWordlist => String::from_str("Not in wordlist"),
            Rejection::AlreadyFound => String::from_str("Already found"),
        }
    }
}

/// A player's session with one puzzle.
pub struct Session {
    definition: PuzzleDefinition,
    puzzle: Vec<char>,
    letters: Vec<char>,
    found_words: Vec<String>,
    current_word: Vec<char>,
    message: Option<Rejection>,
    wordlist_visible: bool,
}

impl View for Session {
    type V = Game;

    closed spec fn view(&self) -> Game {
        Game {
            center: self.definition.center,
            outer: self.definition.outer@,
            words: texts(self.definition.words@),
            letter_order: self.letters@,
            found: texts(self.found_words@),
            guess: self.current_word@,
            message: notice_of(self.message),
            words_visible: self.wordlist_visible,
        }
    }
}

impl Session {
    /// What always holds of a session.
    pub closed spec fn wf(&self) -> bool {
        &&& self@.wf()
        &&& self.puzzle@ == self@.alphabet()
    }

    /// A session that is well formed shows a game that is.
    pub proof fn lemma_wf(&self)
        requires
            self.wf(),
        ensures
            self@.wf(),
    {
    }

    /// Starts a session from a puzzle and from what the store holds under
    /// the key of the puzzle: the lines of `stored` that are words of the
    /// puzzle are the words found so far. A puzzle whose letters are faulty
    /// starts no session.
    pub fn new(definition: PuzzleDefinition, stored: &str) -> (r: Result<Session, ConfigurationError>)
        ensures
            match r {
                Ok(session) => {
                    &&& session.wf()
                    &&& valid_seed(definition.center, definition.outer@)
                    &&& session@ == Game::start(
                        definition.center,
                        definition.outer@,
                        texts(definition.words@),
                        stored@,
                    )
                },
                Err(fault) => seed_fault(definition.center, definition.outer@) == Some(fault),
            },
    {
        let letters = chars_of(definition.outer.as_str());
        match check_seed(definition.center, &letters) {
            Err(fault) => {
                return Err(fault);
            },
            Ok(_) => {},
        }
        let puzzle = alphabet_of(definition.center, &letters);
        let stored_lines = lines(stored);
        let mut found_words: Vec<String> = Vec::new();
        let mut i: usize = 0;
        proof {
            assert(texts(stored_lines@).take(0) =~= Seq::<Seq<char>>::empty());
        }
        while i < stored_lines.len()
            invariant
                i <= stored_lines.len(),
                texts(found_words@) == kept(
                    texts(definition.words@),
                    texts(stored_lines@).take(i as int),
                ),
            decreases stored_lines.len() - i,
        {
            let ghost done = texts(stored_lines@).take(i as int);
            let ghost next = texts(stored_lines@).take(i + 1);
            proof {
                assert(next.drop_last() =~= done);
                assert(next.last() == stored_lines@[i as int]@);
            }
            if holds_text(&definition.words, &stored_lines[i]) && !holds_text(
                &found_words,
                &stored_lines[i],
            ) {
                let ghost before = texts(found_words@);
                found_words.push(stored_lines[i].clone());
                proof {
                    assert(texts(found_words@) =~= before.push(stored_lines@[i as int]@));
                }
            }
            i += 1;
        }
        proof {
            assert(texts(stored_lines@).take(i as int) =~= texts(stored_lines@));
            lemma_kept(texts(definition.words@), lines_of(stored@));
        }
        Ok(
            Session {
                definition,
                puzzle,
                letters,
                found_words,
                current_word: Vec::new(),
                message: None,
                wordlist_visible: false,
            },
        )
    }

    /// Why the guess would be turned down, if it would be.
    pub fn verdict(&self) -> (r: Option<Rejection>)
        requires
            self.wf(),
        ensures
            notice_of(r) == self@.verdict(),
    {
        proof {
            lemma_outside_counts(self.current_word@, self.puzzle@);
            lemma_outside_counts(self.puzzle@, self.current_word@);
        }
        let foreign = letters_outside(&self.current_word, &self.puzzle);
        if foreign.len() > 1 {
            return Some(Rejection::TooManyNewLetters);
        }
        let missing = letters_outside(&self.puzzle, &self.current_word);
        if missing.len() > 1 {
            return Some(Rejection::MissingLetters(missing));
        }
        let word = string_of(&self.current_word);
        if !holds_text(&self.definition.words, &word) {
            Some(Rejection::NotInWordlist)
        } else if holds_text(&self.found_words, &word) {
            Some(Rejection::AlreadyFound)
        } else {
            None
        }
    }

    /// Hands the guess in.
    fn submit(&mut self) -> (effect: Effect)
        requires
            old(self).wf(),
        ensures
            final(self).wf(),
            final(self)@ == old(self)@.submit(),
            old(self)@.calls_for(Action::Submit, effect),
    {
        match self.verdict() {
            Some(rejection) => {
                self.message = Some(rejection);
                self.current_word = Vec::new();
                Effect::ClearMessageLater
            },
            None => {
                let word = string_of(&self.current_word);
                let ghost before = texts(self.found_words@);
                self.found_words.push(word);
                proof {
                    assert(texts(self.found_words@) =~= before.push(word@));
                    assert forall|i: int| 0 <= i < before.push(word@).len() implies texts(
                        self.definition.words@,
                    ).contains(#[trigger] before.push(word@)[i]) by {
                        if i < before.len() {
                            assert(before.push(word@)[i] == before[i]);
                        }
                    }
                }
                self.current_word = Vec::new();
                self.message = None;
                let key = key(self.definition.center, &chars_of(self.definition.outer.as_str()));
                let value = join_lines(&self.found_words);
                Effect::Persist { key, value }
            },
        }
    }

    /// Takes one action, and says what the caller has to do after it. The
    /// session afterwards is the one that `Game::step` gives; after a
    /// shuffle the outer letters are the same letters in an order that the
    /// seed decides.
    pub fn dispatch(&mut self, action: Action) -> (effect: Effect)
        requires
            old(self).wf(),
        ensures
            final(self).wf(),
            final(self)@ == old(self)@.step(action, final(self)@.letter_order),
            final(self)@.letter_order.to_multiset() == old(self)@.letter_order.to_multiset(),
            old(self)@.calls_for(action, effect),
    {
        match action {
            Action::PushLetter(c) => {
                self.current_word.push(lowercase(c));
                Effect::Nothing
            },
            Action::ToggleWords => {
                self.wordlist_visible = !self.wordlist_visible;
                Effect::Nothing
            },
            Action::Backspace => {
                let ghost before = self.current_word@;
                self.current_word.pop();
                proof {
                    if before.len() > 0 {
                        assert(self.current_word@ =~= before.drop_last());
                    }
                }
                Effect::Nothing
            },
            Action::Keyboard => Effect::FocusInput,
            Action::Submit => self.submit(),
            Action::ClearMessage => {
                self.message = None;
                Effect::Nothing
            },
            Action::Shuffle(seed) => {
                let mut rng = seeded(seed);
                shuffle(&mut self.letters, &mut rng);
                Effect::Nothing
            },
            Action::OtherKeypress => Effect::Nothing,
        }
    }

    /// The center letter.
    pub fn center(&self) -> (c: char)
        ensures
            c == self@.center,
    {
        self.definition.center
    }

    /// The puzzle.
    pub fn definition(&self) -> (definition: &PuzzleDefinition)
        ensures
            definition.center == self@.center,
            definition.outer@ == self@.outer,
            texts(definition.words@) == self@.words,
    {
        &self.definition
    }

    /// The outer letters in the order in which they are shown.
    pub fn letters(&self) -> (letters: &Vec<char>)
        ensures
            letters@ == self@.letter_order,
    {
        &self.letters
    }

    /// The words found so far, in the order in which they were found.
    pub fn found_words(&self) -> (found: &Vec<String>)
        ensures
            texts(found@) == self@.found,
    {
        &self.found_words
    }

    /// The guess as typed so far.
    pub fn current_word(&self) -> (guess: String)
        ensures
            guess@ == self@.guess,
    {
        string_of(&self.current_word)
    }

    /// The reason why the last guess was turned down, while it is shown.
    pub fn message(&self) -> (message: &Option<Rejection>)
        ensures
            notice_of(*message) == self@.message,
    {
        &self.message
    }

    /// Whether the list of found words is shown.
    pub fn wordlist_visible(&self) -> (visible: bool)
        ensures
            visible == self@.words_visible,
    {
        self.wordlist_visible
    }

    /// The seven letters of the puzzle: the center letter, then the outer
    /// letters in the order of the puzzle.
    pub fn grid(&self) -> (grid: Vec<char>)
        requires
            self.wf(),
        ensures
            grid@ == self@.alphabet(),
    {
        self.puzzle.clone()
    }

    /// The one letter of the guess that is foreign to the puzzle, if the
    /// guess holds exactly one.
    pub fn purple(&self) -> (purple: Option<char>)
        requires
            self.wf(),
        ensures
            purple == self@.purple(),
    {
        let foreign = letters_outside(&self.current_word, &self.puzzle);
        proof {
            lemma_outside_counts(self.current_word@, self.puzzle@);
            lemma_single(foreign@);
        }
        if foreign.len() == 1 {
            Some(foreign[0])
        } else {
            None
        }
    }

    /// How a letter is marked while the guess is typed.
    pub fn letter_status(&self, letter: char) -> (status: Status)
        requires
            self.wf(),
        ensures
            status == self@.letter_status(letter),
    {
        if contains(&self.puzzle, letter) {
            return Status::InGrid;
        }
        let foreign = letters_outside(&self.current_word, &self.puzzle);
        proof {
            lemma_outside_counts(self.current_word@, self.puzzle@);
            lemma_single(foreign@);
            lemma_other(foreign@, letter);
        }
        if foreign.len() == 1 && foreign[0] == letter {
            Status::Purple
        } else if foreign.len() > 0 {
            Status::Disabled
        } else {
            Status::Normal
        }
    }

    /// What the on-screen keyboard is to be told.
    pub fn keyboard_props(&self) -> (props: Props)
        requires
            self.wf(),
        ensures
            props.purple == self@.purple(),
            props.grid@ == self@.alphabet(),
            props.extra_used == (self@.foreign().len() > 0),
    {
        let foreign = letters_outside(&self.current_word, &self.puzzle);
        proof {
            lemma_outside_counts(self.current_word@, self.puzzle@);
            lemma_single(foreign@);
        }
        let purple = if foreign.len() == 1 {
            Some(foreign[0])
        } else {
            None
        };
        Props { purple, grid: self.puzzle.clone(), extra_used: foreign.len() > 0 }
    }

    /// How each letter of the guess is shown, letter by letter.
    pub fn guess_marks(&self) -> (marks: Vec<Mark>)
        ensures
            marks@.len() == self@.guess.len(),
            forall|i: int|
                0 <= i < marks@.len() ==> marks@[i] == mark_of(
                    self@.center,
                    self@.letter_order,
                    self@.guess[i],
                ),
    {
        let mut marks: Vec<Mark> = Vec::new();
        let mut i: usize = 0;
        while i < self.current_word.len()
            invariant
                i <= self.current_word.len(),
                marks@.len() == i,
                forall|j: int|
                    0 <= j < i ==> marks@[j] == mark_of(
                        self.definition.center,
                        self.letters@,
                        self.current_word@[j],
                    ),
            decreases self.current_word.len() - i,
        {
            let c = self.current_word[i];
            let mark = if c == self.definition.center {
                Mark::Center
            } else if !contains(&self.letters, c) {
                Mark::Extra
            } else {
                Mark::Plain
            };
            marks.push(mark);
            i += 1;
        }
        marks
    }

    /// The dots of the progress bar, one for each word of the puzzle: dot
    /// `i`, counted from nought, is filled while no more than `i` words wait
    /// to be found before it, that is while `i` is at most the number of
    /// found words.
    pub fn progress_dots(&self) -> (dots: Vec<bool>)
        ensures
            dots@.len() == self@.words.len(),
            forall|i: int| 0 <= i < dots@.len() ==> dots@[i] == (i <= self@.found.len()),
    {
        let mut dots: Vec<bool> = Vec::new();
        let mut i: usize = 0;
        while i < self.definition.words.len()
            invariant
                i <= self.definition.words.len(),
                dots@.len() == i,
                forall|j: int| 0 <= j < i ==> dots@[j] == (j <= self.found_words@.len()),
            decreases self.definition.words.len() - i,
        {
            dots.push(i <= self.found_words.len());
            i += 1;
        }
        dots
    }

    /// The key under which the found words are stored.
    pub fn storage_key(&self) -> (key: String)
        ensures
            key@ == self@.storage_key(),
    {
        key(self.definition.center, &chars_of(self.definition.outer.as_str()))
    }

    /// What is stored under the key: the found words, a line feed between
    /// each two.
    pub fn stored_value(&self) -> (value: String)
        ensures
            value@ == self@.stored_value(),
    {
        join_lines(&self.found_words)
    }
}

/// A text without repeats and of length one holds one letter, and its set is
/// that letter alone.
proof fn lemma_single(s: Seq<char>)
    requires
        s.no_duplicates(),
    ensures
        s.len() == 1 ==> s.to_set().len() == 1 && s.to_set().choose() == s[0]
            && s.to_set().contains(s[0]),
        s.len() == s.to_set().len(),
{
    s.unique_seq_to_set();
    if s.len() == 1 {
        assert(s.to_set().contains(s[0]));
        assert(s.to_set() =~= set![s[0]]);
        let c = s.to_set().choose();
        assert(s.to_set().contains(c));
    }
}

/// Whether a text without repeats holds a letter other than the given one.
proof fn lemma_other(s: Seq<char>, letter: char)
    requires
        s.no_duplicates(),
    ensures
        (exists|other: char| s.to_set().contains(other) && other != letter) <==> (s.len() > 0
            && !(s.len() == 1 && s[0] == letter)),
        s.len() == 1 ==> (s.to_set().contains(letter) <==> s[0] == letter),
{
    if s.len() > 0 && !(s.len() == 1 && s[0] == letter) {
        if s[0] != letter {
            assert(s.to_set().contains(s[0]));
        } else {
            assert(s[1] != s[0]);
            assert(s.to_set().contains(s[1]));
        }
    }
    if exists|other: char| s.to_set().contains(other) && other != letter {
        let other = choose|other: char| s.to_set().contains(other) && other != letter;
        assert(s.contains(other));
    }
    if s.len() == 1 {
        assert(s.to_set().contains(s[0]));
    }
}

/// What a session keeps of stored lines: words of the puzzle, none of them
/// twice.
pub proof fn lemma_kept(words: Seq<Seq<char>>, lines: Seq<Seq<char>>)
    ensures
        kept(words, lines).no_duplicates(),
        forall|i: int|
            0 <= i < kept(words, lines).len() ==> words.contains(#[trigger] kept(words, lines)[i]),
    decreases lines.len(),
{
    if lines.len() > 0 {
        lemma_kept(words, lines.drop_last());
    }
}

/// Lines that are words of the puzzle, none of them twice, are all kept, in
/// their order.
pub proof fn lemma_kept_all(words: Seq<Seq<char>>, lines: Seq<Seq<char>>)
    requires
        lines.no_duplicates(),
        forall|i: int| 0 <= i < lines.len() ==> words.contains(#[trigger] lines[i]),
    ensures
        kept(words, lines) == lines,
    decreases lines.len(),
{
    if lines.len() > 0 {
        let front = lines.drop_last();
        lemma_kept_all(words, front);
        assert(words.contains(lines[lines.len() - 1]));
        if front.contains(lines.last()) {
            let i = choose|i: int| 0 <= i < front.len() && front[i] == lines.last();
            assert(lines[i] == lines[lines.len() - 1]);
        }
        assert(front.push(lines.last()) =~= lines);
    }
}

/// Every action leaves a session well formed, whatever order a shuffle
/// leaves the outer letters in.
pub proof fn law_actions_keep_sessions_well_formed(game: Game, action: Action, order: Seq<char>)
    requires
        game.wf(),
        order.to_multiset() == game.letter_order.to_multiset(),
    ensures
        game.step(action, order).wf(),
{
    if action is Submit && game.verdict() is None {
        let found = game.found.push(game.guess);
        assert forall|i: int| 0 <= i < found.len() implies game.words.contains(
            #[trigger] found[i],
        ) by {
            if i < game.found.len() {
                assert(found[i] == game.found[i]);
            }
        }
    }
}

/// Handing in a word that was found before, whose letters pass, tells so
/// and changes nothing but the guess and the message. Typing the same word
/// and handing it in again does the same: the word is never found twice.
pub proof fn law_found_word_is_turned_down_again(game: Game)
    requires
        game.wf(),
        game.found.contains(game.guess),
        game.foreign().len() <= 1,
        game.missing().len() <= 1,
    ensures
        game.submit().message == Some(Notice::AlreadyFound),
        game.submit().found == game.found,
        game.submit().typed(game.guess).submit().message == Some(Notice::AlreadyFound),
        game.submit().typed(game.guess).submit().found == game.found,
        game.found.no_duplicates(),
{
    let i = choose|i: int| 0 <= i < game.found.len() && game.found[i] == game.guess;
    assert(game.words.contains(game.found[i]));
    let again = game.submit().typed(game.guess);
    assert(again.foreign() == game.foreign());
    assert(again.missing() == game.missing());
}

/// A guess that is handed in never makes the found words hold a word twice,
/// and never takes a found word away.
pub proof fn law_submit_keeps_found_words(game: Game)
    requires
        game.wf(),
    ensures
        game.submit().found.no_duplicates(),
        game.found.is_prefix_of(game.submit().found),
        game.submit().guess.len() == 0,
{
}

/// After any row of letters and backspaces the guess is as long as the key
/// strokes say: one more for each letter, one less for each backspace that
/// found a letter to take.
pub proof fn law_guess_length_follows_key_strokes(game: Game, actions: Seq<Action>)
    requires
        forall|i: int|
            0 <= i < actions.len() ==> (#[trigger] actions[i]) is PushLetter || actions[i] is Backspace,
    ensures
        game.after(actions).guess.len() == typed_length(game.guess.len() as int, actions),
        typed_length(game.guess.len() as int, actions) >= 0,
    decreases actions.len(),
{
    if actions.len() > 0 {
        let front = actions.drop_last();
        assert forall|i: int| 0 <= i < front.len() implies (#[trigger] front[i]) is PushLetter
            || front[i] is Backspace by {
            assert(front[i] == actions[i]);
        }
        law_guess_length_follows_key_strokes(game, front);
        assert(actions.last() == actions[actions.len() - 1]);
    }
}

/// What was stored after a guess that passed brings the found words back: a
/// session started from the same puzzle and from the stored value has the
/// same found words in the same order, under the same key. The found words
/// must survive joining: a word with a line feed in it would come back as
/// two.
pub proof fn law_reload_restores_found_words(game: Game)
    requires
        game.wf(),
        game.verdict() is None,
        survives_joining(game.submit().found),
    ensures
        Game::start(game.center, game.outer, game.words, game.submit().stored_value()).found
            == game.submit().found,
        Game::start(
            game.center,
            game.outer,
            game.words,
            game.submit().stored_value(),
        ).storage_key() == game.submit().storage_key(),
{
    let next = game.submit();
    law_actions_keep_sessions_well_formed(game, Action::Submit, game.letter_order);
    assert(next == game.step(Action::Submit, game.letter_order));
    law_lines_of_joined(next.found);
    lemma_kept_all(game.words, next.found);
}

/// The same holds of any session: what it stores brings its found words
/// back.
pub proof fn law_stored_value_restores_found_words(game: Game)
    requires
        game.wf(),
        survives_joining(game.found),
    ensures
        Game::start(game.center, game.outer, game.words, game.stored_value()).found == game.found,
{
    law_lines_of_joined(game.found);
    lemma_kept_all(game.words, game.found);
}

/// The marks of the on-screen keyboard are those of the session: told what
/// the session says, the keyboard marks every letter but the shuffle key as
/// the session does.
pub proof fn law_keyboard_marks_as_the_session_does(game: Game, letter: char)
    requires
        letter != SHUFFLE,
    ensures
        key_status(game.purple(), game.alphabet().to_set(), game.foreign().len() > 0, letter)
            == game.letter_status(letter),
{
    let foreign = game.foreign();
    assert(foreign.finite()) by {
        vstd::seq_lib::seq_to_set_is_finite(game.guess);
        vstd::set_lib::lemma_len_difference(game.guess.to_set(), game.alphabet().to_set());
    }
    if !game.alphabet().to_set().contains(letter) {
        if foreign.len() == 1 {
            let only = foreign.choose();
            assert(foreign.contains(only));
            if foreign.contains(letter) {
                assert(foreign.remove(only).len() == 0);
                assert(letter == only);
            } else {
                assert(foreign.contains(only) && only != letter);
            }
            if exists|other: char| foreign.contains(other) && other != letter {
                let other = choose|other: char| foreign.contains(other) && other != letter;
                if foreign.contains(letter) {
                    assert(foreign.remove(letter).contains(other));
                    assert(foreign.remove(letter).len() == 0);
                }
            }
        } else if foreign.len() == 0 {
            assert(forall|other: char| !foreign.contains(other));
        } else {
            let a = foreign.choose();
            assert(foreign.contains(a));
            let rest = foreign.remove(a);
            assert(rest.len() >= 1);
            let b = rest.choose();
            assert(rest.contains(b));
            assert(foreign.contains(b) && a != b);
            if a != letter {
                assert(foreign.contains(a) && a != letter);
            } else {
                assert(foreign.contains(b) && b != letter);
            }
        }
    }
}

} // verus!
