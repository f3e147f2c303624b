//! The word list of a puzzle: the dictionary words whose letters are one
//! substitution away from the seven letters of the puzzle.

use crate::letters::{contains, is_near_anagram, lower, lowercase, near_anagram};
use crate::text::{chars_of, string_of, texts};
use vstd::prelude::*;
use vstd::seq_lib::{lemma_seq_concat_contains_all_elements, lemma_seq_contains_after_push};

verus! {

/// Whether a character is a letter, as `char::is_alphabetic` of the standard
/// library judges it.
pub uninterp spec fn is_letter(c: char) -> bool;

/// `char::is_alphabetic` of the standard library. The answer depends on the
/// character alone; `is_letter` is the name for it.
pub assume_specification[ char::is_alphabetic ](c: char) -> (r: bool)
    ensures
        r == is_letter(c),
;

/// How many letters stand round the center letter.
pub const OUTER_LETTERS: usize = 6;

/// The lowest obscurity level of a dictionary.
pub const TIER_FLOOR: usize = 10;

/// The distance from one obscurity level to the next.
pub const TIER_STEP: usize = 5;

/// Why a center letter and outer letters make no puzzle.
#[derive(Clone, Copy, Debug, PartialEq, Eq)]
pub enum ConfigurationError {
    /// There are not exactly six outer letters.
    LetterCount,
    /// An outer letter occurs twice.
    RepeatedLetter,
    /// The center letter is among the outer letters.
    CenterAmongOuter,
}

/// A puzzle: its seven letters and the words that count.
#[derive(Clone, Debug, PartialEq, Eq)]
pub struct PuzzleDefinition {
    pub center: char,
    pub outer: String,
    pub words: Vec<String>,
}

/// The words of one obscurity level of the dictionary, in their order.
#[derive(Clone, Debug, PartialEq, Eq)]
pub struct DictionaryTier {
    pub level: usize,
    pub words: Vec<String>,
}

/// What is wrong with a center letter and outer letters, if anything: the
/// first fault in the order of the variants.
pub open spec fn seed_fault(center: char, outer: Seq<char>) -> Option<ConfigurationError> {
    if outer.len() != OUTER_LETTERS {
        Some(ConfigurationError::LetterCount)
    } else if !outer.no_duplicates() {
        Some(ConfigurationError::RepeatedLetter)
    } else if outer.contains(center) {
        Some(ConfigurationError::CenterAmongOuter)
    } else {
        None
    }
}

/// Six outer letters, all different, none of them the center letter.
pub open spec fn valid_seed(center: char, outer: Seq<char>) -> bool {
    seed_fault(center, outer) is None
}

/// The seven letters of a puzzle: the center letter, then the outer letters.
pub open spec fn alphabet(center: char, outer: Seq<char>) -> Seq<char> {
    seq![center] + outer
}

/// The letters of a dictionary word: its alphabetic characters, lower-cased.
pub open spec fn letters_of(word: Seq<char>) -> Seq<char>
    decreases word.len(),
{
    if word.len() == 0 {
        Seq::empty()
    } else if is_letter(word.last()) {
        letters_of(word.drop_last()).push(lower(word.last()))
    } else {
        letters_of(word.drop_last())
    }
}

/// Whether a dictionary word belongs to the puzzle with the given letters:
/// whether its letters are a near-anagram of them.
pub open spec fn is_emily_word(puzzle: Seq<char>, word: Seq<char>) -> bool {
    near_anagram(puzzle.to_set(), letters_of(word).to_set())
}

/// The words of a list that belong to the puzzle, in the order of the list.
pub open spec fn emily_words(puzzle: Seq<char>, words: Seq<Seq<char>>) -> Seq<Seq<char>>
    decreases words.len(),
{
    if words.len() == 0 {
        Seq::empty()
    } else if is_emily_word(puzzle, words.last()) {
        emily_words(puzzle, words.drop_last()).push(words.last())
    } else {
        emily_words(puzzle, words.drop_last())
    }
}

/// The words of one obscurity level that belong to the puzzle: those of each
/// tier with that level, tier after tier.
pub open spec fn level_words(puzzle: Seq<char>, tiers: Seq<DictionaryTier>, level: int) -> Seq<
    Seq<char>,
>
    decreases tiers.len(),
{
    if tiers.len() == 0 {
        Seq::empty()
    } else if tiers.last().level == level {
        level_words(puzzle, tiers.drop_last(), level) + emily_words(
            puzzle,
            texts(tiers.last().words@),
        )
    } else {
        level_words(puzzle, tiers.drop_last(), level)
    }
}

/// The obscurity level at step `k` of the ladder.
pub open spec fn level_at(k: int) -> int {
    TIER_FLOOR + TIER_STEP * k
}

/// How many levels of the ladder lie at or below the ceiling.
pub open spec fn level_count(max_obscurity: int) -> int {
    if max_obscurity < TIER_FLOOR {
        0
    } else {
        (max_obscurity - TIER_FLOOR) / (TIER_STEP as int) + 1
    }
}

/// Whether a level stands on the ladder at or below the ceiling.
pub open spec fn on_ladder(level: int, max_obscurity: int) -> bool {
    TIER_FLOOR <= level <= max_obscurity && (level - TIER_FLOOR) % (TIER_STEP as int) == 0
}

/// The words that belong to the puzzle in the first `levels` levels of the
/// ladder, from the lowest level up.
pub open spec fn corpus(puzzle: Seq<char>, tiers: Seq<DictionaryTier>, levels: int) -> Seq<
    Seq<char>,
>
    decreases levels,
{
    if levels <= 0 {
        Seq::empty()
    } else {
        corpus(puzzle, tiers, levels - 1) + level_words(puzzle, tiers, level_at(levels - 1))
    }
}

/// What `generate` returns: the error of a faulty seed, or the puzzle with
/// the given letters and every word of the dictionary that belongs to it, up
/// to the ceiling, in the order of the scan.
pub open spec fn generated(
    center: char,
    outer: Seq<char>,
    tiers: Seq<DictionaryTier>,
    max_obscurity: int,
    result: Result<PuzzleDefinition, ConfigurationError>,
) -> bool {
    match result {
        Ok(definition) => {
            &&& valid_seed(center, outer)
            &&& definition.center == center
            &&& definition.outer@ == outer
            &&& texts(definition.words@) == corpus(
                alphabet(center, outer),
                tiers,
                level_count(max_obscurity),
            )
        },
        Err(fault) => seed_fault(center, outer) == Some(fault),
    }
}

/// Whether the letters of `possible`, taken as they are, are a near-anagram
/// of the letters of `sb_word`.
pub fn is_emily_word_for(sb_word: &Vec<char>, possible: &str) -> (r: bool)
    ensures
        r == near_anagram(sb_word@.to_set(), possible@.to_set()),
{
    let letters = chars_of(possible);
    is_near_anagram(sb_word, &letters)
}

/// The letters of a dictionary word: its alphabetic characters, lower-cased.
pub fn word_letters(word: &str) -> (r: Vec<char>)
    ensures
        r@ == letters_of(word@),
{
    let chars = chars_of(word);
    let mut r: Vec<char> = Vec::new();
    let mut i: usize = 0;
    while i < chars.len()
        invariant
            chars@ == word@,
            i <= chars.len(),
            r@ == letters_of(word@.take(i as int)),
        decreases chars.len() - i,
    {
        let c = chars[i];
        proof {
            assert(word@.take(i + 1).drop_last() =~= word@.take(i as int));
            assert(word@.take(i + 1).last() == c);
        }
        if c.is_alphabetic() {
            r.push(lowercase(c));
        }
        i += 1;
    }
    proof {
        assert(word@.take(i as int) =~= word@);
    }
    r
}

/// Whether a text shows a character twice.
pub fn has_repeat(v: &Vec<char>) -> (r: bool)
    ensures
        r == !v@.no_duplicates(),
{
    let mut i: usize = 0;
    while i < v.len()
        invariant
            i <= v.len(),
            forall|a: int, b: int| 0 <= a < b < i ==> v@[a] != v@[b],
        decreases v.len() - i,
    {
        let mut j: usize = 0;
        while j < i
            invariant
                j <= i < v.len(),
                forall|a: int| 0 <= a < j ==> v@[a] != v@[i as int],
            decreases i - j,
        {
            if v[j] == v[i] {
                return true;
            }
            j += 1;
        }
        i += 1;
    }
    false
}

/// Checks a center letter and outer letters: six outer letters, all
/// different, none of them the center letter.
pub fn check_seed(center: char, outer: &Vec<char>) -> (r: Result<(), ConfigurationError>)
    ensures
        r is Ok <==> valid_seed(center, outer@),
        r matches Err(fault) ==> seed_fault(center, outer@) == Some(fault),
{
    if outer.len() != OUTER_LETTERS {
        Err(ConfigurationError::LetterCount)
    } else if has_repeat(outer) {
        Err(ConfigurationError::RepeatedLetter)
    } else if contains(outer, center) {
        Err(ConfigurationError::CenterAmongOuter)
    } else {
        Ok(())
    }
}

/// The seven letters of a puzzle: the center letter, then the outer letters.
pub fn alphabet_of(center: char, outer: &Vec<char>) -> (r: Vec<char>)
    ensures
        r@ == alphabet(center, outer@),
{
    let mut r: Vec<char> = Vec::new();
    r.push(center);
    let mut i: usize = 0;
    while i < outer.len()
        invariant
            i <= outer.len(),
            r@ == seq![center] + outer@.take(i as int),
        decreases outer.len() - i,
    {
        r.push(outer[i]);
        proof {
            assert(outer@.take(i + 1) =~= outer@.take(i as int).push(outer@[i as int]));
        }
        i += 1;
    }
    proof {
        assert(outer@.take(i as int) =~= outer@);
    }
    r
}

impl PuzzleDefinition {
    /// The seven letters of the puzzle: the center letter, then the outer
    /// letters.
    pub fn to_set(&self) -> (r: Vec<char>)
        ensures
            r@ == alphabet(self.center, self.outer@),
    {
        let outer = chars_of(self.outer.as_str());
        alphabet_of(self.center, &outer)
    }
}

/// A fault in words.
pub open spec fn fault_text(fault: ConfigurationError) -> Seq<char> {
    match fault {
        ConfigurationError::LetterCount => "a puzzle needs exactly six outer letters"@,
        ConfigurationError::RepeatedLetter => "an outer letter occurs twice"@,
        ConfigurationError::CenterAmongOuter => "the center letter is among the outer letters"@,
    }
}

impl ConfigurationError {
    /// The fault in words.
    pub fn text(&self) -> (s: &'static str)
        ensures
            s@ == fault_text(*self),
    {
        match self {
            ConfigurationError::LetterCount => "a puzzle needs exactly six outer letters",
            ConfigurationError::RepeatedLetter => "an outer letter occurs twice",
            ConfigurationError::CenterAmongOuter => "the center letter is among the outer letters",
        }
    }
}

/// A text without its spaces, in lower case.
pub open spec fn squeezed(text: Seq<char>) -> Seq<char>
    decreases text.len(),
{
    if text.len() == 0 {
        Seq::empty()
    } else if text.last() == ' ' {
        squeezed(text.drop_last())
    } else {
        squeezed(text.drop_last()).push(lower(text.last()))
    }
}

/// The letters of a puzzle as a letter source writes them, made ready: the
/// center letter is the first character of `center_text` in lower case, the
/// outer letters are `outer_text` without its spaces, in lower case. Where
/// `center_text` is empty there is no center letter and nothing comes back.
pub fn seed_from_source(center_text: &str, outer_text: &str) -> (r: Option<(char, String)>)
    ensures
        match r {
            Some((center, outer)) => {
                &&& center_text@.len() > 0
                &&& center == lower(center_text@[0])
                &&& outer@ == squeezed(outer_text@)
            },
            None => center_text@.len() == 0,
        },
{
    let first = chars_of(center_text);
    if first.len() == 0 {
        return None;
    }
    let chars = chars_of(outer_text);
    let mut letters: Vec<char> = Vec::new();
    let mut i: usize = 0;
    while i < chars.len()
        invariant
            chars@ == outer_text@,
            i <= chars.len(),
            letters@ == squeezed(outer_text@.take(i as int)),
        decreases chars.len() - i,
    {
        let c = chars[i];
        proof {
            assert(outer_text@.take(i + 1).drop_last() =~= outer_text@.take(i as int));
            assert(outer_text@.take(i + 1).last() == c);
        }
        if c != ' ' {
            letters.push(lowercase(c));
        }
        i += 1;
    }
    proof {
        assert(outer_text@.take(i as int) =~= outer_text@);
    }
    Some((lowercase(first[0]), string_of(&letters)))
}

/// Appends to `found` the words of `words` that belong to the puzzle.
fn scan_words(puzzle: &Vec<char>, words: &Vec<String>, found: &mut Vec<String>)
    ensures
        texts(final(found)@) == texts(old(found)@) + emily_words(puzzle@, texts(words@)),
{
    let mut i: usize = 0;
    proof {
        assert(texts(words@).take(0) =~= Seq::<Seq<char>>::empty());
        assert(texts(found@) + Seq::<Seq<char>>::empty() =~= texts(found@));
    }
    while i < words.len()
        invariant
            i <= words.len(),
            texts(found@) == texts(old(found)@) + emily_words(
                puzzle@,
                texts(words@).take(i as int),
            ),
        decreases words.len() - i,
    {
        let ghost seen = texts(words@).take(i as int);
        let ghost next = texts(words@).take(i + 1);
        proof {
            assert(next.drop_last() =~= seen);
            assert(next.last() == words@[i as int]@);
        }
        let letters = word_letters(words[i].as_str());
        if is_near_anagram(puzzle, &letters) {
            let ghost before = texts(found@);
            found.push(words[i].clone());
            proof {
                assert(texts(found@) =~= before.push(words@[i as int]@));
                assert(texts(found@) =~= texts(old(found)@) + emily_words(puzzle@, next));
            }
        }
        i += 1;
    }
    proof {
        assert(texts(words@).take(i as int) =~= texts(words@));
    }
}

/// Appends to `found` the words of one obscurity level that belong to the
/// puzzle.
fn scan_level(puzzle: &Vec<char>, tiers: &Vec<DictionaryTier>, level: usize, found: &mut Vec<String>)
    ensures
        texts(final(found)@) == texts(old(found)@) + level_words(puzzle@, tiers@, level as int),
{
    let mut t: usize = 0;
    proof {
        assert(tiers@.take(0) =~= Seq::<DictionaryTier>::empty());
        assert(texts(found@) + Seq::<Seq<char>>::empty() =~= texts(found@));
    }
    while t < tiers.len()
        invariant
            t <= tiers.len(),
            texts(found@) == texts(old(found)@) + level_words(
                puzzle@,
                tiers@.take(t as int),
                level as int,
            ),
        decreases tiers.len() - t,
    {
        let ghost before = texts(found@);
        let ghost done = level_words(puzzle@, tiers@.take(t as int), level as int);
        proof {
            assert(tiers@.take(t + 1).drop_last() =~= tiers@.take(t as int));
            assert(tiers@.take(t + 1).last() == tiers@[t as int]);
        }
        if tiers[t].level == level {
            scan_words(puzzle, &tiers[t].words, found);
            proof {
                let more = emily_words(puzzle@, texts(tiers@[t as int].words@));
                assert(texts(found@) =~= texts(old(found)@) + (done + more));
            }
        }
        t += 1;
    }
    proof {
        assert(tiers@.take(t as int) =~= tiers@);
    }
}

/// The obscurity levels at or below the ceiling, from the floor up.
pub fn tier_levels(max_obscurity: usize) -> (r: Vec<usize>)
    ensures
        r@.len() == level_count(max_obscurity as int),
        forall|k: int| 0 <= k < r@.len() ==> r@[k] == level_at(k),
{
    let mut r: Vec<usize> = Vec::new();
    if max_obscurity < TIER_FLOOR {
        return r;
    }
    let count: usize = (max_obscurity - TIER_FLOOR) / TIER_STEP + 1;
    let mut k: usize = 0;
    while k < count
        invariant
            k <= count,
            TIER_FLOOR <= max_obscurity,
            count == level_count(max_obscurity as int),
            r@.len() == k,
            forall|j: int| 0 <= j < k ==> r@[j] == level_at(j),
        decreases count - k,
    {
        r.push(TIER_FLOOR + TIER_STEP * k);
        k += 1;
    }
    r
}

/// Builds the puzzle for a center letter and six outer letters: scans the
/// dictionary level by level, from the floor up to the ceiling, and keeps
/// each word that belongs to the puzzle, as the dictionary writes it.
pub fn generate(center: char, outer: &str, tiers: &Vec<DictionaryTier>, max_obscurity: usize) -> (r:
    Result<PuzzleDefinition, ConfigurationError>)
    ensures
        generated(center, outer@, tiers@, max_obscurity as int, r),
{
    let letters = chars_of(outer);
    match check_seed(center, &letters) {
        Err(fault) => {
            return Err(fault);
        },
        Ok(_) => {},
    }
    let puzzle = alphabet_of(center, &letters);
    let levels = tier_levels(max_obscurity);
    let mut words: Vec<String> = Vec::new();
    let mut k: usize = 0;
    while k < levels.len()
        invariant
            k <= levels.len(),
            levels@.len() == level_count(max_obscurity as int),
            forall|j: int| 0 <= j < levels@.len() ==> levels@[j] == level_at(j),
            texts(words@) == corpus(puzzle@, tiers@, k as int),
        decreases levels.len() - k,
    {
        scan_level(&puzzle, tiers, levels[k], &mut words);
        k += 1;
    }
    Ok(PuzzleDefinition { center, outer: string_of(&letters), words })
}

/// Whether tier `t` of the dictionary has the given level and holds the
/// word.
pub open spec fn tier_holds(tiers: Seq<DictionaryTier>, t: int, level: int, word: Seq<char>) -> bool {
    &&& 0 <= t < tiers.len()
    &&& tiers[t].level == level
    &&& texts(tiers[t].words@).contains(word)
}

/// Whether the dictionary holds the word in a tier whose level is among the
/// first `levels` of the ladder.
pub open spec fn dictionary_holds(tiers: Seq<DictionaryTier>, levels: int, word: Seq<char>) -> bool {
    exists|k: int, t: int| 0 <= k < levels && #[trigger] tier_holds(tiers, t, level_at(k), word)
}

/// The words kept from a list are those of the list that belong to the
/// puzzle.
pub proof fn lemma_emily_words_contains(puzzle: Seq<char>, words: Seq<Seq<char>>, word: Seq<char>)
    ensures
        emily_words(puzzle, words).contains(word) <==> (words.contains(word) && is_emily_word(
            puzzle,
            word,
        )),
    decreases words.len(),
{
    if words.len() > 0 {
        let front = words.drop_last();
        lemma_emily_words_contains(puzzle, front, word);
        assert(words =~= front.push(words.last()));
        lemma_seq_contains_after_push(front, words.last(), word);
        lemma_seq_contains_after_push(emily_words(puzzle, front), words.last(), word);
    }
}

/// The words kept for a level are those that belong to the puzzle and stand
/// in a tier of that level.
pub proof fn lemma_level_words_contains(
    puzzle: Seq<char>,
    tiers: Seq<DictionaryTier>,
    level: int,
    word: Seq<char>,
)
    ensures
        level_words(puzzle, tiers, level).contains(word) <==> (is_emily_word(puzzle, word)
            && exists|t: int| tier_holds(tiers, t, level, word)),
    decreases tiers.len(),
{
    if tiers.len() > 0 {
        let front = tiers.drop_last();
        let last = tiers.len() - 1;
        lemma_level_words_contains(puzzle, front, level, word);
        lemma_emily_words_contains(puzzle, texts(tiers.last().words@), word);
        lemma_seq_concat_contains_all_elements(
            level_words(puzzle, front, level),
            emily_words(puzzle, texts(tiers.last().words@)),
            word,
        );
        if exists|t: int| tier_holds(front, t, level, word) {
            let t = choose|t: int| tier_holds(front, t, level, word);
            assert(tier_holds(tiers, t, level, word));
        }
        if exists|t: int| tier_holds(tiers, t, level, word) {
            let t = choose|t: int| tier_holds(tiers, t, level, word);
            if t < last {
                assert(tier_holds(front, t, level, word));
            }
        }
        if tiers.last().level == level && texts(tiers.last().words@).contains(word) {
            assert(tier_holds(tiers, last, level, word));
        }
    }
}

/// The generated words are the words of the dictionary, in the levels
/// scanned, that belong to the puzzle.
pub proof fn lemma_corpus_contains(
    puzzle: Seq<char>,
    tiers: Seq<DictionaryTier>,
    levels: int,
    word: Seq<char>,
)
    ensures
        corpus(puzzle, tiers, levels).contains(word) <==> (is_emily_word(puzzle, word)
            && dictionary_holds(tiers, levels, word)),
    decreases levels,
{
    if levels > 0 {
        let top = level_at(levels - 1);
        lemma_corpus_contains(puzzle, tiers, levels - 1, word);
        lemma_level_words_contains(puzzle, tiers, top, word);
        lemma_seq_concat_contains_all_elements(
            corpus(puzzle, tiers, levels - 1),
            level_words(puzzle, tiers, top),
            word,
        );
        if dictionary_holds(tiers, levels - 1, word) {
            let (k, t) = choose|k: int, t: int|
                0 <= k < levels - 1 && #[trigger] tier_holds(tiers, t, level_at(k), word);
            assert(tier_holds(tiers, t, level_at(k), word));
        }
        if exists|t: int| tier_holds(tiers, t, top, word) {
            let t = choose|t: int| tier_holds(tiers, t, top, word);
            assert(tier_holds(tiers, t, level_at(levels - 1), word));
        }
        if dictionary_holds(tiers, levels, word) {
            let (k, t) = choose|k: int, t: int|
                0 <= k < levels && #[trigger] tier_holds(tiers, t, level_at(k), word);
            if k < levels - 1 {
                assert(tier_holds(tiers, t, level_at(k), word));
            } else {
                assert(tier_holds(tiers, t, top, word));
            }
        }
    }
}

/// A word of the dictionary, in a tier whose level stands on the ladder at or
/// below the ceiling, is in the generated list exactly when its letters are a
/// near-anagram of the puzzle's letters.
pub proof fn law_generate_keeps_the_emily_words(
    center: char,
    outer: Seq<char>,
    tiers: Seq<DictionaryTier>,
    max_obscurity: int,
    definition: PuzzleDefinition,
    t: int,
    j: int,
)
    requires
        generated(center, outer, tiers, max_obscurity, Ok(definition)),
        0 <= t < tiers.len(),
        0 <= j < tiers[t].words@.len(),
        on_ladder(tiers[t].level as int, max_obscurity),
    ensures
        texts(definition.words@).contains(tiers[t].words@[j]@) <==> near_anagram(
            alphabet(center, outer).to_set(),
            letters_of(tiers[t].words@[j]@).to_set(),
        ),
{
    let puzzle = alphabet(center, outer);
    let word = tiers[t].words@[j]@;
    let level = tiers[t].level as int;
    let k = (level - TIER_FLOOR) / (TIER_STEP as int);
    lemma_corpus_contains(puzzle, tiers, level_count(max_obscurity), word);
    assert(texts(tiers[t].words@)[j] == word);
    assert(level_at(k) == level);
    assert(tier_holds(tiers, t, level_at(k), word));
}

/// Nothing else is generated: each word of the list belongs to the puzzle
/// and stands in the dictionary, in a tier whose level was scanned.
pub proof fn law_generated_words_come_from_the_dictionary(
    center: char,
    outer: Seq<char>,
    tiers: Seq<DictionaryTier>,
    max_obscurity: int,
    definition: PuzzleDefinition,
    word: Seq<char>,
)
    requires
        generated(center, outer, tiers, max_obscurity, Ok(definition)),
        texts(definition.words@).contains(word),
    ensures
        is_emily_word(alphabet(center, outer), word),
        dictionary_holds(tiers, level_count(max_obscurity), word),
{
    lemma_corpus_contains(alphabet(center, outer), tiers, level_count(max_obscurity), word);
}

/// Generating twice from the same letters, dictionary and ceiling gives the
/// same outcome: the same fault, or the same letters and the same words in
/// the same order, hence the same set of words.
pub proof fn law_generate_is_repeatable(
    center: char,
    outer: Seq<char>,
    tiers: Seq<DictionaryTier>,
    max_obscurity: int,
    first: Result<PuzzleDefinition, ConfigurationError>,
    second: Result<PuzzleDefinition, ConfigurationError>,
)
    requires
        generated(center, outer, tiers, max_obscurity, first),
        generated(center, outer, tiers, max_obscurity, second),
    ensures
        first is Ok <==> second is Ok,
        first is Err ==> first == second,
        first matches Ok(a) ==> second matches Ok(b) && a.center == b.center && a.outer@
            == b.outer@ && texts(a.words@) == texts(b.words@) && texts(a.words@).to_set()
            == texts(b.words@).to_set(),
{
}

} // verus!
