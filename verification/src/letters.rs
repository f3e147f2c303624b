//! Letters and sets of letters: the near-anagram test that both the word list
//! and the checking of a guess rest on.

use vstd::prelude::*;

verus! {

/// A character with the ASCII capitals `A` to `Z` mapped to `a` to `z`, and
/// every other character left as it is.
pub open spec fn lower(c: char) -> char {
    if 'A' <= c && c <= 'Z' {
        ((c as u8) + 32) as char
    } else {
        c
    }
}

/// Lower-cases one character (ASCII only).
pub fn lowercase(c: char) -> (r: char)
    ensures
        r == lower(c),
{
    if 'A' <= c && c <= 'Z' {
        let code: u8 = c as u8;
        (code + 32) as char
    } else {
        c
    }
}

/// The near-anagram test: the two sets differ by exactly one substitution.
/// Exactly one letter of `puzzle` is missing from `word`, and exactly one
/// letter of `word` is foreign to `puzzle`.
pub open spec fn near_anagram(puzzle: Set<char>, word: Set<char>) -> bool {
    puzzle.difference(word).len() == 1 && word.difference(puzzle).len() == 1
}

/// The characters of `a` that `b` lacks, each once, in the order in which `a`
/// first shows them.
pub open spec fn outside(a: Seq<char>, b: Seq<char>) -> Seq<char>
    decreases a.len(),
{
    if a.len() == 0 {
        Seq::empty()
    } else {
        let before = outside(a.drop_last(), b);
        if b.contains(a.last()) || before.contains(a.last()) {
            before
        } else {
            before.push(a.last())
        }
    }
}

/// `outside(a, b)` holds a character exactly when `a` has it and `b` has not.
pub proof fn lemma_outside_contains(a: Seq<char>, b: Seq<char>, c: char)
    ensures
        outside(a, b).contains(c) <==> (a.contains(c) && !b.contains(c)),
    decreases a.len(),
{
    if a.len() > 0 {
        let front = a.drop_last();
        let before = outside(front, b);
        lemma_outside_contains(front, b, c);
        assert(a =~= front.push(a.last()));
        assert(a.contains(c) <==> (front.contains(c) || a.last() == c)) by {
            if front.contains(c) {
                let i = choose|i: int| 0 <= i < front.len() && front[i] == c;
                assert(a[i] == c);
            }
            if a.last() == c {
                assert(a[a.len() - 1] == c);
            }
            if a.contains(c) {
                let i = choose|i: int| 0 <= i < a.len() && a[i] == c;
                if i < a.len() - 1 {
                    assert(front[i] == c);
                }
            }
        }
        if !(b.contains(a.last()) || before.contains(a.last())) {
            let after = before.push(a.last());
            assert(after.contains(c) <==> (before.contains(c) || a.last() == c)) by {
                if before.contains(c) {
                    let i = choose|i: int| 0 <= i < before.len() && before[i] == c;
                    assert(after[i] == c);
                }
                if a.last() == c {
                    assert(after[after.len() - 1] == c);
                }
                if after.contains(c) {
                    let i = choose|i: int| 0 <= i < after.len() && after[i] == c;
                    if i < after.len() - 1 {
                        assert(before[i] == c);
                    }
                }
            }
        }
    }
}

/// `outside(a, b)` lists the set difference of the two texts' letters, each
/// letter once: its length is the size of that difference.
pub proof fn lemma_outside_counts(a: Seq<char>, b: Seq<char>)
    ensures
        outside(a, b).no_duplicates(),
        outside(a, b).to_set() == a.to_set().difference(b.to_set()),
        outside(a, b).len() == a.to_set().difference(b.to_set()).len(),
    decreases a.len(),
{
    if a.len() > 0 {
        lemma_outside_counts(a.drop_last(), b);
    }
    assert forall|c: char|
        outside(a, b).to_set().contains(c) <==> a.to_set().difference(b.to_set()).contains(
            c,
        ) by {
        lemma_outside_contains(a, b, c);
    }
    assert(outside(a, b).to_set() =~= a.to_set().difference(b.to_set()));
    outside(a, b).unique_seq_to_set();
}

/// Whether `v` holds `c`.
pub fn contains(v: &Vec<char>, c: char) -> (found: bool)
    ensures
        found == v@.contains(c),
{
    let mut i: usize = 0;
    while i < v.len()
        invariant
            i <= v.len(),
            forall|j: int| 0 <= j < i ==> v@[j] != c,
        decreases v.len() - i,
    {
        if v[i] == c {
            return true;
        }
        i += 1;
    }
    false
}

/// The characters of `a` that `b` lacks, each once, in the order in which `a`
/// first shows them.
pub fn letters_outside(a: &Vec<char>, b: &Vec<char>) -> (r: Vec<char>)
    ensures
        r@ == outside(a@, b@),
        r@.no_duplicates(),
        r@.len() == a@.to_set().difference(b@.to_set()).len(),
{
    let mut r: Vec<char> = Vec::new();
    let mut i: usize = 0;
    while i < a.len()
        invariant
            i <= a.len(),
            r@ == outside(a@.take(i as int), b@),
        decreases a.len() - i,
    {
        let c = a[i];
        proof {
            assert(a@.take(i + 1).drop_last() =~= a@.take(i as int));
            assert(a@.take(i + 1).last() == c);
        }
        if !contains(b, c) && !contains(&r, c) {
            r.push(c);
        }
        i += 1;
    }
    proof {
        assert(a@.take(i as int) =~= a@);
        lemma_outside_counts(a@, b@);
    }
    r
}

/// Whether the letters of `word` are a near-anagram of the letters of
/// `puzzle`. Either text may repeat a letter: only the sets count.
pub fn is_near_anagram(puzzle: &Vec<char>, word: &Vec<char>) -> (r: bool)
    ensures
        r == near_anagram(puzzle@.to_set(), word@.to_set()),
{
    let missing = letters_outside(puzzle, word);
    let foreign = letters_outside(word, puzzle);
    missing.len() == 1 && foreign.len() == 1
}

/// The test does not care which of the two sets is the puzzle and which the
/// word: swapping them gives the same answer.
pub proof fn law_near_anagram_is_symmetric(a: Set<char>, b: Set<char>)
    ensures
        near_anagram(a, b) == near_anagram(b, a),
{
}

/// A set is never a near-anagram of itself: a substitution changes it.
pub proof fn law_near_anagram_is_irreflexive(a: Set<char>)
    ensures
        !near_anagram(a, a),
{
    assert(a.difference(a) =~= Set::<char>::empty());
}

} // verus!
