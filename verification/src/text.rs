//! Texts as sequences of characters: building strings, and the line format
//! in which found words are stored and dictionaries are read.

use vstd::prelude::*;

verus! {

/// `String::push` of the standard library: it appends the character to the
/// end of the string and changes nothing else.
pub assume_specification[ String::push ](s: &mut String, ch: char)
    ensures
        final(s)@ == old(s)@.push(ch),
;

/// The texts of a list of strings.
pub open spec fn texts(list: Seq<String>) -> Seq<Seq<char>> {
    list.map_values(|s: String| s@)
}

/// The characters of a string, in order.
pub fn chars_of(s: &str) -> (v: Vec<char>)
    ensures
        v@ == s@,
{
    let mut v: Vec<char> = Vec::new();
    for c in it: s.chars()
        invariant
            v@ == it.seq().take(it.index()),
    {
        v.push(c);
    }
    v
}

/// Appends the characters of `tail` to `s`.
pub fn push_chars(s: &mut String, tail: &Vec<char>)
    ensures
        final(s)@ == old(s)@ + tail@,
{
    let mut i: usize = 0;
    while i < tail.len()
        invariant
            i <= tail.len(),
            s@ == old(s)@ + tail@.take(i as int),
        decreases tail.len() - i,
    {
        s.push(tail[i]);
        proof {
            assert(tail@.take(i + 1) =~= tail@.take(i as int).push(tail@[i as int]));
        }
        i += 1;
    }
    proof {
        assert(tail@.take(i as int) =~= tail@);
    }
}

/// The string that holds the given characters.
pub fn string_of(chars: &Vec<char>) -> (s: String)
    ensures
        s@ == chars@,
{
    let mut s = String::new();
    push_chars(&mut s, chars);
    s
}

/// Whether `list` holds a string with the text of `s`.
pub fn holds_text(list: &Vec<String>, s: &String) -> (found: bool)
    ensures
        found == texts(list@).contains(s@),
{
    let mut i: usize = 0;
    while i < list.len()
        invariant
            i <= list.len(),
            forall|j: int| 0 <= j < i ==> texts(list@)[j] != s@,
        decreases list.len() - i,
    {
        if list[i] == *s {
            assert(texts(list@)[i as int] == s@);
            return true;
        }
        i += 1;
    }
    false
}

/// The line feed that ends a line.
pub const LINE_FEED: char = '\n';

/// The carriage return that may stand before a line feed.
pub const CARRIAGE_RETURN: char = '\r';

/// Where the first line of `s` ends: at its first line feed, or at the end
/// of `s` where it holds none.
pub open spec fn line_end(s: Seq<char>) -> int
    decreases s.len(),
{
    if s.len() == 0 || s[0] == LINE_FEED {
        0
    } else {
        1 + line_end(s.drop_first())
    }
}

/// A line without the carriage return that stood before its line feed.
pub open spec fn without_return(line: Seq<char>) -> Seq<char> {
    if line.len() > 0 && line.last() == CARRIAGE_RETURN {
        line.drop_last()
    } else {
        line
    }
}

/// The lines of a text. A line ends with a line feed, or with a carriage
/// return and a line feed; neither belongs to the line. The last line needs
/// no ending, and a text that ends with a line ending has no empty line after
/// it. A carriage return with no line feed behind it stays in its line.
pub open spec fn lines_of(s: Seq<char>) -> Seq<Seq<char>>
    decreases s.len(),
    via lines_of_shrinks
{
    if s.len() == 0 {
        Seq::empty()
    } else if line_end(s) >= s.len() {
        seq![s]
    } else {
        seq![without_return(s.take(line_end(s)))] + lines_of(s.skip(line_end(s) + 1))
    }
}

#[via_fn]
proof fn lines_of_shrinks(s: Seq<char>) {
    lemma_line_end(s);
}

/// The lines joined into one text, with a line feed between each two.
pub open spec fn joined(lines: Seq<Seq<char>>) -> Seq<char>
    decreases lines.len(),
{
    if lines.len() == 0 {
        Seq::empty()
    } else if lines.len() == 1 {
        lines[0]
    } else {
        joined(lines.drop_last()) + seq![LINE_FEED] + lines.last()
    }
}

/// The first line ends inside the text, and no line feed stands before its
/// end.
pub proof fn lemma_line_end(s: Seq<char>)
    ensures
        0 <= line_end(s) <= s.len(),
        forall|i: int| 0 <= i < line_end(s) ==> s[i] != LINE_FEED,
        line_end(s) < s.len() ==> s[line_end(s)] == LINE_FEED,
    decreases s.len(),
{
    if !(s.len() == 0 || s[0] == LINE_FEED) {
        let rest = s.drop_first();
        lemma_line_end(rest);
        assert forall|i: int| 0 <= i < line_end(s) implies s[i] != LINE_FEED by {
            if i > 0 {
                assert(rest[i - 1] == s[i]);
            }
        }
        if line_end(s) < s.len() {
            assert(rest[line_end(rest)] == s[line_end(s)]);
        }
    }
}

/// A text whose first `k` characters hold no line feed, and which ends there
/// or has a line feed there, has its first line end at `k`.
pub proof fn lemma_line_end_at(s: Seq<char>, k: int)
    requires
        0 <= k <= s.len(),
        forall|i: int| 0 <= i < k ==> s[i] != LINE_FEED,
        k < s.len() ==> s[k] == LINE_FEED,
    ensures
        line_end(s) == k,
{
    lemma_line_end(s);
    let e = line_end(s);
    if e < k {
        assert(s[e] == LINE_FEED);
    } else if k < e {
        assert(s[k] != LINE_FEED);
    }
}

/// Splits a text into its lines.
pub fn lines(text: &str) -> (r: Vec<String>)
    ensures
        texts(r@) == lines_of(text@),
{
    let chars = chars_of(text);
    let mut r: Vec<String> = Vec::new();
    let mut line: Vec<char> = Vec::new();
    let mut start: usize = 0;
    let mut i: usize = 0;
    proof {
        assert(text@.skip(0) =~= text@);
        assert(texts(r@) + lines_of(text@) =~= lines_of(text@));
    }
    while i < chars.len()
        invariant
            chars@ == text@,
            start <= i <= chars.len(),
            line@ == chars@.subrange(start as int, i as int),
            forall|j: int| start <= j < i ==> chars@[j] != LINE_FEED,
            lines_of(text@) == texts(r@) + lines_of(text@.skip(start as int)),
        decreases chars.len() - i,
    {
        let c = chars[i];
        if c == LINE_FEED {
            let ghost rest = text@.skip(start as int);
            proof {
                assert forall|j: int| 0 <= j < i - start implies rest[j] != LINE_FEED by {
                    assert(rest[j] == chars@[start + j]);
                }
                lemma_line_end_at(rest, i - start);
                assert(rest.take(i - start) =~= line@);
                assert(rest.skip(i - start + 1) =~= text@.skip(i + 1));
            }
            let n: usize = line.len();
            if n > 0 && line[n - 1] == CARRIAGE_RETURN {
                line.pop();
                assert(line@ =~= without_return(rest.take(i - start)));
            }
            let s = string_of(&line);
            let ghost before = texts(r@);
            r.push(s);
            proof {
                assert(texts(r@) =~= before.push(s@));
                assert(texts(r@) + lines_of(text@.skip(i + 1)) =~= before + (seq![s@] + lines_of(
                    text@.skip(i + 1),
                )));
            }
            line = Vec::new();
            start = i + 1;
            proof {
                assert(line@ =~= chars@.subrange(start as int, i + 1));
            }
        } else {
            line.push(c);
            proof {
                assert(line@ =~= chars@.subrange(start as int, i + 1));
            }
        }
        i += 1;
    }
    let ghost rest = text@.skip(start as int);
    proof {
        assert forall|j: int| 0 <= j < rest.len() implies rest[j] != LINE_FEED by {
            assert(rest[j] == chars@[start + j]);
        }
        lemma_line_end_at(rest, rest.len() as int);
        assert(rest =~= line@);
    }
    if line.len() > 0 {
        let s = string_of(&line);
        let ghost before = texts(r@);
        r.push(s);
        proof {
            assert(texts(r@) =~= before.push(s@));
            assert(before.push(s@) =~= before + seq![rest]);
        }
    } else {
        proof {
            assert(texts(r@) + Seq::<Seq<char>>::empty() =~= texts(r@));
        }
    }
    r
}

/// Joins the lines into one text, with a line feed between each two.
pub fn join_lines(lines: &Vec<String>) -> (s: String)
    ensures
        s@ == joined(texts(lines@)),
{
    let mut s = String::new();
    let mut i: usize = 0;
    while i < lines.len()
        invariant
            i <= lines.len(),
            s@ == joined(texts(lines@).take(i as int)),
        decreases lines.len() - i,
    {
        let ghost done = texts(lines@).take(i as int);
        let ghost next = texts(lines@).take(i + 1);
        proof {
            assert(next.drop_last() =~= done);
            assert(next.last() == lines@[i as int]@);
        }
        if i > 0 {
            s.push(LINE_FEED);
        }
        let word = chars_of(lines[i].as_str());
        push_chars(&mut s, &word);
        proof {
            if i > 0 {
                assert(s@ =~= joined(done) + seq![LINE_FEED] + next.last());
            } else {
                assert(s@ =~= next[0]);
            }
        }
        i += 1;
    }
    proof {
        assert(texts(lines@).take(i as int) =~= texts(lines@));
    }
    s
}

/// Whether joining the lines and splitting the text again gives the same
/// lines back: no line holds a line feed, none but the last ends with a
/// carriage return, and the last is not empty.
pub open spec fn survives_joining(lines: Seq<Seq<char>>) -> bool {
    &&& forall|i: int| 0 <= i < lines.len() ==> !(#[trigger] lines[i]).contains(LINE_FEED)
    &&& forall|i: int|
        0 <= i < lines.len() - 1 ==> without_return(#[trigger] lines[i]) == lines[i]
    &&& lines.len() > 0 ==> lines.last().len() > 0
}

/// A joined text of two lines or more starts with the first line and a line
/// feed; the other lines, joined, follow.
pub proof fn lemma_joined_front(lines: Seq<Seq<char>>)
    requires
        lines.len() >= 2,
    ensures
        joined(lines) == lines[0] + seq![LINE_FEED] + joined(lines.drop_first()),
    decreases lines.len(),
{
    let tail = lines.drop_first();
    let front = lines.drop_last();
    assert(joined(lines) == joined(front) + seq![LINE_FEED] + lines.last());
    if lines.len() == 2 {
        assert(joined(front) == front[0]);
        assert(joined(tail) == tail[0]);
    } else {
        lemma_joined_front(front);
        assert(front.drop_first() =~= tail.drop_last());
        assert(joined(tail) == joined(tail.drop_last()) + seq![LINE_FEED] + tail.last());
        assert(joined(lines) =~= lines[0] + seq![LINE_FEED] + (joined(tail.drop_last()) + seq![
            LINE_FEED,
        ] + tail.last()));
    }
}

/// Splitting undoes joining: lines that survive joining come back as they
/// were, in their order.
pub proof fn law_lines_of_joined(lines: Seq<Seq<char>>)
    requires
        survives_joining(lines),
    ensures
        lines_of(joined(lines)) == lines,
    decreases lines.len(),
{
    if lines.len() == 1 {
        let only = lines[0];
        assert(!only.contains(LINE_FEED));
        assert forall|i: int| 0 <= i < only.len() implies only[i] != LINE_FEED by {
            assert(only.contains(only[i]));
        }
        lemma_line_end_at(only, only.len() as int);
        assert(lines =~= seq![only]);
    } else if lines.len() >= 2 {
        let first = lines[0];
        let tail = lines.drop_first();
        let text = joined(lines);
        lemma_joined_front(lines);
        assert(!first.contains(LINE_FEED));
        assert forall|i: int| 0 <= i < first.len() implies text[i] != LINE_FEED by {
            assert(first.contains(first[i]));
        }
        lemma_line_end_at(text, first.len() as int);
        assert(text.take(first.len() as int) =~= first);
        assert(text.skip(first.len() as int + 1) =~= joined(tail));
        assert(survives_joining(tail)) by {
            assert forall|i: int| 0 <= i < tail.len() implies !(#[trigger] tail[i]).contains(
                LINE_FEED,
            ) by {
                assert(tail[i] == lines[i + 1]);
            }
            assert forall|i: int| 0 <= i < tail.len() - 1 implies without_return(
                #[trigger] tail[i],
            ) == tail[i] by {
                assert(tail[i] == lines[i + 1]);
            }
            assert(tail.last() == lines.last());
        }
        law_lines_of_joined(tail);
        assert(without_return(first) == first);
        assert(seq![first] + tail =~= lines);
    }
}

/// The character of a decimal digit.
pub open spec fn digit(d: int) -> char {
    (48 + d) as char
}

/// A number in decimal notation, without leading zeros.
pub open spec fn decimal(n: nat) -> Seq<char>
    decreases n,
{
    if n < 10 {
        seq![digit(n as int)]
    } else {
        decimal(n / 10).push(digit((n % 10) as int))
    }
}

/// Appends a number in decimal notation.
pub fn push_decimal(out: &mut Vec<char>, n: u64)
    ensures
        final(out)@ == old(out)@ + decimal(n as nat),
    decreases n,
{
    if n >= 10 {
        push_decimal(out, n / 10);
    }
    let low: u8 = (n % 10) as u8;
    out.push((48 + low) as char);
    proof {
        if n >= 10 {
            assert(out@ =~= old(out)@ + decimal((n / 10) as nat).push(digit((n % 10) as int)));
        } else {
            assert(out@ =~= old(out)@ + seq![digit(n as int)]);
        }
    }
}

} // verus!
