//! Counting the lines, words and characters of a text.

use vstd::prelude::*;
use vstd::string::*;

verus! {

broadcast use vstd::string::group_string_axioms;

/// The characters that separate words: the white space of Unicode.
pub open spec fn is_space(c: char) -> bool {
    ||| '\u{9}' <= c <= '\u{d}'
    ||| c == ' '
    ||| c == '\u{85}'
    ||| c == '\u{a0}'
    ||| c == '\u{1680}'
    ||| '\u{2000}' <= c <= '\u{200a}'
    ||| c == '\u{2028}'
    ||| c == '\u{2029}'
    ||| c == '\u{202f}'
    ||| c == '\u{205f}'
    ||| c == '\u{3000}'
}

/// The number of words in a line: the places where a character that is no
/// space stands at the start or behind a space.
pub open spec fn words_in(line: Seq<char>) -> nat
    decreases line.len(),
{
    if line.len() == 0 {
        0
    } else {
        let before = words_in(line.drop_last());
        let starts_word = !is_space(line.last()) && (line.len() == 1 || is_space(
            line[line.len() - 2],
        ));
        if starts_word {
            before + 1
        } else {
            before
        }
    }
}

/// A line has at most as many words as characters.
pub proof fn lemma_words_bounded(line: Seq<char>)
    ensures
        words_in(line) <= line.len(),
    decreases line.len(),
{
    if line.len() > 0 {
        lemma_words_bounded(line.drop_last());
    }
}

/// Tells whether a character separates words.
pub fn separates(c: char) -> (r: bool)
    ensures
        r == is_space(c),
{
    ('\u{9}' <= c && c <= '\u{d}') || c == ' ' || c == '\u{85}' || c == '\u{a0}' || c
        == '\u{1680}' || ('\u{2000}' <= c && c <= '\u{200a}') || c == '\u{2028}' || c
        == '\u{2029}' || c == '\u{202f}' || c == '\u{205f}' || c == '\u{3000}'
}

/// Counts the characters and the words of a line.
pub fn measure(line: &str) -> (r: (usize, usize))
    ensures
        r.0 == line@.len(),
        r.1 == words_in(line@),
{
    let mut chars: usize = 0;
    let mut words: usize = 0;
    let mut in_word = false;
    let len = line.unicode_len();
    for c in it: line.chars()
        invariant
            len == line@.len(),
            it.seq() == line@,
            chars == it.index(),
            words == words_in(line@.take(it.index() as int)),
            in_word == (it.index() > 0 && !is_space(line@[it.index() - 1])),
    {
        proof {
            let i = it.index() as int;
            assert(line@.take(i + 1).drop_last() =~= line@.take(i));
            assert(line@.take(i + 1).last() == line@[i]);
            lemma_words_bounded(line@.take(i + 1));
        }
        let space = separates(c);
        if !space && !in_word {
            words += 1;
        }
        in_word = !space;
        chars += 1;
    }
    proof {
        assert(line@.take(line@.len() as int) =~= line@);
    }
    (chars, words)
}

/// The running totals of a text that is counted line by line.
#[derive(Clone, Copy, Debug, PartialEq, Eq, Structural)]
pub struct Counts {
    /// Lines counted, less one: the number of line breaks between them.
    pub lines: i32,
    /// Words counted.
    pub words: usize,
    /// Characters counted, line breaks left out.
    pub chars: usize,
}

impl Counts {
    /// The totals before the first line.
    pub fn new() -> (r: Counts)
        ensures
            r == (Counts { lines: -1i32, words: 0, chars: 0 }),
    {
        Counts { lines: -1, words: 0, chars: 0 }
    }

    /// The totals with one more line taken in.
    pub open spec fn with_line(self, line: Seq<char>) -> Counts {
        Counts {
            lines: (self.lines + 1) as i32,
            words: (self.words + words_in(line)) as usize,
            chars: (self.chars + line.len()) as usize,
        }
    }

    /// Takes one more line into the totals.
    pub fn add_line(&mut self, line: &str)
        requires
            old(self).lines < i32::MAX,
            old(self).chars + line@.len() <= usize::MAX,
            old(self).words + words_in(line@) <= usize::MAX,
        ensures
            *final(self) == old(self).with_line(line@),
    {
        let (chars, words) = measure(line);
        self.lines = self.lines + 1;
        self.words = self.words + words;
        self.chars = self.chars + chars;
    }
}

} // verus!
