//! Letter and number pairs.

use vstd::prelude::*;
use vstd::std_specs::cmp::PartialEqSpecImpl;
use vstd::string::StringExecFns;
use crate::binary32::Float;
use crate::span::Span;

verus! {

/// A single word of a program's text (e.g. `X-12.3`).
#[derive(Debug, Clone, Copy)]
pub struct Word {
    /// The letter associated with this word (e.g. the `X` in `X12.3`).
    pub letter: char,
    /// The numeric part of the word.
    pub value: Float,
    /// The word's location in the source text.
    pub span: Span,
}

/// The upper-case form of an ASCII letter; every other character is itself.
pub open spec fn upper_case(c: char) -> char {
    if 'a' <= c && c <= 'z' {
        ((c as u32) - 32) as char
    } else {
        c
    }
}

/// The upper-case form of an ASCII letter; every other character is itself.
pub fn to_upper_case(c: char) -> (r: char)
    ensures
        r == upper_case(c),
{
    if 'a' <= c && c <= 'z' {
        ((c as u8) - 32) as char
    } else {
        c
    }
}

/// Folding a letter twice is folding it once.
pub proof fn lemma_upper_case_idempotent(c: char)
    ensures
        upper_case(upper_case(c)) == upper_case(c),
{
}

impl Word {
    /// The word with its letter in upper case.
    pub open spec fn folded(self) -> Word {
        Word { letter: upper_case(self.letter), value: self.value, span: self.span }
    }

    /// Whether two words have the same letter and span and the same number
    /// as their value.
    pub open spec fn same_word(self, other: Word) -> bool {
        &&& self.letter == other.letter
        &&& self.value.same_number(other.value)
        &&& self.span == other.span
    }

    /// The text of the word, given the text of its value: the letter, then
    /// the value.
    pub open spec fn text(self, value: Seq<char>) -> Seq<char> {
        seq![self.letter] + value
    }

    /// Create a new `Word`.
    pub fn new(letter: char, value: Float, span: Span) -> (r: Word)
        ensures
            r == (Word { letter, value, span }),
    {
        Word { letter, value, span }
    }
}

impl Word {
    /// Writes the word out, given the text of its value.
    pub fn render(&self, value: &str) -> (r: String)
        ensures
            r@ == self.text(value@),
    {
        let mut out = String::new();
        out.push(self.letter);
        out.append(value);
        assert(out@ =~= self.text(value@));
        out
    }
}

impl PartialEq for Word {
    /// Two words are equal when their letters and spans are the same and
    /// their values are the same number.
    fn eq(&self, other: &Word) -> (r: bool) {
        self.letter == other.letter && self.value == other.value && self.span == other.span
    }
}

impl PartialEqSpecImpl for Word {
    open spec fn obeys_eq_spec() -> bool {
        true
    }

    open spec fn eq_spec(&self, other: &Word) -> bool {
        self.same_word(*other)
    }
}

impl Default for Word {
    /// The word with the null character, positive zero and the empty span.
    fn default() -> (r: Word)
        ensures
            r.letter == '\0',
            r.value.bits == 0,
            r.span == (Span { start: 0, end: 0, source_line: 0 }),
    {
        Word { letter: '\0', value: Float::default(), span: Span::default() }
    }
}

} // verus!
