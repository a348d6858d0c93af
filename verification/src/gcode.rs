//! Commands and how they are built up.

use vstd::prelude::*;
use vstd::std_specs::cmp::PartialEqSpecImpl;
use vstd::string::StringExecFns;
use arrayvec::ArrayVec;
use crate::arguments::{MAX_ARGS, words_in, empty_list, list_as_slice, list_set, list_try_push, list_clone};
use crate::binary32::Float;
use crate::mnemonic::Mnemonic;
use crate::span::Span;
use crate::text::{decimal, push_decimal};
use crate::word::{Word, upper_case, to_upper_case};

verus! {

/// The index of the first word with the given letter, or the number of words
/// if there is none.
pub open spec fn index_of(words: Seq<Word>, letter: char) -> int
    decreases words.len(),
{
    if words.len() == 0 {
        0
    } else if words.first().letter == letter {
        0
    } else {
        1 + index_of(words.drop_first(), letter)
    }
}

/// Whether every letter is in upper case and no letter occurs twice.
pub open spec fn canonical(words: Seq<Word>) -> bool {
    &&& forall|i: int| 0 <= i < words.len() ==> upper_case(#[trigger] words[i].letter) == words[i].letter
    &&& forall|i: int, j: int|
        0 <= i < j < words.len() ==> #[trigger] words[i].letter != #[trigger] words[j].letter
}

/// The argument list after `word` has been attached to it: the word, with its
/// letter in upper case, takes the place of the argument with the same letter
/// if there is one; else it goes to the end, unless the list is full, in which
/// case it is dropped.
pub open spec fn attach(words: Seq<Word>, word: Word) -> Seq<Word> {
    let word = word.folded();
    let i = index_of(words, word.letter);
    if i < words.len() {
        words.update(i, word)
    } else if words.len() < MAX_ARGS {
        words.push(word)
    } else {
        words
    }
}

/// The value of the argument with the given letter, in either case.
pub open spec fn lookup(words: Seq<Word>, letter: char) -> Option<Float> {
    let i = index_of(words, upper_case(letter));
    if i < words.len() {
        Some(words[i].value)
    } else {
        None
    }
}

/// Whether two lists hold equal words at every place.
pub open spec fn same_words(a: Seq<Word>, b: Seq<Word>) -> bool {
    &&& a.len() == b.len()
    &&& forall|i: int| 0 <= i < a.len() ==> (#[trigger] a[i]).same_word(b[i])
}

/// The text of the first `k` arguments, given the text of each value: for
/// each argument a space, the letter and the value.
pub open spec fn arguments_text(words: Seq<Word>, values: Seq<Seq<char>>, k: nat) -> Seq<char>
    decreases k,
{
    if k == 0 {
        Seq::empty()
    } else {
        arguments_text(words, values, (k - 1) as nat) + seq![' '] + words[k - 1].text(
            values[k - 1],
        )
    }
}

/// The text of a line number: `N`, the number in decimal and a space; or
/// nothing where there is none.
pub open spec fn line_number_text(line_number: Option<u32>) -> Seq<char> {
    match line_number {
        Some(n) => seq!['N'] + decimal(n as nat) + seq![' '],
        None => Seq::empty(),
    }
}

/// What a command is, as plain values.
pub struct GcodeView {
    /// The category of the command.
    pub mnemonic: Mnemonic,
    /// The number of the command (e.g. the `1.2` in `G1.2`).
    pub number: Float,
    /// The line number given to the command, if any.
    pub line_number: Option<u32>,
    /// The arguments, in the order in which their letters first came.
    pub arguments: Seq<Word>,
    /// The location of the command in the source text.
    pub span: Span,
}

impl GcodeView {
    /// The invariant of a command: at most `MAX_ARGS` arguments, each letter
    /// in upper case and none twice.
    pub open spec fn wf(self) -> bool {
        self.arguments.len() <= MAX_ARGS && canonical(self.arguments)
    }

    /// The integral part of the command's number.
    pub open spec fn major_number(self) -> u32 {
        self.number.whole_part()
    }

    /// The first digit behind the point of the command's number, unless it
    /// is zero.
    pub open spec fn minor_number(self) -> Option<u32> {
        if self.number.tenths() == 0 {
            None
        } else {
            Some(self.number.tenths() as u32)
        }
    }

    /// Whether two commands are equal field by field, numbers compared as
    /// numbers and arguments place by place.
    pub open spec fn same_command(self, other: GcodeView) -> bool {
        &&& self.mnemonic == other.mnemonic
        &&& self.number.same_number(other.number)
        &&& self.line_number == other.line_number
        &&& same_words(self.arguments, other.arguments)
        &&& self.span == other.span
    }

    /// The text of the command, given the text of its number and of the value
    /// of each argument: the line number if there is one, the mnemonic's
    /// letter, the number, and the arguments in their order.
    pub open spec fn text(self, number: Seq<char>, values: Seq<Seq<char>>) -> Seq<char> {
        line_number_text(self.line_number) + seq![self.mnemonic.letter_of()] + number
            + arguments_text(self.arguments, values, self.arguments.len())
    }

    /// The command with one more argument attached.
    pub open spec fn with_argument(self, word: Word) -> GcodeView {
        GcodeView {
            arguments: attach(self.arguments, word),
            span: self.span.union(word.span),
            ..self
        }
    }

    /// The command with a line number attached.
    pub open spec fn with_line_number(self, number: u32, span: Span) -> GcodeView {
        GcodeView { line_number: Some(number), span: self.span.union(span), ..self }
    }
}

/// A single command.
#[derive(Debug)]
pub struct Gcode {
    mnemonic: Mnemonic,
    number: Float,
    line_number: Option<u32>,
    arguments: ArrayVec<Word, MAX_ARGS>,
    span: Span,
}

impl View for Gcode {
    type V = GcodeView;

    closed spec fn view(&self) -> GcodeView {
        GcodeView {
            mnemonic: self.mnemonic,
            number: self.number,
            line_number: self.line_number,
            arguments: words_in(self.arguments),
            span: self.span,
        }
    }
}

impl Gcode {
    #[verifier::type_invariant]
    closed spec fn inv(self) -> bool {
        self@.wf()
    }

    /// Create a new `Gcode` without arguments and without a line number.
    pub fn new(mnemonic: Mnemonic, number: Float, span: Span) -> (r: Gcode)
        ensures
            r@ == (GcodeView {
                mnemonic,
                number,
                line_number: None,
                arguments: Seq::empty(),
                span,
            }),
            r@.wf(),
    {
        Gcode { mnemonic, number, span, arguments: empty_list(), line_number: None }
    }

    /// Get the `Mnemonic` used by this `Gcode`.
    pub fn mnemonic(&self) -> (r: Mnemonic)
        ensures
            r == self@.mnemonic,
    {
        self.mnemonic
    }

    /// Get the location of this `Gcode` in the source text.
    pub fn span(&self) -> (r: Span)
        ensures
            r == self@.span,
    {
        self.span
    }

    /// The arguments provided to the `Gcode`.
    pub fn args(&self) -> (r: &[Word])
        ensures
            r@ == self@.arguments,
            self@.wf(),
    {
        proof {
            use_type_invariant(self);
        }
        list_as_slice(&self.arguments)
    }

    /// Get the line number given to this command (e.g. the `20` in
    /// `N20 G04 P100`).
    pub fn line_number(&self) -> (r: Option<u32>)
        ensures
            r == self@.line_number,
    {
        self.line_number
    }

    /// The number associated with this `Gcode` (e.g. the `01` in `G01 X123`).
    pub fn number(&self) -> (r: Float)
        ensures
            r == self@.number,
    {
        self.number
    }

    /// The integral part of the command's number.
    pub fn major_number(&self) -> (r: u32)
        ensures
            r == self@.major_number(),
    {
        self.number.trunc_to_u32()
    }

    /// The first digit after the decimal point, if there was one.
    ///
    /// For all intents and purposes, a command like `G1.0` doesn't really
    /// have a minor number.
    pub fn minor_number(&self) -> (r: Option<u32>)
        ensures
            r == self@.minor_number(),
    {
        let first_digit = self.number.round_tenths();
        if first_digit == 0 {
            None
        } else {
            Some(first_digit)
        }
    }

    /// Add an argument to this `Gcode`'s argument list.
    pub fn add_argument(&mut self, arg: Word)
        ensures
            final(self)@ == old(self)@.with_argument(arg),
            final(self)@.wf(),
    {
        proof {
            use_type_invariant(&*self);
        }
        let word = Word { letter: to_upper_case(arg.letter), value: arg.value, span: arg.span };
        self.span = self.span.merge(word.span);
        let i = position(list_as_slice(&self.arguments), word.letter);
        let n = list_as_slice(&self.arguments).len();
        proof {
            lemma_attach_canonical(words_in(self.arguments), arg);
        }
        if i < n {
            list_set(&mut self.arguments, i, word);
        } else {
            let _ = list_try_push(&mut self.arguments, word);
        }
    }

    /// A builder method for adding an argument to the `Gcode`.
    pub fn with_argument(self, arg: Word) -> (r: Gcode)
        ensures
            r@ == self@.with_argument(arg),
            r@.wf(),
    {
        let mut this = self;
        this.add_argument(arg);
        this
    }

    /// A builder method for attaching a line number (the `30` in
    /// `N30 G01 X32`) to a command.
    pub fn with_line_number(self, number: u32, span: Span) -> (r: Gcode)
        ensures
            r@ == self@.with_line_number(number, span),
            r@.wf(),
    {
        proof {
            use_type_invariant(&self);
        }
        let mut this = self;
        this.span = this.span.merge(span);
        this.line_number = Some(number);
        this
    }

    /// Find the value for the desired argument.
    pub fn value_for(&self, letter: char) -> (r: Option<Float>)
        ensures
            r == lookup(self@.arguments, letter),
    {
        let words = list_as_slice(&self.arguments);
        let i = position(words, to_upper_case(letter));
        if i < words.len() {
            Some(words[i].value)
        } else {
            None
        }
    }
}

impl Gcode {
    /// Writes the command out, given the text of its number and of the value
    /// of each argument, in the order of the arguments.
    pub fn render(&self, number: &str, values: &Vec<String>) -> (r: String)
        requires
            values@.len() == self@.arguments.len(),
        ensures
            r@ == self@.text(number@, values@.map_values(|v: String| v@)),
    {
        let ghost texts = values@.map_values(|v: String| v@);
        let mut out = String::new();
        if let Some(n) = self.line_number {
            out.push('N');
            push_decimal(&mut out, n);
            out.push(' ');
        }
        assert(out@ =~= line_number_text(self@.line_number));
        out.push(self.mnemonic.letter());
        out.append(number);
        let words = list_as_slice(&self.arguments);
        let ghost head = out@;
        let mut k: usize = 0;
        while k < words.len()
            invariant
                k <= words@.len(),
                words@.len() == values@.len(),
                texts == values@.map_values(|v: String| v@),
                out@ == head + arguments_text(words@, texts, k as nat),
            decreases words@.len() - k,
        {
            let piece = words[k].render(values[k].as_str());
            out.push(' ');
            out.append(piece.as_str());
            k += 1;
            assert(out@ =~= head + arguments_text(words@, texts, k as nat));
        }
        assert(out@ =~= self@.text(number@, texts));
        out
    }
}

impl Clone for Gcode {
    /// A second command with the same fields and the same arguments.
    fn clone(&self) -> (r: Gcode)
        ensures
            r@ == self@,
    {
        proof {
            use_type_invariant(self);
        }
        Gcode {
            mnemonic: self.mnemonic,
            number: self.number,
            line_number: self.line_number,
            arguments: list_clone(&self.arguments),
            span: self.span,
        }
    }
}

impl Default for Gcode {
    /// The general command with number zero, no line number, no arguments
    /// and the empty span.
    fn default() -> (r: Gcode)
        ensures
            r@ == (GcodeView {
                mnemonic: Mnemonic::General,
                number: Float { bits: 0 },
                line_number: None,
                arguments: Seq::empty(),
                span: Span { start: 0, end: 0, source_line: 0 },
            }),
            r@.wf(),
    {
        Gcode::new(Mnemonic::default(), Float::default(), Span::default())
    }
}

impl PartialEq for Gcode {
    /// Compares field by field: numbers as numbers, the arguments in order.
    fn eq(&self, other: &Gcode) -> (r: bool) {
        let same_line = match (self.line_number, other.line_number) {
            (Some(a), Some(b)) => a == b,
            (None, None) => true,
            _ => false,
        };
        self.mnemonic == other.mnemonic && self.number == other.number && same_line
            && equal_words(list_as_slice(&self.arguments), list_as_slice(&other.arguments))
            && self.span == other.span
    }
}

impl PartialEqSpecImpl for Gcode {
    open spec fn obeys_eq_spec() -> bool {
        true
    }

    open spec fn eq_spec(&self, other: &Gcode) -> bool {
        self@.same_command(other@)
    }
}

/// Whether two slices hold equal words at every place.
fn equal_words(a: &[Word], b: &[Word]) -> (r: bool)
    ensures
        r == same_words(a@, b@),
{
    if a.len() != b.len() {
        return false;
    }
    let mut i: usize = 0;
    while i < a.len()
        invariant
            i <= a@.len(),
            a@.len() == b@.len(),
            forall|j: int| 0 <= j < i ==> (#[trigger] a@[j]).same_word(b@[j]),
        decreases a@.len() - i,
    {
        if !(a[i] == b[i]) {
            return false;
        }
        i += 1;
    }
    true
}

/// The index of the first word with the given letter, or the number of words
/// if there is none.
fn position(words: &[Word], letter: char) -> (i: usize)
    ensures
        i == index_of(words@, letter),
        i <= words@.len(),
{
    let mut i: usize = 0;
    while i < words.len() && words[i].letter != letter
        invariant
            i <= words@.len(),
            forall|j: int| 0 <= j < i ==> words@[j].letter != letter,
        decreases words@.len() - i,
    {
        i += 1;
    }
    proof {
        lemma_index_of(words@, letter, i as int);
    }
    i
}

/// `index_of` is the index before which the letter does not occur and at
/// which it does, or the length.
pub proof fn lemma_index_of(words: Seq<Word>, letter: char, i: int)
    requires
        0 <= i <= words.len(),
        forall|j: int| 0 <= j < i ==> words[j].letter != letter,
        i < words.len() ==> words[i].letter == letter,
    ensures
        index_of(words, letter) == i,
    decreases i,
{
    if i > 0 {
        let rest = words.drop_first();
        assert forall|j: int| 0 <= j < i - 1 implies rest[j].letter != letter by {
            assert(rest[j] == words[j + 1]);
        }
        lemma_index_of(rest, letter, i - 1);
    }
}

/// `index_of` lies within the list exactly when the letter occurs, and then
/// points at its first occurrence.
pub proof fn lemma_index_of_found(words: Seq<Word>, letter: char)
    ensures
        0 <= index_of(words, letter) <= words.len(),
        index_of(words, letter) < words.len() ==> words[index_of(words, letter)].letter == letter,
        forall|j: int| 0 <= j < index_of(words, letter) ==> words[j].letter != letter,
    decreases words.len(),
{
    if words.len() > 0 && words.first().letter != letter {
        let rest = words.drop_first();
        lemma_index_of_found(rest, letter);
        assert forall|j: int| 0 <= j < index_of(words, letter) implies words[j].letter
            != letter by {
            if j > 0 {
                assert(rest[j - 1] == words[j]);
            }
        }
    }
}

/// Attaching a word keeps a list within its bound, in upper case and free of
/// repeated letters.
pub proof fn lemma_attach_canonical(words: Seq<Word>, word: Word)
    requires
        words.len() <= MAX_ARGS,
        canonical(words),
    ensures
        attach(words, word).len() <= MAX_ARGS,
        canonical(attach(words, word)),
{
    let w = word.folded();
    let i = index_of(words, w.letter);
    lemma_index_of_found(words, w.letter);
    let after = attach(words, word);
    assert forall|a: int, b: int| 0 <= a < b < after.len() implies #[trigger] after[a].letter
        != #[trigger] after[b].letter by {
        if i < words.len() {
            if a == i {
                assert(words[a].letter != words[b].letter);
            } else if b == i {
                assert(words[a].letter != words[b].letter);
            } else {
                assert(words[a].letter != words[b].letter);
            }
        } else if b < words.len() {
            assert(words[a].letter != words[b].letter);
        }
    }
}

/// Where an attached word ends up: at the place of the first argument with
/// its letter, or at the end; and nowhere if the list is full and the letter
/// is new.
pub proof fn lemma_attach_position(words: Seq<Word>, word: Word)
    ensures
        ({
            let letter = upper_case(word.letter);
            let i = index_of(words, letter);
            let after = attach(words, word);
            &&& i < words.len() || words.len() < MAX_ARGS ==> {
                &&& index_of(after, letter) == i
                &&& i < after.len()
                &&& after[i] == word.folded()
                &&& forall|j: int| 0 <= j < words.len() && j != i ==> after[j] == words[j]
            }
            &&& i == words.len() && words.len() >= MAX_ARGS ==> after == words
        }),
{
    let letter = upper_case(word.letter);
    let i = index_of(words, letter);
    let after = attach(words, word);
    lemma_index_of_found(words, letter);
    if i < words.len() || words.len() < MAX_ARGS {
        lemma_index_of(after, letter, i);
    }
}

/// After a word has been attached, its letter in either case finds its value,
/// unless the list was full and the letter new.
pub proof fn lemma_lookup_attached(words: Seq<Word>, word: Word, letter: char)
    requires
        upper_case(letter) == upper_case(word.letter),
        index_of(words, upper_case(word.letter)) < words.len() || words.len() < MAX_ARGS,
    ensures
        lookup(attach(words, word), letter) == Some(word.value),
{
    lemma_attach_position(words, word);
}

/// Attaching a word changes the value that no other letter finds.
pub proof fn lemma_lookup_other(words: Seq<Word>, word: Word, letter: char)
    requires
        upper_case(letter) != upper_case(word.letter),
    ensures
        lookup(attach(words, word), letter) == lookup(words, letter),
{
    let l = upper_case(letter);
    let k = index_of(words, l);
    let after = attach(words, word);
    lemma_index_of_found(words, l);
    lemma_attach_position(words, word);
    lemma_index_of_found(words, upper_case(word.letter));
    if k < words.len() {
        lemma_index_of(after, l, k);
    } else {
        lemma_index_of(after, l, after.len() as int);
    }
}

/// Two words whose letters differ in case at most make one argument: the
/// second takes the place that the first was given, and the list is as long
/// as it was after the first.
pub proof fn lemma_attach_same_letter(words: Seq<Word>, first: Word, second: Word)
    requires
        upper_case(first.letter) == upper_case(second.letter),
    ensures
        ({
            let letter = upper_case(first.letter);
            let once = attach(words, first);
            let twice = attach(once, second);
            let i = index_of(once, letter);
            &&& twice.len() == once.len()
            &&& index_of(twice, letter) == i
            &&& i < once.len() ==> twice == once.update(i, second.folded())
            &&& i == once.len() ==> twice == words
            &&& i < once.len() <==> index_of(words, letter) < words.len() || words.len()
                < MAX_ARGS
        }),
{
    let letter = upper_case(first.letter);
    let once = attach(words, first);
    lemma_attach_position(words, first);
    lemma_attach_position(once, second);
    lemma_index_of_found(words, letter);
    lemma_index_of_found(once, letter);
}

/// In a command's list the letter of an attached word occurs once and no
/// more: wherever it stands, that is the place `index_of` finds.
pub proof fn lemma_attached_letter_occurs_once(words: Seq<Word>, word: Word)
    requires
        words.len() <= MAX_ARGS,
        canonical(words),
    ensures
        ({
            let letter = upper_case(word.letter);
            let after = attach(words, word);
            forall|j: int|
                0 <= j < after.len() && (#[trigger] after[j]).letter == letter ==> j == index_of(
                    after,
                    letter,
                )
        }),
{
    let letter = upper_case(word.letter);
    let after = attach(words, word);
    lemma_attach_canonical(words, word);
    lemma_index_of_found(after, letter);
    assert forall|j: int| 0 <= j < after.len() && (#[trigger] after[j]).letter == letter implies j
        == index_of(after, letter) by {
        let i = index_of(after, letter);
        if i < j {
            assert(after[i].letter != after[j].letter);
        }
    }
}

/// Equality of commands does not depend on the side a command stands on.
pub proof fn lemma_same_command_symmetric(a: GcodeView, b: GcodeView)
    ensures
        a.same_command(b) == b.same_command(a),
{
    if a.same_command(b) {
        assert forall|i: int| 0 <= i < b.arguments.len() implies (#[trigger] b.arguments[i]).same_word(
            a.arguments[i],
        ) by {
            assert(a.arguments[i].same_word(b.arguments[i]));
        }
    }
    if b.same_command(a) {
        assert forall|i: int| 0 <= i < a.arguments.len() implies (#[trigger] a.arguments[i]).same_word(
            b.arguments[i],
        ) by {
            assert(b.arguments[i].same_word(a.arguments[i]));
        }
    }
}

/// Two commands that equal a third equal each other.
pub proof fn lemma_same_command_transitive(a: GcodeView, b: GcodeView, c: GcodeView)
    requires
        a.same_command(b),
        b.same_command(c),
    ensures
        a.same_command(c),
{
    assert forall|i: int| 0 <= i < a.arguments.len() implies (#[trigger] a.arguments[i]).same_word(
        c.arguments[i],
    ) by {
        assert(a.arguments[i].same_word(b.arguments[i]));
        assert(b.arguments[i].same_word(c.arguments[i]));
    }
}

/// A command equals itself unless a NaN stands in it, as its number or as
/// the value of an argument.
pub proof fn lemma_same_command_reflexive(a: GcodeView)
    ensures
        a.same_command(a) <==> !a.number.is_nan() && forall|i: int|
            0 <= i < a.arguments.len() ==> !(#[trigger] a.arguments[i]).value.is_nan(),
{
    if a.same_command(a) {
        assert forall|i: int| 0 <= i < a.arguments.len() implies !(#[trigger] a.arguments[i]).value.is_nan() by {
            assert(a.arguments[i].same_word(a.arguments[i]));
        }
    }
}

} // verus!
