//! Reading positions and the primitive readers that the grammar is built from.
//!
//! A reader takes a `State`, a source text together with an offset into it,
//! and gives back a new state and a value. Nothing is ever changed in place:
//! to backtrack is to go on from an earlier state.

use vstd::prelude::*;
use vstd::string::StringExecFns;
use crate::text::{
    decimal, is_name_char, is_space, push_char, push_decimal, spec_is_name_char, spec_is_space,
};

verus! {

/// What a failed read reports: the construct that was expected and the offset
/// at which the reader that wanted it was started.
pub struct Expected {
    pub label: Seq<char>,
    pub index: int,
}

/// What a reader gives, as a mathematical value: the offset behind what it
/// read and its value, or what it expected.
pub type Parsed<T> = Result<(int, T), Expected>;

/// The error of every reader.
#[derive(Clone, Debug, PartialEq, Eq)]
pub struct ParseError {
    pub label: &'static str,
    pub index: usize,
}

impl View for ParseError {
    type V = Expected;

    open spec fn view(&self) -> Expected {
        Expected { label: self.label@, index: self.index as int }
    }
}

/// The message of an error: what was expected, and at which offset.
pub open spec fn message_of(e: Expected) -> Seq<char> {
    "expected `"@ + e.label + "` at offset "@ + decimal(e.index as nat)
}

impl ParseError {
    /// The message of the error.
    pub fn to_string(&self) -> (s: String)
        ensures
            s@ == message_of(self@),
    {
        let mut out = String::from_str("expected `");
        out.append(self.label);
        out.append("` at offset ");
        push_decimal(&mut out, self.index as u64);
        out
    }
}

/// A source text and an offset into it, counted in characters.
#[derive(Clone, Copy, Debug)]
pub struct State<'a> {
    pub code: &'a [char],
    pub index: usize,
}

/// What a reader gives: the state behind what it read and its value, or its
/// error.
pub type Answer<'a, A> = Result<(State<'a>, A), ParseError>;

impl<'a> State<'a> {
    /// The text being read.
    pub open spec fn src(self) -> Seq<char> {
        self.code@
    }

    /// The offset as a mathematical integer.
    pub open spec fn pos(self) -> int {
        self.index as int
    }

    /// The offset lies within the text or at its end.
    pub open spec fn wf(self) -> bool {
        self.index <= self.code@.len()
    }

    /// `next` is a position in the same text, at offset `index`.
    pub open spec fn moved_to(self, next: State<'a>, index: int) -> bool {
        next.code == self.code && next.index as int == index && next.wf()
    }

    /// The state at the start of `code`.
    pub fn new(code: &'a [char]) -> (state: State<'a>)
        ensures
            state.code == code,
            state.index == 0,
            state.wf(),
    {
        State { code, index: 0 }
    }
}

/// The character at offset `i`, or NUL where the text has none.
pub open spec fn char_at(src: Seq<char>, i: int) -> char {
    if 0 <= i < src.len() {
        src[i]
    } else {
        '\0'
    }
}

/// The offset of the first line feed at or after `i`, or the end of the text.
pub open spec fn line_end(src: Seq<char>, i: int) -> int
    decreases src.len() - i,
{
    if 0 <= i < src.len() && src[i] != '\n' {
        line_end(src, i + 1)
    } else {
        i
    }
}

/// A line ends at or behind the offset it is looked for at, within the text.
pub proof fn lemma_line_end_bounds(src: Seq<char>, i: int)
    ensures
        i <= line_end(src, i),
        i <= src.len() ==> line_end(src, i) <= src.len(),
    decreases src.len() - i,
{
    if 0 <= i < src.len() && src[i] != '\n' {
        lemma_line_end_bounds(src, i + 1);
    }
}

/// A line comment, `//`, begins at offset `i`.
pub open spec fn opens_comment(src: Seq<char>, i: int) -> bool {
    0 <= i && i + 1 < src.len() && src[i] == '/' && src[i + 1] == '/'
}

/// The offset of the next significant character at or after `i`: blanks and
/// line comments are passed over.
pub open spec fn skipped(src: Seq<char>, i: int) -> int
    decreases src.len() - i,
{
    if 0 <= i < src.len() && spec_is_space(src[i]) {
        skipped(src, i + 1)
    } else if opens_comment(src, i) {
        proof {
            lemma_line_end_bounds(src, i + 2);
        }
        skipped(src, line_end(src, i + 2))
    } else {
        i
    }
}

/// Skipping never moves backwards nor past the end, and what it stops at is
/// significant: skipping again changes nothing.
pub proof fn lemma_skipped(src: Seq<char>, i: int)
    ensures
        i <= skipped(src, i),
        i <= src.len() ==> skipped(src, i) <= src.len(),
        skipped(src, skipped(src, i)) == skipped(src, i),
        !spec_is_space(char_at(src, skipped(src, i))),
        !opens_comment(src, skipped(src, i)),
    decreases src.len() - i,
{
    if 0 <= i < src.len() && spec_is_space(src[i]) {
        lemma_skipped(src, i + 1);
    } else if opens_comment(src, i) {
        lemma_line_end_bounds(src, i + 2);
        lemma_skipped(src, line_end(src, i + 2));
    }
}

/// The characters of `pat` stand in `src` from offset `i` on.
pub open spec fn has_at(src: Seq<char>, i: int, pat: Seq<char>) -> bool {
    &&& 0 <= i
    &&& i + pat.len() <= src.len()
    &&& forall|k: int| 0 <= k < pat.len() ==> src[i + k] == #[trigger] pat[k]
}

/// Matching a literal after insignificant characters: the offset behind the
/// literal and `true`, or the offset that was given and `false`.
pub open spec fn text_at(src: Seq<char>, i: int, pat: Seq<char>) -> (int, bool) {
    let j = skipped(src, i);
    if has_at(src, j, pat) {
        (j + pat.len(), true)
    } else {
        (i, false)
    }
}

/// A literal that has to be there.
pub open spec fn consume_at(src: Seq<char>, i: int, pat: Seq<char>) -> Result<int, Expected> {
    let (next, found) = text_at(src, i, pat);
    if found {
        Ok(next)
    } else {
        Err(Expected { label: pat, index: i })
    }
}

/// The end of the longest run of identifier characters that begins at `i`.
pub open spec fn name_end(src: Seq<char>, i: int) -> int
    decreases src.len() - i,
{
    if 0 <= i < src.len() && spec_is_name_char(src[i]) {
        name_end(src, i + 1)
    } else {
        i
    }
}

/// A run of identifier characters ends at or behind the offset at which it
/// begins, within the text; it holds identifier characters only, and none
/// follows it.
pub proof fn lemma_name_end(src: Seq<char>, i: int)
    ensures
        i <= name_end(src, i),
        0 <= i <= src.len() ==> name_end(src, i) <= src.len(),
        !spec_is_name_char(char_at(src, name_end(src, i))),
        forall|k: int| 0 <= i <= k < name_end(src, i) ==> spec_is_name_char(#[trigger] src[k]),
    decreases src.len() - i,
{
    if 0 <= i < src.len() && spec_is_name_char(src[i]) {
        lemma_name_end(src, i + 1);
    }
}

/// An identifier after insignificant characters, possibly empty: the offset
/// behind it and its characters.
pub open spec fn name_at(src: Seq<char>, i: int) -> (int, Seq<char>) {
    let j = skipped(src, i);
    let k = name_end(src, j);
    (k, src.subrange(j, k))
}

/// An identifier of at least one character.
pub open spec fn name1_at(src: Seq<char>, i: int) -> Result<(int, Seq<char>), Expected> {
    let (next, name) = name_at(src, i);
    if name.len() > 0 {
        Ok((next, name))
    } else {
        Err(Expected { label: "name"@, index: i })
    }
}

/// A literal never matches before the offset it is looked for at, nor past the
/// end of the text.
pub proof fn lemma_text_at(src: Seq<char>, i: int, pat: Seq<char>)
    ensures
        i <= text_at(src, i, pat).0,
        i <= src.len() ==> text_at(src, i, pat).0 <= src.len(),
        text_at(src, i, pat).1 ==> text_at(src, i, pat).0 >= i + pat.len(),
{
    lemma_skipped(src, i);
}

/// An identifier ends at or behind the offset it is looked for at, within the
/// text.
pub proof fn lemma_name_at(src: Seq<char>, i: int)
    ensures
        i <= name_at(src, i).0,
        0 <= i <= src.len() ==> name_at(src, i).0 <= src.len(),
        0 <= i <= src.len() ==> name_at(src, i).1.len() == name_at(src, i).0 - skipped(src, i),
{
    lemma_skipped(src, i);
    lemma_name_end(src, skipped(src, i));
}

/// The character at the current offset, or NUL at the end of the text.
pub fn head(state: State) -> (c: char)
    requires
        state.wf(),
    ensures
        c == char_at(state.src(), state.pos()),
{
    if state.index < state.code.len() {
        state.code[state.index]
    } else {
        '\0'
    }
}

/// The state one character further on; at the end of the text, the same state.
pub fn tail<'a>(state: State<'a>) -> (next: State<'a>)
    requires
        state.wf(),
    ensures
        state.moved_to(
            next,
            if state.index < state.code@.len() {
                state.index + 1
            } else {
                state.pos()
            },
        ),
{
    if state.index < state.code.len() {
        State { code: state.code, index: state.index + 1 }
    } else {
        state
    }
}

/// Passes over the rest of a line.
fn skip_line<'a>(state: State<'a>) -> (next: State<'a>)
    requires
        state.wf(),
    ensures
        state.moved_to(next, line_end(state.src(), state.pos())),
{
    let mut index: usize = state.index;
    while index < state.code.len() && state.code[index] != '\n'
        invariant
            state.index <= index <= state.code@.len(),
            line_end(state.src(), state.pos()) == line_end(state.src(), index as int),
        decreases state.code@.len() - index,
    {
        index += 1;
    }
    State { code: state.code, index }
}

/// Passes over blanks and line comments.
pub fn skip<'a>(state: State<'a>) -> (next: State<'a>)
    requires
        state.wf(),
    ensures
        state.moved_to(next, skipped(state.src(), state.pos())),
{
    let code = state.code;
    let mut index: usize = state.index;
    loop
        invariant
            code == state.code,
            state.index <= index <= code@.len(),
            skipped(state.src(), state.pos()) == skipped(state.src(), index as int),
        ensures
            state.index <= index <= code@.len(),
            skipped(state.src(), state.pos()) == index,
        decreases code@.len() - index,
    {
        if index < code.len() && is_space(code[index]) {
            index += 1;
        } else if code.len() - index >= 2 && code[index] == '/' && code[index + 1] == '/' {
            let line = skip_line(State { code, index: index + 2 });
            proof {
                lemma_line_end_bounds(code@, index + 2);
            }
            index = line.index;
        } else {
            break ;
        }
    }
    State { code, index }
}

/// Matching a literal at offset `i` itself: the offset behind the literal
/// and `true`, or `i` and `false`.
pub open spec fn text_here_at(src: Seq<char>, i: int, pat: Seq<char>) -> (int, bool) {
    if has_at(src, i, pat) {
        (i + pat.len(), true)
    } else {
        (i, false)
    }
}

/// Passes over `pat` if it stands at the current offset.
pub fn text_here<'a>(pat: &str, state: State<'a>) -> (r: (State<'a>, bool))
    requires
        state.wf(),
    ensures
        state.moved_to(r.0, text_here_at(state.src(), state.pos(), pat@).0),
        r.1 == text_here_at(state.src(), state.pos(), pat@).1,
{
    let size: usize = pat.unicode_len();
    if size > state.code.len() - state.index {
        return (state, false);
    }
    let mut k: usize = 0;
    while k < size
        invariant
            size == pat@.len(),
            state.index + size <= state.code@.len() <= usize::MAX,
            k <= size,
            forall|m: int| 0 <= m < k ==> state.code@[state.index + m] == #[trigger] pat@[m],
        decreases size - k,
    {
        if pat.get_char(k) != state.code[state.index + k] {
            return (state, false);
        }
        k += 1;
    }
    (State { code: state.code, index: state.index + size }, true)
}

/// Passes over insignificant characters and then over `pat`, if it stands
/// there. Where it does not, the state given comes back unchanged.
pub fn text<'a>(pat: &str, state: State<'a>) -> (r: (State<'a>, bool))
    requires
        state.wf(),
    ensures
        state.moved_to(r.0, text_at(state.src(), state.pos(), pat@).0),
        r.1 == text_at(state.src(), state.pos(), pat@).1,
{
    let (next, found) = text_here(pat, skip(state));
    if found {
        (next, true)
    } else {
        (state, false)
    }
}

/// The error that `label` was expected at the offset of `state`.
pub fn expected<'a, A>(label: &'static str, state: State<'a>) -> (r: Answer<'a, A>)
    ensures
        r matches Err(e) && e@ == (Expected { label: label@, index: state.pos() }),
{
    Err(ParseError { label, index: state.index })
}

/// Passes over `pat`, which has to be there.
pub fn consume<'a>(pat: &'static str, state: State<'a>) -> (r: Answer<'a, ()>)
    requires
        state.wf(),
    ensures
        match r {
            Ok((next, _)) => state.moved_to(next, next.pos()) && consume_at(
                state.src(),
                state.pos(),
                pat@,
            ) == Ok::<int, Expected>(next.pos()),
            Err(e) => consume_at(state.src(), state.pos(), pat@) == Err::<int, Expected>(e@),
        },
{
    let (next, found) = text(pat, state);
    if found {
        Ok((next, ()))
    } else {
        expected(pat, state)
    }
}

/// Reads the identifier that begins at the current offset, without passing
/// over anything first.
pub fn name_here<'a>(state: State<'a>) -> (r: (State<'a>, String))
    requires
        state.wf(),
    ensures
        state.moved_to(r.0, name_end(state.src(), state.pos())),
        state.index <= r.0.index,
        r.1@ == state.src().subrange(state.pos(), r.0.pos()),
{
    let code = state.code;
    let mut name = String::new();
    let mut index: usize = state.index;
    proof {
        assert(name@ =~= code@.subrange(state.pos(), state.pos()));
    }
    while index < code.len() && is_name_char(code[index])
        invariant
            code == state.code,
            state.index <= index <= code@.len(),
            name_end(code@, state.pos()) == name_end(code@, index as int),
            name@ == code@.subrange(state.pos(), index as int),
        decreases code@.len() - index,
    {
        push_char(&mut name, code[index]);
        proof {
            assert(name@ =~= code@.subrange(state.pos(), index + 1));
        }
        index += 1;
    }
    (State { code, index }, name)
}

/// Reads an identifier, possibly empty, after insignificant characters.
pub fn name<'a>(state: State<'a>) -> (r: (State<'a>, String))
    requires
        state.wf(),
    ensures
        state.moved_to(r.0, name_at(state.src(), state.pos()).0),
        r.1@ == name_at(state.src(), state.pos()).1,
{
    name_here(skip(state))
}

/// Reads an identifier of at least one character.
pub fn name1<'a>(state: State<'a>) -> (r: Answer<'a, String>)
    requires
        state.wf(),
    ensures
        match r {
            Ok((next, name)) => state.moved_to(next, next.pos()) && name1_at(
                state.src(),
                state.pos(),
            ) == Ok::<(int, Seq<char>), Expected>((next.pos(), name@)),
            Err(e) => name1_at(state.src(), state.pos()) == Err::<(int, Seq<char>), Expected>(e@),
        },
{
    let (next, name) = name(state);
    if name.as_str().is_empty() {
        expected("name", state)
    } else {
        Ok((next, name))
    }
}

/// The next significant character, and the state behind it; NUL and the end
/// of the text where there is none.
pub fn get_char<'a>(state: State<'a>) -> (r: (State<'a>, char))
    requires
        state.wf(),
    ensures
        r.1 == char_at(state.src(), skipped(state.src(), state.pos())),
        state.moved_to(
            r.0,
            if skipped(state.src(), state.pos()) < state.src().len() {
                skipped(state.src(), state.pos()) + 1
            } else {
                skipped(state.src(), state.pos())
            },
        ),
{
    let from = skip(state);
    (tail(from), head(from))
}

/// Passes over insignificant characters and tells whether the text ends there.
pub fn done<'a>(state: State<'a>) -> (r: (State<'a>, bool))
    requires
        state.wf(),
    ensures
        state.moved_to(r.0, skipped(state.src(), state.pos())),
        r.1 == (r.0.pos() >= state.src().len()),
{
    let next = skip(state);
    (next, next.index >= next.code.len())
}

} // verus!
