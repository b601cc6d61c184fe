//! The cursor that every matcher reads the command line through, and the
//! errors it reports.
//!
//! A [`CommandParser`] is a command line together with a read offset. The
//! offset counts characters, never leaves the line, and only moves through the
//! cursor's own operations. A copy made with [`CommandParser::branch`] moves
//! on its own, which is what lets a caller try one syntax after another.
//!
//! What each operation does is a function of the line and the offset. These
//! functions stand first in this file; the operations are proved against
//! them.

use vstd::prelude::*;
use vstd::string::StringExecFns;
use vstd::string::StrSliceExecFns;
use vstd::utf8::encode_utf8;
pub use crate::argument::Argument;
use crate::chars::is_separator;
use crate::chars::whitespace;
use crate::encoding::byte_offset;
use crate::encoding::char_at;
use crate::encoding::char_width;
use crate::encoding::lemma_byte_offset_step;
use crate::encoding::lemma_encode_split;
use crate::encoding::slice;

verus! {

/// Why a command line was not understood.
#[derive(Debug, Clone, Copy, PartialEq, Eq, Structural)]
pub enum ParseErrorKind {
    /// No command is registered under the name that the line begins with.
    UnknownCommand,
    /// The line ended where more input was required.
    UnexpectedEof,
    /// The line goes on where its end was required.
    ExpectedEof,
    /// An argument could not be read: no digits, or a number out of range.
    BadArgument,
    /// The line does not go on with the literal that was required.
    BadLiteral,
    /// Two tokens are not separated by whitespace.
    ExpectedWhitespace,
}

/// Where a parse fails, and why.
pub struct Failure {
    pub offset: nat,
    pub kind: ParseErrorKind,
}

/// What a parse yields: a value and the offset behind it, or a failure.
pub type Parsed<V> = Result<(V, nat), Failure>;

/// The mathematical content of a [`CommandParser`]: the characters of the
/// line and the number of them that have been consumed.
pub struct Cursor {
    pub source: Seq<char>,
    pub offset: nat,
}

impl Cursor {
    /// The offset lies inside the line or at its end, and the line is one
    /// that the machine can hold.
    pub open spec fn wf(self) -> bool {
        self.offset <= self.source.len() <= usize::MAX
    }

    /// The same line, read up to `offset`.
    pub open spec fn at(self, offset: nat) -> Cursor {
        Cursor { source: self.source, offset }
    }

    /// The failure of kind `kind` at this cursor's offset.
    pub open spec fn failure(self, kind: ParseErrorKind) -> Failure {
        Failure { offset: self.offset, kind }
    }
}

/// Whether `source` goes on with `text` at `offset`.
pub open spec fn starts_with_at(source: Seq<char>, offset: nat, text: Seq<char>) -> bool {
    &&& offset + text.len() <= source.len()
    &&& source.subrange(offset as int, offset + text.len() as int) == text
}

/// The offset at which the longest run of accepted characters that begins at
/// `offset` ends.
pub open spec fn scan_while(source: Seq<char>, offset: nat, accept: spec_fn(char) -> bool) -> nat
    decreases source.len() - offset,
{
    if offset < source.len() && accept(source[offset as int]) {
        scan_while(source, offset + 1, accept)
    } else {
        offset
    }
}

/// A scan stops inside the line, behind accepted characters only, and in
/// front of a character that is not accepted.
pub proof fn lemma_scan_while(source: Seq<char>, offset: nat, accept: spec_fn(char) -> bool)
    requires
        offset <= source.len(),
    ensures
        offset <= scan_while(source, offset, accept) <= source.len(),
        forall|i: int| offset <= i < scan_while(source, offset, accept) ==> accept(#[trigger] source[i]),
        scan_while(source, offset, accept) < source.len() ==> !accept(
            source[scan_while(source, offset, accept) as int],
        ),
    decreases source.len() - offset,
{
    if offset < source.len() && accept(source[offset as int]) {
        lemma_scan_while(source, offset + 1, accept);
    }
}

/// The end of a scan is the only offset that lies behind accepted characters
/// and in front of the line's end or a character that is not accepted.
pub proof fn lemma_scan_while_unique(
    source: Seq<char>,
    offset: nat,
    end: nat,
    accept: spec_fn(char) -> bool,
)
    requires
        offset <= end <= source.len(),
        forall|i: int| offset <= i < end ==> accept(#[trigger] source[i]),
        end < source.len() ==> !accept(source[end as int]),
    ensures
        scan_while(source, offset, accept) == end,
    decreases end - offset,
{
    if offset < end {
        lemma_scan_while_unique(source, offset + 1, end, accept);
    }
}

/// What matching the literal `text` at `offset` yields: the offset behind
/// it, or `BadLiteral` where the line does not go on with it.
pub open spec fn match_literal(source: Seq<char>, offset: nat, text: Seq<char>) -> Parsed<()> {
    if starts_with_at(source, offset, text) {
        Ok(((), offset + text.len()))
    } else {
        Err(Failure { offset, kind: ParseErrorKind::BadLiteral })
    }
}

/// What consuming a separator at `offset` yields: the offset behind the
/// whitespace, or `ExpectedWhitespace` where there is none.
pub open spec fn match_spacing(source: Seq<char>, offset: nat) -> Parsed<()> {
    let end = scan_while(source, offset, whitespace());
    if end > offset {
        Ok(((), end))
    } else {
        Err(Failure { offset, kind: ParseErrorKind::ExpectedWhitespace })
    }
}

/// What expecting the end of the line at `offset` yields.
pub open spec fn match_end(source: Seq<char>, offset: nat) -> Parsed<()> {
    if offset == source.len() {
        Ok(((), offset))
    } else {
        Err(Failure { offset, kind: ParseErrorKind::ExpectedEof })
    }
}

/// A parsing step that found the cursor at `before`, left it at `after` and
/// returned `got` did what `expected` says: on success it returned the value
/// and stands behind it; on failure it reports the failure on the same line
/// and stands where it failed.
pub open spec fn outcome<'a, V>(
    before: Cursor,
    after: Cursor,
    expected: Parsed<V>,
    got: Result<V, ParseError<'a>>,
) -> bool {
    &&& after.source == before.source
    &&& match expected {
        Ok((value, end)) => got == Ok::<V, ParseError<'a>>(value) && after.offset == end,
        Err(failure) => {
            &&& after.offset == failure.offset
            &&& got matches Err(e)
            &&& e.reports(before.source, failure)
        },
    }
}

/// The snippet of the line that a message about `offset` shows: up to ten
/// characters on either side.
pub open spec fn snippet(source: Seq<char>, offset: nat) -> Seq<char> {
    let len = source.len() as int;
    let start = if offset <= 10 {
        0
    } else if offset - 10 <= len {
        offset - 10
    } else {
        len
    };
    let end = if offset + 10 <= len {
        offset as int + 10
    } else {
        len
    };
    source.subrange(start, end)
}

/// The text that describes a failure of kind `kind` at `offset` of `source`.
pub open spec fn message_text(source: Seq<char>, offset: nat, kind: ParseErrorKind) -> Seq<char> {
    match kind {
        ParseErrorKind::UnknownCommand => "Unknown command: `"@ + snippet(source, offset) + "`"@,
        ParseErrorKind::UnexpectedEof => "Unexpected end of command"@,
        ParseErrorKind::ExpectedEof => "Expected end of command"@,
        ParseErrorKind::BadArgument => "Bad argument"@,
        ParseErrorKind::BadLiteral => "Bad literal"@,
        ParseErrorKind::ExpectedWhitespace => "Expected whitespace"@,
    }
}

/// An error that occurs during parsing: the line, the offset at which it was
/// not understood, counted in characters, and the reason.
#[derive(Debug)]
pub struct ParseError<'a> {
    pub command: &'a str,
    pub offset: usize,
    pub kind: ParseErrorKind,
}

impl<'a> View for ParseError<'a> {
    type V = Failure;

    open spec fn view(&self) -> Failure {
        Failure { offset: self.offset as nat, kind: self.kind }
    }
}

impl<'a> ParseError<'a> {
    /// This error reports `failure` on the line `source`.
    pub open spec fn reports(&self, source: Seq<char>, failure: Failure) -> bool {
        self.command@ == source && self@ == failure
    }

    /// Renders the error for a reader. An unknown command is shown with the
    /// part of the line around the offset.
    pub fn message(&self) -> (text: String)
        ensures
            text@ == message_text(self.command@, self.offset as nat, self.kind),
    {
        match self.kind {
            ParseErrorKind::UnknownCommand => {
                let mut parser = CommandParser::new(self.command);
                let len: usize = parser.remaining();
                let before: usize = if self.offset <= 10 {
                    0
                } else {
                    self.offset - 10
                };
                let start: usize = if before <= len {
                    before
                } else {
                    len
                };
                let end: usize = if self.offset <= len && len - self.offset >= 10 {
                    self.offset + 10
                } else {
                    len
                };
                parser.advance(start);
                let shown = parser.branch();
                parser.advance(end - start);
                let mut text = String::from_str("Unknown command: `");
                text.append(parser.since(&shown));
                text.append("`");
                text
            },
            ParseErrorKind::UnexpectedEof => String::from_str("Unexpected end of command"),
            ParseErrorKind::ExpectedEof => String::from_str("Expected end of command"),
            ParseErrorKind::BadArgument => String::from_str("Bad argument"),
            ParseErrorKind::BadLiteral => String::from_str("Bad literal"),
            ParseErrorKind::ExpectedWhitespace => String::from_str("Expected whitespace"),
        }
    }
}

/// Helper to parse command syntax: a command line and a read offset into it.
///
/// The offset counts characters. Beside it the parser keeps the number of
/// bytes that the characters read so far take in the line, so that the next
/// character is at hand without a walk from the start.
pub struct CommandParser<'a> {
    command: &'a str,
    length: usize,
    offset: usize,
    position: usize,
}

impl<'a> View for CommandParser<'a> {
    type V = Cursor;

    closed spec fn view(&self) -> Cursor {
        Cursor { source: self.command@, offset: self.offset as nat }
    }
}

impl<'a> CommandParser<'a> {
    #[verifier::type_invariant]
    spec fn well_formed(self) -> bool {
        &&& self.length == self.command@.len()
        &&& self.offset <= self.length
        &&& self.position == byte_offset(self.command@, self.offset as int)
        &&& encode_utf8(self.command@).len() <= usize::MAX
    }

    /// Create a parser for the given command, at its first character.
    pub fn new(command: &'a str) -> (parser: Self)
        ensures
            parser@ == (Cursor { source: command@, offset: 0 }),
            parser@.wf(),
    {
        let length: usize = command.unicode_len();
        let size: usize = command.as_bytes().len();
        proof {
            assert(command@.take(0) =~= Seq::<char>::empty());
        }
        CommandParser { command, length, offset: 0, position: 0 }
    }

    /// The command line that this parser reads.
    pub fn command(&self) -> (command: &'a str)
        ensures
            command@ == self@.source,
    {
        self.command
    }

    /// The number of characters consumed so far.
    pub fn offset(&self) -> (offset: usize)
        ensures
            offset == self@.offset,
            self@.wf(),
    {
        proof {
            use_type_invariant(self);
        }
        self.offset
    }

    /// The number of characters that are left to read.
    pub fn remaining(&self) -> (left: usize)
        ensures
            left == self@.source.len() - self@.offset,
            self@.wf(),
    {
        proof {
            use_type_invariant(self);
        }
        self.length - self.offset
    }

    /// What is left to read of the line.
    pub fn rest(&self) -> (rest: &'a str)
        ensures
            rest@ == self@.source.skip(self@.offset as int),
            self@.wf(),
    {
        proof {
            use_type_invariant(self);
            lemma_encode_split(self.command@, self.length as int);
            assert(self.command@.take(self.length as int) =~= self.command@);
            assert(self.command@.subrange(self.offset as int, self.length as int)
                =~= self.command@.skip(self.offset as int));
        }
        slice(
            self.command,
            self.position,
            self.command.as_bytes().len(),
            Ghost(self.offset as int),
            Ghost(self.length as int),
        )
    }

    /// What this parser has read since it stood where `mark` stands, which
    /// is an earlier copy of it.
    pub fn since(&self, mark: &CommandParser<'a>) -> (read: &'a str)
        requires
            mark@.source == self@.source,
            mark@.offset <= self@.offset,
        ensures
            read@ == self@.source.subrange(mark@.offset as int, self@.offset as int),
            self@.wf(),
    {
        proof {
            use_type_invariant(self);
            use_type_invariant(mark);
        }
        slice(
            self.command,
            mark.position,
            self.position,
            Ghost(mark.offset as int),
            Ghost(self.offset as int),
        )
    }

    /// The next character, if the line goes on. The parser does not move.
    pub fn peek(&self) -> (next: Option<char>)
        ensures
            self@.wf(),
            next == if self@.offset < self@.source.len() {
                Some(self@.source[self@.offset as int])
            } else {
                None
            },
    {
        proof {
            use_type_invariant(self);
        }
        if self.offset < self.length {
            Some(char_at(self.command, self.position, Ghost(self.offset as int)))
        } else {
            None
        }
    }

    /// Moves behind the next character, which is `c`.
    fn step(&mut self, c: char)
        requires
            old(self)@.offset < old(self)@.source.len(),
            c == old(self)@.source[old(self)@.offset as int],
        ensures
            final(self)@ == old(self)@.at(old(self)@.offset + 1),
    {
        proof {
            use_type_invariant(&*self);
            lemma_byte_offset_step(self.command@, self.offset as int);
            lemma_encode_split(self.command@, self.offset as int + 1);
        }
        let width: usize = char_width(c);
        *self = CommandParser {
            command: self.command,
            length: self.length,
            offset: self.offset + 1,
            position: self.position + width,
        };
    }

    /// Match the given literal to the command, advancing the parser if
    /// successful. Returns an error, and stays, if the line does not go on
    /// with the literal.
    pub fn lit(&mut self, lit: &str) -> (r: Result<(), ParseError<'a>>)
        ensures
            final(self)@.wf(),
            outcome(
                old(self)@,
                final(self)@,
                match_literal(old(self)@.source, old(self)@.offset, lit@),
                r,
            ),
    {
        proof {
            use_type_invariant(&*self);
        }
        let mut expected = CommandParser::new(lit);
        if expected.remaining() > self.remaining() {
            return Err(self.error(ParseErrorKind::BadLiteral));
        }
        let mut found = self.branch();
        while expected.remaining() > 0
            invariant
                expected@.source == lit@,
                expected@.wf(),
                found@.source == self@.source,
                found@.offset == self@.offset + expected@.offset,
                self@ == old(self)@,
                self@.offset + lit@.len() <= self@.source.len(),
                forall|j: int|
                    0 <= j < expected@.offset ==> self@.source[self@.offset + j] == lit@[j],
            decreases lit@.len() - expected@.offset,
        {
            let theirs: char = match expected.peek() {
                Some(c) => c,
                None => {
                    return Err(self.error(ParseErrorKind::BadLiteral));
                },
            };
            let ours: char = match found.peek() {
                Some(c) => c,
                None => {
                    return Err(self.error(ParseErrorKind::BadLiteral));
                },
            };
            if ours != theirs {
                proof {
                    let taken = self@.source.subrange(
                        self@.offset as int,
                        (self@.offset + lit@.len()) as int,
                    );
                    assert(taken[expected@.offset as int] != lit@[expected@.offset as int]);
                }
                return Err(self.error(ParseErrorKind::BadLiteral));
            }
            expected.step(theirs);
            found.step(ours);
        }
        proof {
            assert(self@.source.subrange(
                self@.offset as int,
                (self@.offset + lit@.len()) as int,
            ) =~= lit@);
        }
        *self = found;
        Ok(())
    }

    /// Parse an argument of the given type. See the [`Argument`] trait for
    /// more information.
    pub fn argument<A: Argument>(&mut self) -> (r: Result<A, ParseError<'a>>)
        ensures
            final(self)@.wf(),
            outcome(
                old(self)@,
                final(self)@,
                A::grammar(old(self)@.source, old(self)@.offset),
                match r {
                    Ok(read) => Ok(read.value()),
                    Err(e) => Err(e),
                },
            ),
    {
        A::parse(self)
    }

    /// Advance the parser by the given number of characters, which the caller
    /// has read already (a sign that it peeked at).
    pub fn advance(&mut self, n: usize)
        requires
            old(self)@.offset + n <= old(self)@.source.len(),
        ensures
            final(self)@ == old(self)@.at((old(self)@.offset + n) as nat),
    {
        let mut i: usize = 0;
        while i < n
            invariant
                i <= n,
                old(self)@.offset + n <= old(self)@.source.len(),
                self@ == old(self)@.at((old(self)@.offset + i) as nat),
            decreases n - i,
        {
            match self.peek() {
                Some(c) => {
                    self.step(c);
                },
                None => {},
            }
            i = i + 1;
        }
    }

    /// Consume whitespace, of which there must be one character at least.
    pub fn spacing(&mut self) -> (r: Result<(), ParseError<'a>>)
        ensures
            final(self)@.wf(),
            outcome(
                old(self)@,
                final(self)@,
                match_spacing(old(self)@.source, old(self)@.offset),
                r,
            ),
    {
        let ghost before = self@;
        let start: usize = self.offset();
        let is_space = |c: char| -> (b: bool)
            ensures
                b == is_separator(c),
            { c.is_whitespace() };
        let spacing = self.read_while(is_space);
        proof {
            lemma_scan_while_unique(before.source, before.offset, self@.offset, whitespace());
        }
        if self.offset() == start {
            Err(self.error(ParseErrorKind::ExpectedWhitespace))
        } else {
            Ok(())
        }
    }

    /// Read characters from the command while the given predicate accepts
    /// them. Returns the characters read.
    pub fn read_while<F: Fn(char) -> bool>(&mut self, f: F) -> (read: &'a str)
        requires
            forall|c: char| call_requires(f, (c,)),
        ensures
            final(self)@.source == old(self)@.source,
            old(self)@.offset <= final(self)@.offset <= old(self)@.source.len(),
            read@ == old(self)@.source.subrange(
                old(self)@.offset as int,
                final(self)@.offset as int,
            ),
            forall|i: int|
                old(self)@.offset <= i < final(self)@.offset ==> call_ensures(
                    f,
                    (#[trigger] old(self)@.source[i],),
                    true,
                ),
            final(self)@.offset < old(self)@.source.len() ==> call_ensures(
                f,
                (old(self)@.source[final(self)@.offset as int],),
                false,
            ),
    {
        let start = self.branch();
        loop
            invariant
                self@.source == old(self)@.source,
                start@ == old(self)@,
                start@.offset <= self@.offset <= self@.source.len(),
                forall|c: char| call_requires(f, (c,)),
                forall|i: int|
                    start@.offset <= i < self@.offset ==> call_ensures(
                        f,
                        (#[trigger] self@.source[i],),
                        true,
                    ),
            ensures
                self@.source == old(self)@.source,
                start@ == old(self)@,
                start@.offset <= self@.offset <= self@.source.len(),
                forall|i: int|
                    start@.offset <= i < self@.offset ==> call_ensures(
                        f,
                        (#[trigger] self@.source[i],),
                        true,
                    ),
                self@.offset < self@.source.len() ==> call_ensures(
                    f,
                    (self@.source[self@.offset as int],),
                    false,
                ),
            decreases self@.source.len() - self@.offset,
        {
            let c: char = match self.peek() {
                Some(c) => c,
                None => {
                    break ;
                },
            };
            if f(c) {
                self.step(c);
            } else {
                break ;
            }
        }
        self.since(&start)
    }

    /// Generate and return a `ParseError` at the current position.
    pub fn error(&self, kind: ParseErrorKind) -> (e: ParseError<'a>)
        ensures
            e.reports(self@.source, self@.failure(kind)),
            self@.wf(),
    {
        proof {
            use_type_invariant(self);
        }
        ParseError { command: self.command, offset: self.offset, kind }
    }

    /// Expect the end of the command.
    pub fn end(&mut self) -> (r: Result<(), ParseError<'a>>)
        ensures
            final(self)@.wf(),
            outcome(
                old(self)@,
                final(self)@,
                match_end(old(self)@.source, old(self)@.offset),
                r,
            ),
    {
        proof {
            use_type_invariant(&*self);
        }
        if self.offset == self.length {
            Ok(())
        } else {
            Err(self.error(ParseErrorKind::ExpectedEof))
        }
    }

    /// Create a copy of this parser at the current position. What the copy
    /// reads does not move this parser.
    pub fn branch(&self) -> (copy: Self)
        ensures
            copy@ == self@,
            self@.wf(),
    {
        proof {
            use_type_invariant(self);
        }
        CommandParser {
            command: self.command,
            length: self.length,
            offset: self.offset,
            position: self.position,
        }
    }
}

} // verus!
