//! Checkpoints: the matchers that the nodes of a command tree apply to the
//! input that is left for them.
//!
//! A checkpoint looks at the start of its input only. It says how many
//! characters it takes, and puts what it reads into the argument store.

use vstd::prelude::*;
use crate::argument::ArgumentValue;
use crate::arguments::CommandArgs;
use crate::grammar::ArgumentKind;
use crate::grammar::parse_kind;
use crate::parser::CommandParser;
use crate::parser::ParseErrorKind;
use crate::parser::starts_with_at;
use crate::syntax::Store;

verus! {

/// Why an input does not match.
#[derive(Clone, PartialEq, Eq, Debug)]
pub enum MatchError<'a> {
    /// The input ended where more was required.
    EndOfInput,
    /// The input goes on with something else, which is given.
    InvalidInput(&'a str),
}

/// The mathematical content of a [`MatchError`].
pub enum Mismatch {
    EndOfInput,
    InvalidInput(Seq<char>),
}

impl<'a> View for MatchError<'a> {
    type V = Mismatch;

    open spec fn view(&self) -> Mismatch {
        match self {
            MatchError::EndOfInput => Mismatch::EndOfInput,
            MatchError::InvalidInput(found) => Mismatch::InvalidInput(found@),
        }
    }
}

/// Used to validate input and extract arguments from it.
#[derive(Clone, PartialEq, Eq, Debug)]
pub enum Checkpoint {
    /// The input must begin with this text.
    Literal(String),
    /// The input must begin with an argument of this kind, which is kept
    /// under this name.
    Argument(String, ArgumentKind),
    /// Any input will do, and none of it is taken.
    Wildcard,
}

/// The mathematical content of a [`Checkpoint`].
pub enum Matcher {
    Literal(Seq<char>),
    Argument(Seq<char>, ArgumentKind),
    Wildcard,
}

impl View for Checkpoint {
    type V = Matcher;

    open spec fn view(&self) -> Matcher {
        match self {
            Checkpoint::Literal(text) => Matcher::Literal(text@),
            Checkpoint::Argument(name, kind) => Matcher::Argument(name@, *kind),
            Checkpoint::Wildcard => Matcher::Wildcard,
        }
    }
}

/// The start of `input` that is shown where the literal `text` was expected:
/// as many characters as the literal has, or all there are.
pub open spec fn mistaken(input: Seq<char>, text: Seq<char>) -> Seq<char> {
    if text.len() <= input.len() {
        input.take(text.len() as int)
    } else {
        input
    }
}

/// What applying a matcher to `input` yields: the number of characters that
/// it takes and the store with what it has read.
///
/// A literal takes its own length where the input begins with it; an empty
/// input is at its end, any other input is invalid. An argument takes what
/// its kind reads; where the kind runs out of input, the input is at its
/// end, and any other failure makes it invalid.
pub open spec fn apply_matcher(matcher: Matcher, input: Seq<char>, store: Store) -> Result<
    (nat, Store),
    Mismatch,
> {
    match matcher {
        Matcher::Literal(text) => if input.len() == 0 {
            Err(Mismatch::EndOfInput)
        } else if starts_with_at(input, 0, text) {
            Ok((text.len(), store))
        } else {
            Err(Mismatch::InvalidInput(mistaken(input, text)))
        },
        Matcher::Argument(name, kind) => match parse_kind(kind, input, 0) {
            Ok((value, end)) => Ok((end, store.insert(name, value))),
            Err(failure) => if failure.kind == ParseErrorKind::UnexpectedEof {
                Err(Mismatch::EndOfInput)
            } else {
                Err(Mismatch::InvalidInput(input))
            },
        },
        Matcher::Wildcard => Ok((0, store)),
    }
}

impl Checkpoint {
    /// Applies this checkpoint to the start of `input`. Returns the number
    /// of characters that it takes; what an argument reads goes into `args`,
    /// which a mismatch leaves as it was.
    pub fn apply<'a>(&self, input: &'a str, args: &mut CommandArgs) -> (r: Result<
        usize,
        MatchError<'a>,
    >)
        ensures
            match apply_matcher(self@, input@, old(args)@) {
                Ok((taken, store)) => r == Ok::<usize, MatchError<'a>>(taken as usize) && taken
                    <= input@.len() && final(args)@ == store,
                Err(mismatch) => r matches Err(e) && e@ == mismatch && final(args)@ == old(args)@,
            },
    {
        match self {
            Checkpoint::Literal(text) => {
                let mut parser = CommandParser::new(input);
                let length: usize = parser.remaining();
                if length == 0 {
                    return Err(MatchError::EndOfInput);
                }
                match parser.lit(text.as_str()) {
                    Ok(_) => Ok(parser.offset()),
                    Err(_) => {
                        let expected: usize = CommandParser::new(text.as_str()).remaining();
                        let shown: usize = if expected <= length {
                            expected
                        } else {
                            length
                        };
                        let start = parser.branch();
                        parser.advance(shown);
                        proof {
                            assert(input@.subrange(0, shown as int) =~= mistaken(input@, text@));
                        }
                        Err(MatchError::InvalidInput(parser.since(&start)))
                    },
                }
            },
            Checkpoint::Argument(name, kind) => {
                let mut parser = CommandParser::new(input);
                match ArgumentValue::parse(*kind, &mut parser) {
                    Ok(value) => {
                        args.insert(name.as_str(), value);
                        Ok(parser.offset())
                    },
                    Err(e) => match e.kind {
                        ParseErrorKind::UnexpectedEof => Err(MatchError::EndOfInput),
                        _ => Err(MatchError::InvalidInput(input)),
                    },
                }
            },
            Checkpoint::Wildcard => Ok(0),
        }
    }
}

} // verus!
