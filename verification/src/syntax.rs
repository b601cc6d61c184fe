//! Syntaxes: the forms that a command can be written in.
//!
//! A syntax is a sequence of elements, each a literal word or a named slot for
//! an argument of some kind. A line matches a syntax when it goes on, behind
//! the command's name, with the elements in their order, each one set off by
//! whitespace from what stands before it, and ends behind the last of them.
//! A slot of kind [`ArgumentKind::Unit`] is no token: it reads nothing and
//! needs no whitespace.

use vstd::prelude::*;
use vstd::string::StringExecFns;
use crate::argument::ArgumentValue;
use crate::arguments::CommandArgs;
use crate::grammar::ArgumentKind;
use crate::grammar::IntegerKind;
use crate::grammar::parse_kind;
use crate::grammar::Value;
use crate::parser::CommandParser;
use crate::parser::Failure;
use crate::parser::match_end;
use crate::parser::match_literal;
use crate::parser::match_spacing;
use crate::parser::outcome;
use crate::parser::Parsed;
use crate::parser::ParseError;

verus! {

/// The mathematical content of a [`CommandSyntax`].
pub enum Element {
    Literal(Seq<char>),
    Argument(Seq<char>, ArgumentKind),
}

/// One element of a syntax.
#[derive(Debug, Clone, PartialEq, Eq)]
pub enum CommandSyntax {
    /// A word that the line must hold as it is.
    Literal(String),
    /// A slot for an argument: its name and its kind.
    Argument(String, ArgumentKind),
}

impl View for CommandSyntax {
    type V = Element;

    open spec fn view(&self) -> Element {
        match self {
            CommandSyntax::Literal(text) => Element::Literal(text@),
            CommandSyntax::Argument(name, kind) => Element::Argument(name@, *kind),
        }
    }
}

impl DeepView for CommandSyntax {
    type V = Element;

    open spec fn deep_view(&self) -> Element {
        self@
    }
}

/// The values read so far, by the names of their slots.
pub type Store = Map<Seq<char>, Value>;

/// What matching one element at `offset` yields: the store with what the
/// element has read, and the offset behind the element.
pub open spec fn match_element(
    element: Element,
    source: Seq<char>,
    offset: nat,
    store: Store,
) -> Parsed<Store> {
    match element {
        Element::Literal(text) => match match_spacing(source, offset) {
            Ok((_, at)) => match match_literal(source, at, text) {
                Ok((_, end)) => Ok((store, end)),
                Err(failure) => Err(failure),
            },
            Err(failure) => Err(failure),
        },
        Element::Argument(name, ArgumentKind::Unit) => Ok((store.insert(name, Value::Unit), offset)),
        Element::Argument(name, kind) => match match_spacing(source, offset) {
            Ok((_, at)) => match parse_kind(kind, source, at) {
                Ok((value, end)) => Ok((store.insert(name, value), end)),
                Err(failure) => Err(failure),
            },
            Err(failure) => Err(failure),
        },
    }
}

/// What matching the elements of `syntax` in their order yields, from
/// `offset` on and with `store` to begin with. The first element that fails
/// ends the match with its failure.
pub open spec fn match_elements(
    syntax: Seq<Element>,
    source: Seq<char>,
    offset: nat,
    store: Store,
) -> Parsed<Store>
    decreases syntax.len(),
{
    if syntax.len() == 0 {
        Ok((store, offset))
    } else {
        match match_element(syntax[0], source, offset, store) {
            Ok((bound, next)) => match_elements(syntax.drop_first(), source, next, bound),
            Err(failure) => Err(failure),
        }
    }
}

/// What matching a whole syntax yields: the values of its slots, if the line
/// holds all its elements from `offset` on and ends behind them.
pub open spec fn match_syntax(syntax: Seq<Element>, source: Seq<char>, offset: nat) -> Result<
    Store,
    Failure,
> {
    match match_elements(syntax, source, offset, Map::empty()) {
        Ok((store, end)) => match match_end(source, end) {
            Ok(_) => Ok(store),
            Err(failure) => Err(failure),
        },
        Err(failure) => Err(failure),
    }
}

/// The name under which a kind of argument is shown in a usage line.
pub open spec fn kind_name(kind: ArgumentKind) -> Seq<char> {
    match kind {
        ArgumentKind::Unit => "()"@,
        ArgumentKind::Integer(IntegerKind::U8) => "u8"@,
        ArgumentKind::Integer(IntegerKind::U16) => "u16"@,
        ArgumentKind::Integer(IntegerKind::U32) => "u32"@,
        ArgumentKind::Integer(IntegerKind::U64) => "u64"@,
        ArgumentKind::Integer(IntegerKind::U128) => "u128"@,
        ArgumentKind::Integer(IntegerKind::Usize) => "usize"@,
        ArgumentKind::Integer(IntegerKind::I8) => "i8"@,
        ArgumentKind::Integer(IntegerKind::I16) => "i16"@,
        ArgumentKind::Integer(IntegerKind::I32) => "i32"@,
        ArgumentKind::Integer(IntegerKind::I64) => "i64"@,
        ArgumentKind::Integer(IntegerKind::I128) => "i128"@,
        ArgumentKind::Integer(IntegerKind::Isize) => "isize"@,
        ArgumentKind::Decimal => "f64"@,
        ArgumentKind::Text => "String"@,
        ArgumentKind::Word => "str"@,
    }
}

/// How one element is shown in a usage line: a literal as it is, a slot as
/// its name and kind between angle brackets.
pub open spec fn usage_token(element: Element) -> Seq<char> {
    match element {
        Element::Literal(text) => text,
        Element::Argument(name, kind) => "<"@ + name + ": "@ + kind_name(kind) + ">"@,
    }
}

/// The usage line of a syntax: its elements as they are shown, with one
/// space between them.
pub open spec fn usage_text(syntax: Seq<Element>) -> Seq<char>
    decreases syntax.len(),
{
    if syntax.len() == 0 {
        Seq::empty()
    } else if syntax.len() == 1 {
        usage_token(syntax[0])
    } else {
        usage_text(syntax.drop_last()) + " "@ + usage_token(syntax.last())
    }
}

impl ArgumentKind {
    /// The name under which this kind is shown in a usage line.
    pub fn name(self) -> (name: &'static str)
        ensures
            name@ == kind_name(self),
    {
        match self {
            ArgumentKind::Unit => "()",
            ArgumentKind::Integer(IntegerKind::U8) => "u8",
            ArgumentKind::Integer(IntegerKind::U16) => "u16",
            ArgumentKind::Integer(IntegerKind::U32) => "u32",
            ArgumentKind::Integer(IntegerKind::U64) => "u64",
            ArgumentKind::Integer(IntegerKind::U128) => "u128",
            ArgumentKind::Integer(IntegerKind::Usize) => "usize",
            ArgumentKind::Integer(IntegerKind::I8) => "i8",
            ArgumentKind::Integer(IntegerKind::I16) => "i16",
            ArgumentKind::Integer(IntegerKind::I32) => "i32",
            ArgumentKind::Integer(IntegerKind::I64) => "i64",
            ArgumentKind::Integer(IntegerKind::I128) => "i128",
            ArgumentKind::Integer(IntegerKind::Isize) => "isize",
            ArgumentKind::Decimal => "f64",
            ArgumentKind::Text => "String",
            ArgumentKind::Word => "str",
        }
    }
}

impl CommandSyntax {
    /// Matches this element where the parser stands, and puts what it reads
    /// into `args`.
    pub fn apply<'a>(&self, parser: &mut CommandParser<'a>, args: &mut CommandArgs) -> (r: Result<
        (),
        ParseError<'a>,
    >)
        ensures
            final(parser)@.wf(),
            outcome(
                old(parser)@,
                final(parser)@,
                match_element(self@, old(parser)@.source, old(parser)@.offset, old(args)@),
                match r {
                    Ok(_) => Ok(final(args)@),
                    Err(e) => Err(e),
                },
            ),
            r is Err ==> final(args)@ == old(args)@,
    {
        match self {
            CommandSyntax::Literal(text) => {
                match parser.spacing() {
                    Ok(_) => {},
                    Err(e) => {
                        return Err(e);
                    },
                }
                parser.lit(text.as_str())
            },
            CommandSyntax::Argument(name, kind) => {
                match kind {
                    ArgumentKind::Unit => {},
                    _ => {
                        match parser.spacing() {
                            Ok(_) => {},
                            Err(e) => {
                                return Err(e);
                            },
                        }
                    },
                }
                match ArgumentValue::parse(*kind, parser) {
                    Ok(value) => {
                        args.insert(name.as_str(), value);
                        Ok(())
                    },
                    Err(e) => Err(e),
                }
            },
        }
    }

    /// How this element is shown in a usage line.
    pub fn usage(&self) -> (shown: String)
        ensures
            shown@ == usage_token(self@),
    {
        match self {
            CommandSyntax::Literal(text) => text.clone(),
            CommandSyntax::Argument(name, kind) => {
                let mut shown = String::from_str("<");
                shown.append(name.as_str());
                shown.append(": ");
                shown.append(kind.name());
                shown.append(">");
                shown
            },
        }
    }
}

/// Matches a whole syntax from where the parser stands to the line's end.
/// Returns the values of the slots, or the failure of the first element that
/// does not match.
pub fn apply_syntax<'a>(syntax: &Vec<CommandSyntax>, parser: &mut CommandParser<'a>) -> (r: Result<
    CommandArgs,
    ParseError<'a>,
>)
    ensures
        final(parser)@.wf(),
        final(parser)@.source == old(parser)@.source,
        match match_syntax(syntax.deep_view(), old(parser)@.source, old(parser)@.offset) {
            Ok(store) => {
                &&& r matches Ok(args)
                &&& args@ == store
                &&& final(parser)@.offset == old(parser)@.source.len()
            },
            Err(failure) => {
                &&& r matches Err(e)
                &&& e.reports(old(parser)@.source, failure)
                &&& final(parser)@.offset == failure.offset
            },
        },
{
    let ghost source = parser@.source;
    let ghost offset = parser@.offset;
    let ghost elements = syntax.deep_view();
    let mut args = CommandArgs::new();
    let mut i: usize = 0;
    let at: usize = parser.offset();
    assert(elements.skip(0) =~= elements);
    while i < syntax.len()
        invariant
            i <= syntax.len(),
            elements == syntax.deep_view(),
            source == old(parser)@.source,
            offset == old(parser)@.offset,
            parser@.source == source,
            parser@.wf(),
            match_elements(elements, source, offset, Map::empty()) == match_elements(
                elements.skip(i as int),
                source,
                parser@.offset,
                args@,
            ),
        decreases syntax.len() - i,
    {
        proof {
            assert(elements.skip(i as int).drop_first() =~= elements.skip(i + 1));
            assert(elements.skip(i as int)[0] == syntax[i as int]@);
        }
        match syntax[i].apply(parser, &mut args) {
            Ok(_) => {},
            Err(e) => {
                return Err(e);
            },
        }
        i = i + 1;
    }
    match parser.end() {
        Ok(_) => Ok(args),
        Err(e) => Err(e),
    }
}

/// Builds the usage line of a syntax.
pub fn build_usage_string(syntax: &Vec<CommandSyntax>) -> (usage: String)
    ensures
        usage@ == usage_text(syntax.deep_view()),
{
    let ghost elements = syntax.deep_view();
    let mut usage = String::new();
    let mut i: usize = 0;
    assert(elements.take(0) =~= Seq::<Element>::empty());
    while i < syntax.len()
        invariant
            i <= syntax.len(),
            elements == syntax.deep_view(),
            usage@ == usage_text(elements.take(i as int)),
        decreases syntax.len() - i,
    {
        proof {
            let longer = elements.take(i + 1);
            assert(longer.drop_last() =~= elements.take(i as int));
            assert(longer.last() == syntax[i as int]@);
            assert(Seq::<char>::empty() + usage_token(longer.last()) =~= usage_token(longer.last()));
        }
        if i > 0 {
            usage.append(" ");
        }
        let shown = syntax[i].usage();
        usage.append(shown.as_str());
        i = i + 1;
    }
    assert(elements.take(i as int) =~= elements);
    usage
}

} // verus!
