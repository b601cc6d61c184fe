//! Typed arguments: the values that a command line yields, and the parsers
//! that read them through a [`CommandParser`].
//!
//! Every parser here is proved against the grammar in [`crate::grammar`]:
//! what it returns and where it leaves the parser is a function of the line
//! and of the offset at which it began.

use vstd::prelude::*;
use vstd::string::StringExecFns;
use crate::chars::digit;
use crate::chars::digit_to_number;
use crate::chars::is_ascii_digit;
use crate::chars::is_digit;
use crate::grammar::ArgumentKind;
use crate::grammar::digits_value;
use crate::grammar::has_digit;
use crate::grammar::has_sign;
use crate::grammar::IntegerKind;
use crate::grammar::lemma_digits_value_push;
use crate::grammar::lemma_has_digit_push;
use crate::grammar::not_space;
use crate::grammar::parse_decimal;
use crate::grammar::parse_integer;
use crate::grammar::parse_kind;
use crate::grammar::parse_text;
use crate::grammar::parse_word;
use crate::grammar::scan_decimal;
use crate::grammar::scan_quoted;
use crate::grammar::signed_value;
use crate::grammar::Value;
use crate::parser::CommandParser;
use crate::parser::lemma_scan_while_unique;
use crate::parser::outcome;
use crate::parser::Parsed;
use crate::parser::ParseError;
use crate::parser::ParseErrorKind;

verus! {

/// A value read from a command line, tagged with its type.
#[derive(Debug, Clone, PartialEq, Eq)]
pub enum ArgumentValue {
    Unit,
    U8(u8),
    U16(u16),
    U32(u32),
    U64(u64),
    U128(u128),
    Usize(usize),
    I8(i8),
    I16(i16),
    I32(i32),
    I64(i64),
    I128(i128),
    Isize(isize),
    /// A decimal number as it was written: whether a minus sign stood in
    /// front, and its digits and point.
    Decimal(bool, String),
    Text(String),
}

impl View for ArgumentValue {
    type V = Value;

    open spec fn view(&self) -> Value {
        match self {
            ArgumentValue::Unit => Value::Unit,
            ArgumentValue::U8(v) => Value::Integer(IntegerKind::U8, *v as int),
            ArgumentValue::U16(v) => Value::Integer(IntegerKind::U16, *v as int),
            ArgumentValue::U32(v) => Value::Integer(IntegerKind::U32, *v as int),
            ArgumentValue::U64(v) => Value::Integer(IntegerKind::U64, *v as int),
            ArgumentValue::U128(v) => Value::Integer(IntegerKind::U128, *v as int),
            ArgumentValue::Usize(v) => Value::Integer(IntegerKind::Usize, *v as int),
            ArgumentValue::I8(v) => Value::Integer(IntegerKind::I8, *v as int),
            ArgumentValue::I16(v) => Value::Integer(IntegerKind::I16, *v as int),
            ArgumentValue::I32(v) => Value::Integer(IntegerKind::I32, *v as int),
            ArgumentValue::I64(v) => Value::Integer(IntegerKind::I64, *v as int),
            ArgumentValue::I128(v) => Value::Integer(IntegerKind::I128, *v as int),
            ArgumentValue::Isize(v) => Value::Integer(IntegerKind::Isize, *v as int),
            ArgumentValue::Decimal(negative, written) => Value::Decimal(*negative, written@),
            ArgumentValue::Text(text) => Value::Text(text@),
        }
    }
}

impl Value {
    /// The kind of argument that this value is read as. A word is kept as
    /// text.
    pub open spec fn kind(self) -> ArgumentKind {
        match self {
            Value::Unit => ArgumentKind::Unit,
            Value::Integer(integer, _) => ArgumentKind::Integer(integer),
            Value::Decimal(_, _) => ArgumentKind::Decimal,
            Value::Text(_) => ArgumentKind::Text,
        }
    }
}

impl IntegerKind {
    /// Whether numbers of this kind may carry a minus sign.
    pub fn is_signed(self) -> (signed: bool)
        ensures
            signed == self.signed(),
    {
        match self {
            IntegerKind::I8
            | IntegerKind::I16
            | IntegerKind::I32
            | IntegerKind::I64
            | IntegerKind::I128
            | IntegerKind::Isize => true,
            _ => false,
        }
    }

    /// The greatest number of this kind.
    pub fn greatest(self) -> (limit: u128)
        ensures
            limit == self.max(),
    {
        match self {
            IntegerKind::U8 => u8::MAX as u128,
            IntegerKind::U16 => u16::MAX as u128,
            IntegerKind::U32 => u32::MAX as u128,
            IntegerKind::U64 => u64::MAX as u128,
            IntegerKind::U128 => u128::MAX,
            IntegerKind::Usize => usize::MAX as u128,
            IntegerKind::I8 => i8::MAX as u128,
            IntegerKind::I16 => i16::MAX as u128,
            IntegerKind::I32 => i32::MAX as u128,
            IntegerKind::I64 => i64::MAX as u128,
            IntegerKind::I128 => i128::MAX as u128,
            IntegerKind::Isize => isize::MAX as u128,
        }
    }

    /// How far below zero the least number of this kind lies.
    pub fn depth(self) -> (limit: u128)
        ensures
            limit == -self.min(),
    {
        match self {
            IntegerKind::I8 => i8::MAX as u128 + 1,
            IntegerKind::I16 => i16::MAX as u128 + 1,
            IntegerKind::I32 => i32::MAX as u128 + 1,
            IntegerKind::I64 => i64::MAX as u128 + 1,
            IntegerKind::I128 => i128::MAX as u128 + 1,
            IntegerKind::Isize => isize::MAX as u128 + 1,
            _ => 0,
        }
    }
}

/// Reads an integer of kind `kind`: its sign and its magnitude. The number
/// lies in the kind's range; one that does not is a `BadArgument`, and so is
/// a place without digits.
pub fn read_integer<'a>(parser: &mut CommandParser<'a>, kind: IntegerKind) -> (r: Result<
    (bool, u128),
    ParseError<'a>,
>)
    ensures
        final(parser)@.wf(),
        outcome(
            old(parser)@,
            final(parser)@,
            parse_integer(kind, old(parser)@.source, old(parser)@.offset),
            match r {
                Ok((negative, magnitude)) => Ok(signed_value(negative, magnitude as nat)),
                Err(e) => Err(e),
            },
        ),
        r matches Ok((negative, magnitude)) ==> kind.holds(signed_value(negative, magnitude as nat))
            && (negative ==> kind.signed()),
{
    let ghost source = parser@.source;
    let ghost offset = parser@.offset;
    let negative: bool = kind.is_signed() && match parser.peek() {
        Some(c) => c == '-',
        None => false,
    };
    assert(negative == has_sign(kind, source, offset));
    if negative {
        parser.advance(1);
    }
    let limit: u128 = if negative {
        kind.depth()
    } else {
        kind.greatest()
    };
    let start: usize = parser.offset();
    let mut magnitude: u128 = 0;
    let mut fits: bool = true;
    loop
        invariant
            parser@.source == source,
            parser@.wf(),
            start <= parser@.offset,
            forall|i: int| start <= i < parser@.offset ==> is_digit(#[trigger] source[i]),
            fits ==> magnitude == digits_value(source.subrange(start as int, parser@.offset as int))
                && magnitude <= limit,
            !fits ==> digits_value(source.subrange(start as int, parser@.offset as int)) > limit,
        ensures
            parser@.source == source,
            parser@.wf(),
            start <= parser@.offset,
            forall|i: int| start <= i < parser@.offset ==> is_digit(#[trigger] source[i]),
            parser@.offset < source.len() ==> !is_digit(source[parser@.offset as int]),
            fits ==> magnitude == digits_value(source.subrange(start as int, parser@.offset as int))
                && magnitude <= limit,
            !fits ==> digits_value(source.subrange(start as int, parser@.offset as int)) > limit,
        decreases source.len() - parser@.offset,
    {
        let next: Option<char> = parser.peek();
        let c: char = match next {
            Some(c) => c,
            None => { break ; },
        };
        if !is_ascii_digit(c) {
            break ;
        }
        let digit: u128 = digit_to_number(c) as u128;
        proof {
            lemma_digits_value_push(source, start as int, parser@.offset as int);
        }
        if fits {
            let grown: Option<u128> = match magnitude.checked_mul(10) {
                Some(tens) => tens.checked_add(digit),
                None => None,
            };
            match grown {
                Some(value) => {
                    if value <= limit {
                        magnitude = value;
                    } else {
                        fits = false;
                    }
                },
                None => {
                    fits = false;
                },
            }
        }
        parser.advance(1);
    }
    proof {
        lemma_scan_while_unique(source, start as nat, parser@.offset, digit());
    }
    if parser.offset() == start || !fits {
        Err(parser.error(ParseErrorKind::BadArgument))
    } else {
        Ok((negative, magnitude))
    }
}

/// The number with the given sign and magnitude.
fn signed_number(negative: bool, magnitude: u128) -> (value: i128)
    requires
        i128::MIN <= signed_value(negative, magnitude as nat) <= i128::MAX,
    ensures
        value == signed_value(negative, magnitude as nat),
{
    if !negative {
        magnitude as i128
    } else if magnitude > i128::MAX as u128 {
        i128::MIN
    } else {
        -(magnitude as i128)
    }
}

/// Reads a decimal number: whether a minus sign stands in front, and the
/// digits and point as they are written.
pub fn read_decimal<'a>(parser: &mut CommandParser<'a>) -> (r: Result<
    (bool, &'a str),
    ParseError<'a>,
>)
    ensures
        final(parser)@.wf(),
        outcome(
            old(parser)@,
            final(parser)@,
            parse_decimal(old(parser)@.source, old(parser)@.offset),
            match r {
                Ok((negative, written)) => Ok((negative, written@)),
                Err(e) => Err(e),
            },
        ),
{
    let ghost source = parser@.source;
    let negative: bool = match parser.peek() {
        Some(c) => c == '-',
        None => false,
    };
    if negative {
        parser.advance(1);
    }
    let mark = parser.branch();
    let ghost start = mark@.offset;
    let mut pointed: bool = false;
    let mut digits: bool = false;
    loop
        invariant
            parser@.source == source,
            parser@.wf(),
            mark@.source == source,
            mark@.offset == start,
            start <= parser@.offset,
            scan_decimal(source, start as nat, false) == scan_decimal(
                source,
                parser@.offset,
                pointed,
            ),
            digits == has_digit(source.subrange(start as int, parser@.offset as int)),
        ensures
            parser@.source == source,
            parser@.wf(),
            mark@.source == source,
            mark@.offset == start,
            start <= parser@.offset,
            scan_decimal(source, start as nat, false) == parser@.offset,
            digits == has_digit(source.subrange(start as int, parser@.offset as int)),
        decreases source.len() - parser@.offset,
    {
        let next: Option<char> = parser.peek();
        let c: char = match next {
            Some(c) => c,
            None => { break ; },
        };
        proof {
            lemma_has_digit_push(source, start as int, parser@.offset as int);
        }
        if is_ascii_digit(c) {
            digits = true;
        } else if c == '.' && !pointed {
            pointed = true;
        } else {
            break ;
        }
        parser.advance(1);
    }
    if digits {
        Ok((negative, parser.since(&mark)))
    } else {
        Err(parser.error(ParseErrorKind::BadArgument))
    }
}

/// Reads a string between double quotes. A backslash takes the character
/// behind it into the string as it is, a quote too.
pub fn read_text<'a>(parser: &mut CommandParser<'a>) -> (r: Result<String, ParseError<'a>>)
    ensures
        final(parser)@.wf(),
        outcome(
            old(parser)@,
            final(parser)@,
            parse_text(old(parser)@.source, old(parser)@.offset),
            match r {
                Ok(text) => Ok(text@),
                Err(e) => Err(e),
            },
        ),
{
    let ghost source = parser@.source;
    let opened: bool = match parser.peek() {
        Some(c) => c == '"',
        None => false,
    };
    if !opened {
        return Err(parser.error(ParseErrorKind::BadLiteral));
    }
    parser.advance(1);
    let ghost start = parser@.offset;
    let mut text = String::new();
    let mut mark = parser.branch();
    proof {
        assert(text@ + source.subrange(start as int, start as int) =~= Seq::<char>::empty());
        assert(Seq::<char>::empty() + scan_quoted(source, start).text =~= scan_quoted(
            source,
            start,
        ).text);
    }
    loop
        invariant
            parser@.source == source,
            parser@.wf(),
            mark@.source == source,
            mark@.offset <= parser@.offset,
            source == old(parser)@.source,
            start == old(parser)@.offset + 1,
            start <= source.len(),
            source[old(parser)@.offset as int] == '"',
            scan_quoted(source, start).text == text@ + source.subrange(
                mark@.offset as int,
                parser@.offset as int,
            ) + scan_quoted(source, parser@.offset).text,
            scan_quoted(source, start).end == scan_quoted(source, parser@.offset).end,
            scan_quoted(source, start).closed == scan_quoted(source, parser@.offset).closed,
        decreases source.len() - parser@.offset,
    {
        let ghost at = parser@.offset as int;
        let ghost from = mark@.offset as int;
        let ghost before = text@;
        let next: Option<char> = parser.peek();
        let c: char = match next {
            Some(c) => c,
            None => {
                return Err(parser.error(ParseErrorKind::UnexpectedEof));
            },
        };
        if c == '"' {
            text.append(parser.since(&mark));
            proof {
                assert(text@ + Seq::<char>::empty() =~= text@);
            }
            parser.advance(1);
            return Ok(text);
        }
        if c == '\\' {
            text.append(parser.since(&mark));
            parser.advance(1);
            match parser.peek() {
                Some(escaped) => {
                    mark = parser.branch();
                    parser.advance(1);
                    proof {
                        let rest = scan_quoted(source, (at + 2) as nat).text;
                        assert(source.subrange(at + 1, at + 2) =~= seq![escaped]);
                        assert(before + source.subrange(from, at) + source.subrange(at + 1, at + 2)
                            + rest =~= before + source.subrange(from, at) + (seq![escaped]
                            + rest));
                    }
                },
                None => {
                    return Err(parser.error(ParseErrorKind::UnexpectedEof));
                },
            }
        } else {
            parser.advance(1);
            proof {
                let rest = scan_quoted(source, (at + 1) as nat).text;
                assert(source.subrange(from, at + 1) =~= source.subrange(from, at) + seq![c]);
                assert(before + (source.subrange(from, at) + seq![c]) + rest =~= before
                    + source.subrange(from, at) + (seq![c] + rest));
            }
        }
    }
}

/// Reads a word: a quoted string where a quote stands first, else the
/// characters up to the next space or the line's end.
pub fn read_word<'a>(parser: &mut CommandParser<'a>) -> (r: Result<String, ParseError<'a>>)
    ensures
        final(parser)@.wf(),
        outcome(
            old(parser)@,
            final(parser)@,
            parse_word(old(parser)@.source, old(parser)@.offset),
            match r {
                Ok(text) => Ok(text@),
                Err(e) => Err(e),
            },
        ),
{
    let ghost source = parser@.source;
    let ghost offset = parser@.offset;
    let quoted: bool = match parser.peek() {
        Some(c) => c == '"',
        None => false,
    };
    if quoted {
        read_text(parser)
    } else {
        let no_space = |c: char| -> (b: bool)
            ensures
                b == (c != ' '),
            { c != ' ' };
        let word: &str = parser.read_while(no_space);
        proof {
            lemma_scan_while_unique(source, offset, parser@.offset, not_space());
        }
        Ok(word.to_owned())
    }
}

/// A type that an argument of a command can be read as.
///
/// The type says what its values look like on a line: [`Argument::grammar`]
/// gives, for a line and an offset, the value that is read there and the
/// offset behind it, or the failure. Parsing is held to that grammar. The
/// types of this library take their grammar from [`crate::grammar`]; another
/// type brings its own.
pub trait Argument: Sized {
    /// What reading a value of this type at `offset` yields. A type that
    /// does not say is held to nothing.
    open spec fn grammar(source: Seq<char>, offset: nat) -> Parsed<Value> {
        arbitrary()
    }

    /// What this value holds, in the terms of the grammar.
    open spec fn value(&self) -> Value {
        arbitrary()
    }

    /// Reads a value of this type. On success the parser stands behind what
    /// was read; on failure it stands where the failure is reported.
    fn parse<'a>(parser: &mut CommandParser<'a>) -> (r: Result<Self, ParseError<'a>>)
        ensures
            final(parser)@.wf(),
            outcome(
                old(parser)@,
                final(parser)@,
                Self::grammar(old(parser)@.source, old(parser)@.offset),
                match r {
                    Ok(read) => Ok(read.value()),
                    Err(e) => Err(e),
                },
            ),
    ;
}

/// A type of argument that the argument store holds: one of the built-in
/// kinds. Its grammar is the one of its kind.
pub trait Stored: Argument {
    /// The kind of the grammar that this type is read by.
    spec fn kind() -> ArgumentKind;

    /// Tags this value with its type.
    fn tagged(self) -> (tagged: ArgumentValue)
        ensures
            tagged@ == self.value(),
    ;

    /// The value of this type that `tagged` holds, if it holds one.
    fn untagged(tagged: &ArgumentValue) -> (inner: Option<&Self>)
        ensures
            inner is Some <==> tagged@.kind() == Self::kind(),
            inner matches Some(held) ==> held.value() == tagged@,
    ;
}

impl Argument for () {
    open spec fn grammar(source: Seq<char>, offset: nat) -> Parsed<Value> {
        parse_kind(ArgumentKind::Unit, source, offset)
    }

    open spec fn value(&self) -> Value {
        Value::Unit
    }

    fn parse<'a>(parser: &mut CommandParser<'a>) -> (r: Result<Self, ParseError<'a>>) {
        // Nothing is read: the parser is only asked where it stands.
        let here: usize = parser.offset();
        Ok(())
    }
}

impl Stored for () {
    open spec fn kind() -> ArgumentKind {
        ArgumentKind::Unit
    }

    fn tagged(self) -> (tagged: ArgumentValue) {
        ArgumentValue::Unit
    }

    fn untagged(tagged: &ArgumentValue) -> (inner: Option<&Self>) {
        match tagged {
            ArgumentValue::Unit => Some(&()),
            _ => None,
        }
    }
}

impl Argument for String {
    open spec fn grammar(source: Seq<char>, offset: nat) -> Parsed<Value> {
        parse_kind(ArgumentKind::Text, source, offset)
    }

    open spec fn value(&self) -> Value {
        Value::Text(self@)
    }

    fn parse<'a>(parser: &mut CommandParser<'a>) -> (r: Result<Self, ParseError<'a>>) {
        read_text(parser)
    }
}

impl Stored for String {
    open spec fn kind() -> ArgumentKind {
        ArgumentKind::Text
    }

    fn tagged(self) -> (tagged: ArgumentValue) {
        ArgumentValue::Text(self)
    }

    fn untagged(tagged: &ArgumentValue) -> (inner: Option<&Self>) {
        match tagged {
            ArgumentValue::Text(text) => Some(text),
            _ => None,
        }
    }
}

impl Argument for u8 {
    open spec fn grammar(source: Seq<char>, offset: nat) -> Parsed<Value> {
        parse_kind(ArgumentKind::Integer(IntegerKind::U8), source, offset)
    }

    open spec fn value(&self) -> Value {
        Value::Integer(IntegerKind::U8, *self as int)
    }

    fn parse<'a>(parser: &mut CommandParser<'a>) -> (r: Result<Self, ParseError<'a>>) {
        match read_integer(parser, IntegerKind::U8) {
            Ok((_, magnitude)) => Ok(magnitude as u8),
            Err(e) => Err(e),
        }
    }
}

impl Stored for u8 {
    open spec fn kind() -> ArgumentKind {
        ArgumentKind::Integer(IntegerKind::U8)
    }

    fn tagged(self) -> (tagged: ArgumentValue) {
        ArgumentValue::U8(self)
    }

    fn untagged(tagged: &ArgumentValue) -> (inner: Option<&Self>) {
        match tagged {
            ArgumentValue::U8(held) => Some(held),
            _ => None,
        }
    }
}

impl Argument for u16 {
    open spec fn grammar(source: Seq<char>, offset: nat) -> Parsed<Value> {
        parse_kind(ArgumentKind::Integer(IntegerKind::U16), source, offset)
    }

    open spec fn value(&self) -> Value {
        Value::Integer(IntegerKind::U16, *self as int)
    }

    fn parse<'a>(parser: &mut CommandParser<'a>) -> (r: Result<Self, ParseError<'a>>) {
        match read_integer(parser, IntegerKind::U16) {
            Ok((_, magnitude)) => Ok(magnitude as u16),
            Err(e) => Err(e),
        }
    }
}

impl Stored for u16 {
    open spec fn kind() -> ArgumentKind {
        ArgumentKind::Integer(IntegerKind::U16)
    }

    fn tagged(self) -> (tagged: ArgumentValue) {
        ArgumentValue::U16(self)
    }

    fn untagged(tagged: &ArgumentValue) -> (inner: Option<&Self>) {
        match tagged {
            ArgumentValue::U16(held) => Some(held),
            _ => None,
        }
    }
}

impl Argument for u32 {
    open spec fn grammar(source: Seq<char>, offset: nat) -> Parsed<Value> {
        parse_kind(ArgumentKind::Integer(IntegerKind::U32), source, offset)
    }

    open spec fn value(&self) -> Value {
        Value::Integer(IntegerKind::U32, *self as int)
    }

    fn parse<'a>(parser: &mut CommandParser<'a>) -> (r: Result<Self, ParseError<'a>>) {
        match read_integer(parser, IntegerKind::U32) {
            Ok((_, magnitude)) => Ok(magnitude as u32),
            Err(e) => Err(e),
        }
    }
}

impl Stored for u32 {
    open spec fn kind() -> ArgumentKind {
        ArgumentKind::Integer(IntegerKind::U32)
    }

    fn tagged(self) -> (tagged: ArgumentValue) {
        ArgumentValue::U32(self)
    }

    fn untagged(tagged: &ArgumentValue) -> (inner: Option<&Self>) {
        match tagged {
            ArgumentValue::U32(held) => Some(held),
            _ => None,
        }
    }
}

impl Argument for u64 {
    open spec fn grammar(source: Seq<char>, offset: nat) -> Parsed<Value> {
        parse_kind(ArgumentKind::Integer(IntegerKind::U64), source, offset)
    }

    open spec fn value(&self) -> Value {
        Value::Integer(IntegerKind::U64, *self as int)
    }

    fn parse<'a>(parser: &mut CommandParser<'a>) -> (r: Result<Self, ParseError<'a>>) {
        match read_integer(parser, IntegerKind::U64) {
            Ok((_, magnitude)) => Ok(magnitude as u64),
            Err(e) => Err(e),
        }
    }
}

impl Stored for u64 {
    open spec fn kind() -> ArgumentKind {
        ArgumentKind::Integer(IntegerKind::U64)
    }

    fn tagged(self) -> (tagged: ArgumentValue) {
        ArgumentValue::U64(self)
    }

    fn untagged(tagged: &ArgumentValue) -> (inner: Option<&Self>) {
        match tagged {
            ArgumentValue::U64(held) => Some(held),
            _ => None,
        }
    }
}

impl Argument for u128 {
    open spec fn grammar(source: Seq<char>, offset: nat) -> Parsed<Value> {
        parse_kind(ArgumentKind::Integer(IntegerKind::U128), source, offset)
    }

    open spec fn value(&self) -> Value {
        Value::Integer(IntegerKind::U128, *self as int)
    }

    fn parse<'a>(parser: &mut CommandParser<'a>) -> (r: Result<Self, ParseError<'a>>) {
        match read_integer(parser, IntegerKind::U128) {
            Ok((_, magnitude)) => Ok(magnitude as u128),
            Err(e) => Err(e),
        }
    }
}

impl Stored for u128 {
    open spec fn kind() -> ArgumentKind {
        ArgumentKind::Integer(IntegerKind::U128)
    }

    fn tagged(self) -> (tagged: ArgumentValue) {
        ArgumentValue::U128(self)
    }

    fn untagged(tagged: &ArgumentValue) -> (inner: Option<&Self>) {
        match tagged {
            ArgumentValue::U128(held) => Some(held),
            _ => None,
        }
    }
}

impl Argument for usize {
    open spec fn grammar(source: Seq<char>, offset: nat) -> Parsed<Value> {
        parse_kind(ArgumentKind::Integer(IntegerKind::Usize), source, offset)
    }

    open spec fn value(&self) -> Value {
        Value::Integer(IntegerKind::Usize, *self as int)
    }

    fn parse<'a>(parser: &mut CommandParser<'a>) -> (r: Result<Self, ParseError<'a>>) {
        match read_integer(parser, IntegerKind::Usize) {
            Ok((_, magnitude)) => Ok(magnitude as usize),
            Err(e) => Err(e),
        }
    }
}

impl Stored for usize {
    open spec fn kind() -> ArgumentKind {
        ArgumentKind::Integer(IntegerKind::Usize)
    }

    fn tagged(self) -> (tagged: ArgumentValue) {
        ArgumentValue::Usize(self)
    }

    fn untagged(tagged: &ArgumentValue) -> (inner: Option<&Self>) {
        match tagged {
            ArgumentValue::Usize(held) => Some(held),
            _ => None,
        }
    }
}

impl Argument for i8 {
    open spec fn grammar(source: Seq<char>, offset: nat) -> Parsed<Value> {
        parse_kind(ArgumentKind::Integer(IntegerKind::I8), source, offset)
    }

    open spec fn value(&self) -> Value {
        Value::Integer(IntegerKind::I8, *self as int)
    }

    fn parse<'a>(parser: &mut CommandParser<'a>) -> (r: Result<Self, ParseError<'a>>) {
        match read_integer(parser, IntegerKind::I8) {
            Ok((negative, magnitude)) => Ok(signed_number(negative, magnitude) as i8),
            Err(e) => Err(e),
        }
    }
}

impl Stored for i8 {
    open spec fn kind() -> ArgumentKind {
        ArgumentKind::Integer(IntegerKind::I8)
    }

    fn tagged(self) -> (tagged: ArgumentValue) {
        ArgumentValue::I8(self)
    }

    fn untagged(tagged: &ArgumentValue) -> (inner: Option<&Self>) {
        match tagged {
            ArgumentValue::I8(held) => Some(held),
            _ => None,
        }
    }
}

impl Argument for i16 {
    open spec fn grammar(source: Seq<char>, offset: nat) -> Parsed<Value> {
        parse_kind(ArgumentKind::Integer(IntegerKind::I16), source, offset)
    }

    open spec fn value(&self) -> Value {
        Value::Integer(IntegerKind::I16, *self as int)
    }

    fn parse<'a>(parser: &mut CommandParser<'a>) -> (r: Result<Self, ParseError<'a>>) {
        match read_integer(parser, IntegerKind::I16) {
            Ok((negative, magnitude)) => Ok(signed_number(negative, magnitude) as i16),
            Err(e) => Err(e),
        }
    }
}

impl Stored for i16 {
    open spec fn kind() -> ArgumentKind {
        ArgumentKind::Integer(IntegerKind::I16)
    }

    fn tagged(self) -> (tagged: ArgumentValue) {
        ArgumentValue::I16(self)
    }

    fn untagged(tagged: &ArgumentValue) -> (inner: Option<&Self>) {
        match tagged {
            ArgumentValue::I16(held) => Some(held),
            _ => None,
        }
    }
}

impl Argument for i32 {
    open spec fn grammar(source: Seq<char>, offset: nat) -> Parsed<Value> {
        parse_kind(ArgumentKind::Integer(IntegerKind::I32), source, offset)
    }

    open spec fn value(&self) -> Value {
        Value::Integer(IntegerKind::I32, *self as int)
    }

    fn parse<'a>(parser: &mut CommandParser<'a>) -> (r: Result<Self, ParseError<'a>>) {
        match read_integer(parser, IntegerKind::I32) {
            Ok((negative, magnitude)) => Ok(signed_number(negative, magnitude) as i32),
            Err(e) => Err(e),
        }
    }
}

impl Stored for i32 {
    open spec fn kind() -> ArgumentKind {
        ArgumentKind::Integer(IntegerKind::I32)
    }

    fn tagged(self) -> (tagged: ArgumentValue) {
        ArgumentValue::I32(self)
    }

    fn untagged(tagged: &ArgumentValue) -> (inner: Option<&Self>) {
        match tagged {
            ArgumentValue::I32(held) => Some(held),
            _ => None,
        }
    }
}

impl Argument for i64 {
    open spec fn grammar(source: Seq<char>, offset: nat) -> Parsed<Value> {
        parse_kind(ArgumentKind::Integer(IntegerKind::I64), source, offset)
    }

    open spec fn value(&self) -> Value {
        Value::Integer(IntegerKind::I64, *self as int)
    }

    fn parse<'a>(parser: &mut CommandParser<'a>) -> (r: Result<Self, ParseError<'a>>) {
        match read_integer(parser, IntegerKind::I64) {
            Ok((negative, magnitude)) => Ok(signed_number(negative, magnitude) as i64),
            Err(e) => Err(e),
        }
    }
}

impl Stored for i64 {
    open spec fn kind() -> ArgumentKind {
        ArgumentKind::Integer(IntegerKind::I64)
    }

    fn tagged(self) -> (tagged: ArgumentValue) {
        ArgumentValue::I64(self)
    }

    fn untagged(tagged: &ArgumentValue) -> (inner: Option<&Self>) {
        match tagged {
            ArgumentValue::I64(held) => Some(held),
            _ => None,
        }
    }
}

impl Argument for i128 {
    open spec fn grammar(source: Seq<char>, offset: nat) -> Parsed<Value> {
        parse_kind(ArgumentKind::Integer(IntegerKind::I128), source, offset)
    }

    open spec fn value(&self) -> Value {
        Value::Integer(IntegerKind::I128, *self as int)
    }

    fn parse<'a>(parser: &mut CommandParser<'a>) -> (r: Result<Self, ParseError<'a>>) {
        match read_integer(parser, IntegerKind::I128) {
            Ok((negative, magnitude)) => Ok(signed_number(negative, magnitude) as i128),
            Err(e) => Err(e),
        }
    }
}

impl Stored for i128 {
    open spec fn kind() -> ArgumentKind {
        ArgumentKind::Integer(IntegerKind::I128)
    }

    fn tagged(self) -> (tagged: ArgumentValue) {
        ArgumentValue::I128(self)
    }

    fn untagged(tagged: &ArgumentValue) -> (inner: Option<&Self>) {
        match tagged {
            ArgumentValue::I128(held) => Some(held),
            _ => None,
        }
    }
}

impl Argument for isize {
    open spec fn grammar(source: Seq<char>, offset: nat) -> Parsed<Value> {
        parse_kind(ArgumentKind::Integer(IntegerKind::Isize), source, offset)
    }

    open spec fn value(&self) -> Value {
        Value::Integer(IntegerKind::Isize, *self as int)
    }

    fn parse<'a>(parser: &mut CommandParser<'a>) -> (r: Result<Self, ParseError<'a>>) {
        match read_integer(parser, IntegerKind::Isize) {
            Ok((negative, magnitude)) => Ok(signed_number(negative, magnitude) as isize),
            Err(e) => Err(e),
        }
    }
}

impl Stored for isize {
    open spec fn kind() -> ArgumentKind {
        ArgumentKind::Integer(IntegerKind::Isize)
    }

    fn tagged(self) -> (tagged: ArgumentValue) {
        ArgumentValue::Isize(self)
    }

    fn untagged(tagged: &ArgumentValue) -> (inner: Option<&Self>) {
        match tagged {
            ArgumentValue::Isize(held) => Some(held),
            _ => None,
        }
    }
}

impl ArgumentValue {
    /// A copy of this value.
    pub fn duplicate(&self) -> (copy: ArgumentValue)
        ensures
            copy@ == self@,
    {
        match self {
            ArgumentValue::Unit => ArgumentValue::Unit,
            ArgumentValue::U8(v) => ArgumentValue::U8(*v),
            ArgumentValue::U16(v) => ArgumentValue::U16(*v),
            ArgumentValue::U32(v) => ArgumentValue::U32(*v),
            ArgumentValue::U64(v) => ArgumentValue::U64(*v),
            ArgumentValue::U128(v) => ArgumentValue::U128(*v),
            ArgumentValue::Usize(v) => ArgumentValue::Usize(*v),
            ArgumentValue::I8(v) => ArgumentValue::I8(*v),
            ArgumentValue::I16(v) => ArgumentValue::I16(*v),
            ArgumentValue::I32(v) => ArgumentValue::I32(*v),
            ArgumentValue::I64(v) => ArgumentValue::I64(*v),
            ArgumentValue::I128(v) => ArgumentValue::I128(*v),
            ArgumentValue::Isize(v) => ArgumentValue::Isize(*v),
            ArgumentValue::Decimal(negative, written) => ArgumentValue::Decimal(
                *negative,
                written.clone(),
            ),
            ArgumentValue::Text(text) => ArgumentValue::Text(text.clone()),
        }
    }

    /// Reads an argument of kind `kind` and tags it with its type.
    pub fn parse<'a>(kind: ArgumentKind, parser: &mut CommandParser<'a>) -> (r: Result<
        ArgumentValue,
        ParseError<'a>,
    >)
        ensures
            final(parser)@.wf(),
            outcome(
                old(parser)@,
                final(parser)@,
                parse_kind(kind, old(parser)@.source, old(parser)@.offset),
                match r {
                    Ok(read) => Ok(read@),
                    Err(e) => Err(e),
                },
            ),
    {
        match kind {
            ArgumentKind::Unit => match <()>::parse(parser) {
                Ok(_) => Ok(ArgumentValue::Unit),
                Err(e) => Err(e),
            },
            ArgumentKind::Integer(IntegerKind::U8) => match u8::parse(parser) {
                Ok(read) => Ok(ArgumentValue::U8(read)),
                Err(e) => Err(e),
            },
            ArgumentKind::Integer(IntegerKind::U16) => match u16::parse(parser) {
                Ok(read) => Ok(ArgumentValue::U16(read)),
                Err(e) => Err(e),
            },
            ArgumentKind::Integer(IntegerKind::U32) => match u32::parse(parser) {
                Ok(read) => Ok(ArgumentValue::U32(read)),
                Err(e) => Err(e),
            },
            ArgumentKind::Integer(IntegerKind::U64) => match u64::parse(parser) {
                Ok(read) => Ok(ArgumentValue::U64(read)),
                Err(e) => Err(e),
            },
            ArgumentKind::Integer(IntegerKind::U128) => match u128::parse(parser) {
                Ok(read) => Ok(ArgumentValue::U128(read)),
                Err(e) => Err(e),
            },
            ArgumentKind::Integer(IntegerKind::Usize) => match usize::parse(parser) {
                Ok(read) => Ok(ArgumentValue::Usize(read)),
                Err(e) => Err(e),
            },
            ArgumentKind::Integer(IntegerKind::I8) => match i8::parse(parser) {
                Ok(read) => Ok(ArgumentValue::I8(read)),
                Err(e) => Err(e),
            },
            ArgumentKind::Integer(IntegerKind::I16) => match i16::parse(parser) {
                Ok(read) => Ok(ArgumentValue::I16(read)),
                Err(e) => Err(e),
            },
            ArgumentKind::Integer(IntegerKind::I32) => match i32::parse(parser) {
                Ok(read) => Ok(ArgumentValue::I32(read)),
                Err(e) => Err(e),
            },
            ArgumentKind::Integer(IntegerKind::I64) => match i64::parse(parser) {
                Ok(read) => Ok(ArgumentValue::I64(read)),
                Err(e) => Err(e),
            },
            ArgumentKind::Integer(IntegerKind::I128) => match i128::parse(parser) {
                Ok(read) => Ok(ArgumentValue::I128(read)),
                Err(e) => Err(e),
            },
            ArgumentKind::Integer(IntegerKind::Isize) => match isize::parse(parser) {
                Ok(read) => Ok(ArgumentValue::Isize(read)),
                Err(e) => Err(e),
            },
            ArgumentKind::Decimal => match read_decimal(parser) {
                Ok((negative, written)) => Ok(ArgumentValue::Decimal(negative, written.to_owned())),
                Err(e) => Err(e),
            },
            ArgumentKind::Text => match read_text(parser) {
                Ok(text) => Ok(ArgumentValue::Text(text)),
                Err(e) => Err(e),
            },
            ArgumentKind::Word => match read_word(parser) {
                Ok(text) => Ok(ArgumentValue::Text(text)),
                Err(e) => Err(e),
            },
        }
    }
}

} // verus!
