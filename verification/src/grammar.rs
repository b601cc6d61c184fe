//! The grammar of the built-in argument kinds, as functions from a line and
//! an offset to what a parse at that offset yields.
//!
//! Nothing here runs: these functions are what the parsers in
//! [`crate::argument`] are proved against, and what the laws at the end of
//! this file are stated over.

use vstd::prelude::*;
use crate::chars::digit;
use crate::chars::digit_value;
use crate::chars::is_digit;
use crate::chars::is_separator;
use crate::parser::Failure;
use crate::parser::lemma_scan_while_unique;
use crate::parser::Parsed;
use crate::parser::ParseErrorKind;
use crate::parser::scan_while;
use crate::parser::starts_with_at;

verus! {

/// The integer types that an argument can be read as.
#[derive(Debug, Clone, Copy, PartialEq, Eq, Structural)]
pub enum IntegerKind {
    U8,
    U16,
    U32,
    U64,
    U128,
    Usize,
    I8,
    I16,
    I32,
    I64,
    I128,
    Isize,
}

impl IntegerKind {
    /// Whether numbers of this kind may carry a minus sign.
    pub open spec fn signed(self) -> bool {
        match self {
            IntegerKind::I8
            | IntegerKind::I16
            | IntegerKind::I32
            | IntegerKind::I64
            | IntegerKind::I128
            | IntegerKind::Isize => true,
            _ => false,
        }
    }

    /// The least number of this kind.
    pub open spec fn min(self) -> int {
        match self {
            IntegerKind::I8 => i8::MIN as int,
            IntegerKind::I16 => i16::MIN as int,
            IntegerKind::I32 => i32::MIN as int,
            IntegerKind::I64 => i64::MIN as int,
            IntegerKind::I128 => i128::MIN as int,
            IntegerKind::Isize => isize::MIN as int,
            _ => 0,
        }
    }

    /// The greatest number of this kind.
    pub open spec fn max(self) -> int {
        match self {
            IntegerKind::U8 => u8::MAX as int,
            IntegerKind::U16 => u16::MAX as int,
            IntegerKind::U32 => u32::MAX as int,
            IntegerKind::U64 => u64::MAX as int,
            IntegerKind::U128 => u128::MAX as int,
            IntegerKind::Usize => usize::MAX as int,
            IntegerKind::I8 => i8::MAX as int,
            IntegerKind::I16 => i16::MAX as int,
            IntegerKind::I32 => i32::MAX as int,
            IntegerKind::I64 => i64::MAX as int,
            IntegerKind::I128 => i128::MAX as int,
            IntegerKind::Isize => isize::MAX as int,
        }
    }

    /// Whether `value` is a number of this kind.
    pub open spec fn holds(self, value: int) -> bool {
        self.min() <= value <= self.max()
    }
}

/// The kinds of argument that a syntax can ask for.
#[derive(Debug, Clone, Copy, PartialEq, Eq, Structural)]
pub enum ArgumentKind {
    /// Nothing: always there, and no character long.
    Unit,
    /// A decimal integer of the given type.
    Integer(IntegerKind),
    /// A decimal number with at most one point, kept as it is written.
    Decimal,
    /// A string between double quotes.
    Text,
    /// A string between double quotes, or a bare word that ends at the next
    /// space.
    Word,
}

/// What an argument holds once it is read.
pub enum Value {
    Unit,
    Integer(IntegerKind, int),
    /// Whether a minus sign stood in front, and the digits and point as
    /// written.
    Decimal(bool, Seq<char>),
    Text(Seq<char>),
}

/// The number that a run of decimal digits stands for.
pub open spec fn digits_value(digits: Seq<char>) -> nat
    decreases digits.len(),
{
    if digits.len() == 0 {
        0
    } else {
        digits_value(digits.drop_last()) * 10 + digit_value(digits.last())
    }
}

/// The number with the given sign and magnitude.
pub open spec fn signed_value(negative: bool, magnitude: nat) -> int {
    if negative {
        -(magnitude as int)
    } else {
        magnitude as int
    }
}

/// Whether a number of kind `kind` begins with a minus sign at `offset`.
pub open spec fn has_sign(kind: IntegerKind, source: Seq<char>, offset: nat) -> bool {
    kind.signed() && offset < source.len() && source[offset as int] == '-'
}

/// An integer of kind `kind` at `offset`: for a signed kind an optional
/// minus sign, then one decimal digit or more. No digit, or a number that the
/// kind does not hold, is a `BadArgument` behind what was read.
pub open spec fn parse_integer(kind: IntegerKind, source: Seq<char>, offset: nat) -> Parsed<int> {
    let negative = has_sign(kind, source, offset);
    let start = if negative {
        offset + 1
    } else {
        offset
    };
    let end = scan_while(source, start, digit());
    let value = signed_value(negative, digits_value(source.subrange(start as int, end as int)));
    if end > start && kind.holds(value) {
        Ok((value, end))
    } else {
        Err(Failure { offset: end, kind: ParseErrorKind::BadArgument })
    }
}

/// The offset at which the longest run of digits with at most one point that
/// begins at `offset` ends. `pointed` says that the point has been read.
pub open spec fn scan_decimal(source: Seq<char>, offset: nat, pointed: bool) -> nat
    decreases source.len() - offset,
{
    if offset >= source.len() {
        offset
    } else if is_digit(source[offset as int]) {
        scan_decimal(source, offset + 1, pointed)
    } else if source[offset as int] == '.' && !pointed {
        scan_decimal(source, offset + 1, true)
    } else {
        offset
    }
}

/// Whether one of `text`'s characters is a decimal digit.
pub open spec fn has_digit(text: Seq<char>) -> bool {
    exists|i: int| 0 <= i < text.len() && is_digit(#[trigger] text[i])
}

/// A decimal number at `offset`: an optional minus sign, then digits with at
/// most one point among them. A second point ends the number and is left
/// unread. A number without any digit is a `BadArgument` behind what was
/// read.
pub open spec fn parse_decimal(source: Seq<char>, offset: nat) -> Parsed<(bool, Seq<char>)> {
    let negative = offset < source.len() && source[offset as int] == '-';
    let start = if negative {
        offset + 1
    } else {
        offset
    };
    let end = scan_decimal(source, start, false);
    let written = source.subrange(start as int, end as int);
    if has_digit(written) {
        Ok(((negative, written), end))
    } else {
        Err(Failure { offset: end, kind: ParseErrorKind::BadArgument })
    }
}

/// What the inside of a quoted string comes to: the characters it stands
/// for, the offset at which the scan stopped, and whether it stopped at a
/// closing quote.
pub struct Quoted {
    pub text: Seq<char>,
    pub end: nat,
    pub closed: bool,
}

/// The inside of a quoted string from `offset` on. A backslash is dropped and
/// the character behind it is taken as it is; any other character up to the
/// next quote is taken as it is. The scan stops at that quote, or at the
/// line's end if there is none.
pub open spec fn scan_quoted(source: Seq<char>, offset: nat) -> Quoted
    decreases source.len() - offset,
{
    if offset >= source.len() {
        Quoted { text: Seq::empty(), end: source.len(), closed: false }
    } else if source[offset as int] == '"' {
        Quoted { text: Seq::empty(), end: offset, closed: true }
    } else if source[offset as int] == '\\' {
        if offset + 1 >= source.len() {
            Quoted { text: Seq::empty(), end: source.len(), closed: false }
        } else {
            let rest = scan_quoted(source, offset + 2);
            Quoted {
                text: seq![source[offset as int + 1]] + rest.text,
                end: rest.end,
                closed: rest.closed,
            }
        }
    } else {
        let rest = scan_quoted(source, offset + 1);
        Quoted { text: seq![source[offset as int]] + rest.text, end: rest.end, closed: rest.closed }
    }
}

/// A quoted string at `offset`. Where no quote opens it, that is a
/// `BadLiteral` on the spot; where none closes it, an `UnexpectedEof` at the
/// line's end.
pub open spec fn parse_text(source: Seq<char>, offset: nat) -> Parsed<Seq<char>> {
    if offset < source.len() && source[offset as int] == '"' {
        let inside = scan_quoted(source, offset + 1);
        if inside.closed {
            Ok((inside.text, inside.end + 1))
        } else {
            Err(Failure { offset: source.len(), kind: ParseErrorKind::UnexpectedEof })
        }
    } else {
        Err(Failure { offset, kind: ParseErrorKind::BadLiteral })
    }
}

/// The predicate "is not a space", as a value that scans can take.
pub open spec fn not_space() -> spec_fn(char) -> bool {
    |c: char| c != ' '
}

/// A word at `offset`: a quoted string where a quote stands there, else the
/// characters up to the next space or the line's end, which may be none.
pub open spec fn parse_word(source: Seq<char>, offset: nat) -> Parsed<Seq<char>> {
    if offset < source.len() && source[offset as int] == '"' {
        parse_text(source, offset)
    } else {
        let end = scan_while(source, offset, not_space());
        Ok((source.subrange(offset as int, end as int), end))
    }
}

/// What reading an argument of kind `kind` at `offset` yields.
pub open spec fn parse_kind(kind: ArgumentKind, source: Seq<char>, offset: nat) -> Parsed<Value> {
    match kind {
        ArgumentKind::Unit => Ok((Value::Unit, offset)),
        ArgumentKind::Integer(integer) => match parse_integer(integer, source, offset) {
            Ok((value, end)) => Ok((Value::Integer(integer, value), end)),
            Err(failure) => Err(failure),
        },
        ArgumentKind::Decimal => match parse_decimal(source, offset) {
            Ok(((negative, written), end)) => Ok((Value::Decimal(negative, written), end)),
            Err(failure) => Err(failure),
        },
        ArgumentKind::Text => match parse_text(source, offset) {
            Ok((text, end)) => Ok((Value::Text(text), end)),
            Err(failure) => Err(failure),
        },
        ArgumentKind::Word => match parse_word(source, offset) {
            Ok((text, end)) => Ok((Value::Text(text), end)),
            Err(failure) => Err(failure),
        },
    }
}

/// One more digit behind a run multiplies its number by ten and adds the
/// digit.
pub proof fn lemma_digits_value_push(source: Seq<char>, start: int, end: int)
    requires
        0 <= start <= end < source.len(),
    ensures
        digits_value(source.subrange(start, end + 1)) == digits_value(source.subrange(start, end))
            * 10 + digit_value(source[end]),
{
    let longer = source.subrange(start, end + 1);
    assert(longer.drop_last() =~= source.subrange(start, end));
    assert(longer.last() == source[end]);
}

/// A run with one more character holds a digit if the run without it holds
/// one or the character is one.
pub proof fn lemma_has_digit_push(source: Seq<char>, start: int, end: int)
    requires
        0 <= start <= end < source.len(),
    ensures
        has_digit(source.subrange(start, end + 1)) == (has_digit(source.subrange(start, end))
            || is_digit(source[end])),
{
    let shorter = source.subrange(start, end);
    let longer = source.subrange(start, end + 1);
    if has_digit(shorter) {
        let i = choose|i: int| 0 <= i < shorter.len() && is_digit(#[trigger] shorter[i]);
        assert(longer[i] == shorter[i]);
    }
    if is_digit(source[end]) {
        assert(longer[end - start] == source[end]);
    }
    if has_digit(longer) {
        let i = choose|i: int| 0 <= i < longer.len() && is_digit(#[trigger] longer[i]);
        if i < shorter.len() {
            assert(shorter[i] == longer[i]);
        }
    }
}

/// The decimal digit that stands for `d`.
pub open spec fn digit_char(d: nat) -> char
    recommends
        d < 10,
{
    ('0' as nat + d) as char
}

/// The decimal digits of `n`, without leading zeros.
pub open spec fn decimal(n: nat) -> Seq<char>
    decreases n,
{
    if n < 10 {
        seq![digit_char(n)]
    } else {
        decimal(n / 10).push(digit_char(n % 10))
    }
}

/// How the integer `i` is written: a minus sign if it is negative, then the
/// decimal digits of its magnitude.
pub open spec fn written(i: int) -> Seq<char> {
    if i < 0 {
        seq!['-'] + decimal((-i) as nat)
    } else {
        decimal(i as nat)
    }
}

/// The decimal digits of a number are digits, one at least, and stand for
/// the number.
pub proof fn lemma_decimal(n: nat)
    ensures
        decimal(n).len() >= 1,
        forall|i: int| 0 <= i < decimal(n).len() ==> is_digit(#[trigger] decimal(n)[i]),
        digits_value(decimal(n)) == n,
    decreases n,
{
    if n < 10 {
        assert(decimal(n).drop_last() =~= Seq::<char>::empty());
        assert(digits_value(decimal(n).drop_last()) == 0);
    } else {
        lemma_decimal(n / 10);
        let shorter = decimal(n / 10);
        assert(decimal(n).drop_last() =~= shorter);
        assert(decimal(n).last() == digit_char(n % 10));
    }
}

/// A line that holds at `offset` the integer `i` as it is written, and no
/// digit behind it, is read there as `i` by every kind that holds `i`, up to
/// the end of the number; a kind that does not hold `i` refuses it as a
/// `BadArgument`.
pub proof fn lemma_written_integer_is_read(
    kind: IntegerKind,
    i: int,
    source: Seq<char>,
    offset: nat,
)
    requires
        starts_with_at(source, offset, written(i)),
        offset + written(i).len() < source.len() ==> !is_digit(
            source[(offset + written(i).len()) as int],
        ),
    ensures
        kind.holds(i) ==> parse_integer(kind, source, offset) == Ok::<(int, nat), Failure>(
            (i, offset + written(i).len()),
        ),
        !kind.holds(i) ==> (parse_integer(kind, source, offset) matches Err(failure)
            && failure.kind == ParseErrorKind::BadArgument),
{
    let magnitude = if i < 0 {
        (-i) as nat
    } else {
        i as nat
    };
    let digits = decimal(magnitude);
    lemma_decimal(magnitude);
    let text = written(i);
    let taken = source.subrange(offset as int, (offset + text.len()) as int);
    assert(taken == text);
    assert(source[offset as int] == taken[0]);
    if i < 0 {
        assert(text[0] == '-');
        assert forall|j: int| 0 <= j < digits.len() implies text[j + 1] == digits[j] by {}
        if kind.signed() {
            let start = offset + 1;
            let end = start + digits.len();
            assert forall|j: int| start <= j < end implies digit()(#[trigger] source[j]) by {
                assert(source[j] == taken[j - offset]);
                assert(taken[j - offset] == digits[j - start]);
            }
            lemma_scan_while_unique(source, start as nat, end as nat, digit());
            assert(source.subrange(start as int, end as int) =~= digits);
        } else {
            lemma_scan_while_unique(source, offset, offset, digit());
        }
    } else {
        assert(text == digits);
        assert(is_digit(text[0]));
        let end = offset + digits.len();
        assert forall|j: int| offset <= j < end implies digit()(#[trigger] source[j]) by {
            assert(source[j] == taken[j - offset]);
        }
        lemma_scan_while_unique(source, offset, end as nat, digit());
        assert(source.subrange(offset as int, end as int) =~= digits);
    }
}

/// Numbers survive being written and read: an integer as it is written is
/// read as itself, up to its last digit, by every kind that holds it, and is
/// refused as a `BadArgument` by every kind that does not.
pub proof fn lemma_integer_round_trip(kind: IntegerKind, i: int)
    ensures
        kind.holds(i) ==> parse_kind(ArgumentKind::Integer(kind), written(i), 0) == Ok::<
            (Value, nat),
            Failure,
        >((Value::Integer(kind, i), written(i).len())),
        !kind.holds(i) ==> (parse_kind(ArgumentKind::Integer(kind), written(i), 0) matches Err(
            failure,
        ) && failure.kind == ParseErrorKind::BadArgument),
{
    let text = written(i);
    assert(text.subrange(0, text.len() as int) =~= text);
    lemma_written_integer_is_read(kind, i, text, 0);
}

/// How a string is written between quotes: a backslash in front of every
/// quote and of every backslash.
pub open spec fn escaped(text: Seq<char>) -> Seq<char>
    decreases text.len(),
{
    if text.len() == 0 {
        Seq::empty()
    } else if text[0] == '"' || text[0] == '\\' {
        seq!['\\', text[0]] + escaped(text.drop_first())
    } else {
        seq![text[0]] + escaped(text.drop_first())
    }
}

/// How a string is written as an argument: between two quotes, escaped.
pub open spec fn quoted(text: Seq<char>) -> Seq<char> {
    seq!['"'] + escaped(text) + seq!['"']
}

/// A line that holds at `offset` the escaped form of `text` and a quote
/// behind it is scanned there as `text`, up to that quote.
pub proof fn lemma_escaped_is_scanned(text: Seq<char>, source: Seq<char>, offset: nat)
    requires
        starts_with_at(source, offset, escaped(text) + seq!['"']),
    ensures
        scan_quoted(source, offset) == (Quoted {
            text,
            end: offset + escaped(text).len(),
            closed: true,
        }),
    decreases text.len(),
{
    let body = escaped(text) + seq!['"'];
    let taken = source.subrange(offset as int, (offset + body.len()) as int);
    assert(taken == body);
    if text.len() == 0 {
        assert(source[offset as int] == taken[0]);
        assert(scan_quoted(source, offset).text =~= text);
    } else {
        let rest = text.drop_first();
        let tail = escaped(rest) + seq!['"'];
        let first = text[0];
        let step: nat = if first == '"' || first == '\\' {
            2
        } else {
            1
        };
        assert(source[offset as int] == taken[0]);
        if step == 2 {
            assert(source[offset as int + 1] == taken[1]);
            assert(body =~= seq!['\\', first] + tail);
        } else {
            assert(body =~= seq![first] + tail);
        }
        assert(source.subrange((offset + step) as int, (offset + step + tail.len()) as int)
            =~= tail) by {
            assert forall|j: int| 0 <= j < tail.len() implies source[offset + step + j]
                == tail[j] by {
                assert(source[offset + step + j] == taken[step + j]);
            }
        }
        lemma_escaped_is_scanned(rest, source, (offset + step) as nat);
        assert(seq![first] + rest =~= text);
    }
}

/// Strings survive being written and read: a string as it is written
/// between quotes is read as itself, up to the closing quote.
pub proof fn lemma_text_round_trip(text: Seq<char>)
    ensures
        parse_kind(ArgumentKind::Text, quoted(text), 0) == Ok::<(Value, nat), Failure>(
            (Value::Text(text), quoted(text).len()),
        ),
{
    let source = quoted(text);
    let body = escaped(text) + seq!['"'];
    assert(source =~= seq!['"'] + body);
    assert(source.subrange(1, 1 + body.len() as int) =~= body);
    lemma_escaped_is_scanned(text, source, 1);
}

/// A string whose closing quote is missing is refused as an
/// `UnexpectedEof` at the end of the line.
pub proof fn lemma_unterminated_text(source: Seq<char>, offset: nat)
    requires
        offset < source.len(),
        source[offset as int] == '"',
        !scan_quoted(source, offset + 1).closed,
    ensures
        parse_kind(ArgumentKind::Text, source, offset) == Err::<(Value, nat), Failure>(
            Failure { offset: source.len(), kind: ParseErrorKind::UnexpectedEof },
        ),
{
}

/// A line that holds at `offset` the string `text` as it is written between
/// quotes is read there as `text`, up to the closing quote.
pub proof fn lemma_quoted_text_is_read(text: Seq<char>, source: Seq<char>, offset: nat)
    requires
        starts_with_at(source, offset, quoted(text)),
    ensures
        parse_text(source, offset) == Ok::<(Seq<char>, nat), Failure>(
            (text, offset + quoted(text).len()),
        ),
{
    let whole = quoted(text);
    let body = escaped(text) + seq!['"'];
    let taken = source.subrange(offset as int, (offset + whole.len()) as int);
    assert(taken == whole);
    assert(whole =~= seq!['"'] + body);
    assert(source[offset as int] == taken[0]);
    assert(source.subrange(offset as int + 1, offset as int + 1 + body.len()) =~= body) by {
        assert forall|j: int| 0 <= j < body.len() implies source[offset as int + 1 + j]
            == body[j] by {
            assert(source[offset as int + 1 + j] == taken[1 + j]);
        }
    }
    lemma_escaped_is_scanned(text, source, offset + 1);
}

/// Whether `written` is a decimal number as it is written without its sign:
/// digits with at most one point among them, and one digit at least.
pub open spec fn is_decimal(written: Seq<char>) -> bool {
    has_digit(written) && scan_decimal(written, 0, false) == written.len()
}

/// A decimal scan of a line that holds a number at `start` runs as the scan
/// of the number itself does, as long as that scan runs to the number's end
/// and the line does not go on with a digit or a point.
proof fn lemma_scan_decimal_embedded(
    written: Seq<char>,
    source: Seq<char>,
    start: nat,
    at: nat,
    pointed: bool,
)
    requires
        starts_with_at(source, start, written),
        at <= written.len(),
        scan_decimal(written, at, pointed) == written.len(),
        start + written.len() < source.len() ==> !is_digit(source[(start + written.len()) as int])
            && source[(start + written.len()) as int] != '.',
    ensures
        scan_decimal(source, start + at, pointed) == start + written.len(),
    decreases written.len() - at,
{
    let taken = source.subrange(start as int, (start + written.len()) as int);
    assert(taken == written);
    if at < written.len() {
        assert(source[(start + at) as int] == taken[at as int]);
        if is_digit(written[at as int]) {
            lemma_scan_decimal_embedded(written, source, start, at + 1, pointed);
        } else if written[at as int] == '.' && !pointed {
            lemma_scan_decimal_embedded(written, source, start, at + 1, true);
        }
    }
}

/// How a decimal number with the given sign is written.
pub open spec fn written_decimal(negative: bool, written: Seq<char>) -> Seq<char> {
    if negative {
        seq!['-'] + written
    } else {
        written
    }
}

/// A line that holds at `offset` a decimal number as it is written, and
/// neither a digit nor a point behind it, is read there as that number, up to
/// its end.
pub proof fn lemma_written_decimal_is_read(
    negative: bool,
    written: Seq<char>,
    source: Seq<char>,
    offset: nat,
)
    requires
        is_decimal(written),
        starts_with_at(source, offset, written_decimal(negative, written)),
        offset + written_decimal(negative, written).len() < source.len() ==> !is_digit(
            source[(offset + written_decimal(negative, written).len()) as int],
        ) && source[(offset + written_decimal(negative, written).len()) as int] != '.',
    ensures
        parse_decimal(source, offset) == Ok::<((bool, Seq<char>), nat), Failure>(
            ((negative, written), offset + written_decimal(negative, written).len()),
        ),
{
    let text = written_decimal(negative, written);
    let taken = source.subrange(offset as int, (offset + text.len()) as int);
    assert(taken == text);
    assert(written.len() > 0);
    assert(source[offset as int] == taken[0]);
    let start: nat = if negative {
        offset + 1
    } else {
        offset
    };
    assert(source.subrange(start as int, (start + written.len()) as int) =~= written) by {
        assert forall|j: int| 0 <= j < written.len() implies source[start + j] == written[j] by {
            assert(source[start + j] == taken[start - offset + j]);
        }
    }
    lemma_scan_decimal_embedded(written, source, start, 0, false);
    if !negative {
        assert(written[0] != '-');
    }
}

/// Whether `text` can be written as a bare word: it is not empty, does not
/// begin with whitespace or a quote, and holds no space.
pub open spec fn is_bare_word(text: Seq<char>) -> bool {
    &&& text.len() > 0
    &&& !is_separator(text[0])
    &&& text[0] != '"'
    &&& forall|i: int| 0 <= i < text.len() ==> #[trigger] text[i] != ' '
}

/// A line that holds at `offset` a bare word, and a space or its end behind
/// it, is read there as that word.
pub proof fn lemma_bare_word_is_read(text: Seq<char>, source: Seq<char>, offset: nat)
    requires
        is_bare_word(text),
        starts_with_at(source, offset, text),
        offset + text.len() < source.len() ==> source[(offset + text.len()) as int] == ' ',
    ensures
        parse_word(source, offset) == Ok::<(Seq<char>, nat), Failure>((text, offset + text.len())),
{
    let taken = source.subrange(offset as int, (offset + text.len()) as int);
    assert(taken == text);
    assert(source[offset as int] == taken[0]);
    assert forall|j: int| offset <= j < offset + text.len() implies not_space()(
        #[trigger] source[j],
    ) by {
        assert(source[j] == taken[j - offset]);
    }
    lemma_scan_while_unique(source, offset, offset + text.len(), not_space());
}

} // verus!
