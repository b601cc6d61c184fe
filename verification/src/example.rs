//! Example lines: how a line that a syntax matches is written, and the law
//! that such a line is dispatched.
//!
//! An example of a syntax is the line that its usage shows once every slot is
//! filled with a value: each literal as it is and each value as it is
//! written, each with one space in front. Nothing here runs; the law at the
//! end says of every such line what the dispatch in [`crate::source`] makes
//! of it.

use vstd::prelude::*;
use crate::chars::alphabetic;
use crate::chars::is_name_char;
use crate::chars::is_separator;
use crate::chars::whitespace;
use crate::grammar::ArgumentKind;
use crate::grammar::is_bare_word;
use crate::grammar::is_decimal;
use crate::grammar::lemma_bare_word_is_read;
use crate::grammar::lemma_decimal;
use crate::grammar::lemma_quoted_text_is_read;
use crate::grammar::lemma_written_decimal_is_read;
use crate::grammar::lemma_written_integer_is_read;
use crate::grammar::quoted;
use crate::grammar::Value;
use crate::grammar::written;
use crate::grammar::written_decimal;
use crate::parser::Failure;
use crate::parser::lemma_scan_while_unique;
use crate::parser::match_spacing;
use crate::parser::starts_with_at;
use crate::source::Command;
use crate::source::command_name;
use crate::source::forms_of;
use crate::source::lemma_select_first_match;
use crate::source::name_end;
use crate::source::resolve;
use crate::syntax::Element;
use crate::syntax::match_element;
use crate::syntax::match_elements;
use crate::syntax::match_syntax;
use crate::syntax::Store;

verus! {

/// Whether `value` is a value that a slot of kind `kind` can be filled with.
/// An integer lies in the range of its kind, a decimal number is written
/// with a digit and at most one point, and a word is one that can be written
/// without quotes.
pub open spec fn fills(kind: ArgumentKind, value: Value) -> bool {
    match kind {
        ArgumentKind::Unit => value == Value::Unit,
        ArgumentKind::Integer(integer) => value matches Value::Integer(of, i) && of == integer
            && integer.holds(i),
        ArgumentKind::Decimal => value matches Value::Decimal(_, digits) && is_decimal(digits),
        ArgumentKind::Text => value is Text,
        ArgumentKind::Word => value matches Value::Text(text) && is_bare_word(text),
    }
}

/// How a value is written on a line for a slot of kind `kind`.
pub open spec fn written_value(kind: ArgumentKind, value: Value) -> Seq<char> {
    match value {
        Value::Unit => Seq::empty(),
        Value::Integer(_, i) => written(i),
        Value::Decimal(negative, digits) => written_decimal(negative, digits),
        Value::Text(text) => if kind == ArgumentKind::Word {
            text
        } else {
            quoted(text)
        },
    }
}

/// Whether an element can stand in an example with `value` in its slot. A
/// literal must be a word: not empty, and not beginning with whitespace.
pub open spec fn presentable(element: Element, value: Value) -> bool {
    match element {
        Element::Literal(text) => text.len() > 0 && !is_separator(text[0]),
        Element::Argument(_, kind) => fills(kind, value),
    }
}

/// How one element is written in an example: with one space in front, a
/// literal as it is and a slot as its value. A unit slot is not written.
pub open spec fn example_token(element: Element, value: Value) -> Seq<char> {
    match element {
        Element::Literal(text) => seq![' '] + text,
        Element::Argument(_, ArgumentKind::Unit) => Seq::empty(),
        Element::Argument(_, kind) => seq![' '] + written_value(kind, value),
    }
}

/// The example of a syntax with the given values in its slots: what follows
/// the command's name on the line. `values` holds one value for each
/// element; the one of a literal does not matter.
pub open spec fn example(syntax: Seq<Element>, values: Seq<Value>) -> Seq<char>
    decreases syntax.len(),
{
    if syntax.len() == 0 {
        Seq::empty()
    } else {
        example_token(syntax[0], values[0]) + example(syntax.drop_first(), values.drop_first())
    }
}

/// The store with the value of one element put into it.
pub open spec fn with_value(element: Element, value: Value, store: Store) -> Store {
    match element {
        Element::Literal(_) => store,
        Element::Argument(name, _) => store.insert(name, value),
    }
}

/// The store with the values of all slots put into it, in their order.
pub open spec fn with_values(syntax: Seq<Element>, values: Seq<Value>, store: Store) -> Store
    decreases syntax.len(),
{
    if syntax.len() == 0 {
        store
    } else {
        with_values(
            syntax.drop_first(),
            values.drop_first(),
            with_value(syntax[0], values[0], store),
        )
    }
}

/// Whether every element of `syntax` can stand in an example with the value
/// that `values` has for it.
pub open spec fn all_presentable(syntax: Seq<Element>, values: Seq<Value>) -> bool {
    &&& values.len() == syntax.len()
    &&& forall|i: int| 0 <= i < syntax.len() ==> presentable(#[trigger] syntax[i], values[i])
}

/// What a value is written as does not begin with whitespace, unless it is
/// not written at all.
proof fn lemma_written_value_begins(kind: ArgumentKind, value: Value)
    requires
        fills(kind, value),
        kind != ArgumentKind::Unit,
    ensures
        written_value(kind, value).len() > 0,
        !is_separator(written_value(kind, value)[0]),
{
    match value {
        Value::Unit => {},
        Value::Integer(_, i) => {
            if i < 0 {
                lemma_decimal((-i) as nat);
            } else {
                lemma_decimal(i as nat);
            }
        },
        Value::Decimal(negative, digits) => {},
        Value::Text(text) => {},
    }
}

/// A token of an example is empty or begins with a space that no whitespace
/// follows.
proof fn lemma_example_token_begins(element: Element, value: Value)
    requires
        presentable(element, value),
    ensures
        example_token(element, value).len() == 0 || (example_token(element, value).len() >= 2
            && example_token(element, value)[0] == ' ' && !is_separator(
            example_token(element, value)[1],
        )),
{
    match element {
        Element::Literal(text) => {},
        Element::Argument(_, kind) => {
            if kind != ArgumentKind::Unit {
                lemma_written_value_begins(kind, value);
            }
        },
    }
}

/// An example is empty or begins with a space.
proof fn lemma_example_begins(syntax: Seq<Element>, values: Seq<Value>)
    requires
        all_presentable(syntax, values),
    ensures
        example(syntax, values).len() == 0 || example(syntax, values)[0] == ' ',
    decreases syntax.len(),
{
    if syntax.len() > 0 {
        lemma_example_token_begins(syntax[0], values[0]);
        assert(all_presentable(syntax.drop_first(), values.drop_first())) by {
            assert forall|i: int| 0 <= i < syntax.drop_first().len() implies presentable(
                #[trigger] syntax.drop_first()[i],
                values.drop_first()[i],
            ) by {
                assert(syntax.drop_first()[i] == syntax[i + 1]);
            }
        }
        lemma_example_begins(syntax.drop_first(), values.drop_first());
    }
}

/// A line that holds at `offset` the token of an element, and a space or its
/// end behind it, is matched there by the element, up to the token's end,
/// and the element's value is the one read.
proof fn lemma_example_token_is_matched(
    element: Element,
    value: Value,
    source: Seq<char>,
    offset: nat,
    store: Store,
)
    requires
        presentable(element, value),
        starts_with_at(source, offset, example_token(element, value)),
        offset + example_token(element, value).len() < source.len() ==> source[(offset
            + example_token(element, value).len()) as int] == ' ',
    ensures
        match_element(element, source, offset, store) == Ok::<(Store, nat), Failure>(
            (with_value(element, value, store), offset + example_token(element, value).len()),
        ),
{
    let token = example_token(element, value);
    let taken = source.subrange(offset as int, (offset + token.len()) as int);
    assert(taken == token);
    lemma_example_token_begins(element, value);
    if token.len() > 0 {
        let at: nat = offset + 1;
        let after = token.drop_first();
        assert(source[offset as int] == taken[0]);
        assert(source[at as int] == taken[1]);
        assert(whitespace()(source[offset as int]));
        lemma_scan_while_unique(source, offset, at, whitespace());
        assert(match_spacing(source, offset) == Ok::<((), nat), Failure>(((), at)));
        assert(source.subrange(at as int, (at + after.len()) as int) =~= after) by {
            assert forall|j: int| 0 <= j < after.len() implies source[at + j] == after[j] by {
                assert(source[at + j] == taken[1 + j]);
            }
        }
        match element {
            Element::Literal(text) => {
                assert(after =~= text);
            },
            Element::Argument(name, kind) => {
                let text = written_value(kind, value);
                assert(after =~= text);
                match value {
                    Value::Unit => {},
                    Value::Integer(of, i) => {
                        lemma_written_integer_is_read(of, i, source, at);
                    },
                    Value::Decimal(negative, digits) => {
                        lemma_written_decimal_is_read(negative, digits, source, at);
                    },
                    Value::Text(inner) => {
                        if kind == ArgumentKind::Word {
                            lemma_bare_word_is_read(inner, source, at);
                        } else {
                            lemma_quoted_text_is_read(inner, source, at);
                        }
                    },
                }
            },
        }
    }
}

/// A line that goes on from `offset` to its end with the example of a
/// syntax is matched by the syntax's elements, up to its end, and the values
/// read are the values of the example.
pub proof fn lemma_example_is_matched(
    syntax: Seq<Element>,
    values: Seq<Value>,
    source: Seq<char>,
    offset: nat,
    store: Store,
)
    requires
        all_presentable(syntax, values),
        offset <= source.len(),
        source.subrange(offset as int, source.len() as int) == example(syntax, values),
    ensures
        match_elements(syntax, source, offset, store) == Ok::<(Store, nat), Failure>(
            (with_values(syntax, values, store), source.len()),
        ),
    decreases syntax.len(),
{
    let whole = example(syntax, values);
    let tail = source.subrange(offset as int, source.len() as int);
    if syntax.len() > 0 {
        let token = example_token(syntax[0], values[0]);
        let rest_syntax = syntax.drop_first();
        let rest_values = values.drop_first();
        let rest = example(rest_syntax, rest_values);
        assert(whole == token + rest);
        assert(all_presentable(rest_syntax, rest_values)) by {
            assert forall|i: int| 0 <= i < rest_syntax.len() implies presentable(
                #[trigger] rest_syntax[i],
                rest_values[i],
            ) by {
                assert(rest_syntax[i] == syntax[i + 1]);
            }
        }
        lemma_example_begins(rest_syntax, rest_values);
        let next: nat = offset + token.len();
        assert(source.subrange(offset as int, next as int) =~= token) by {
            assert forall|j: int| 0 <= j < token.len() implies source[offset + j] == token[j] by {
                assert(source[offset + j] == tail[j]);
                assert(whole[j] == token[j]);
            }
        }
        assert(source.subrange(next as int, source.len() as int) =~= rest) by {
            assert forall|j: int| 0 <= j < rest.len() implies source[next + j] == rest[j] by {
                assert(source[next + j] == tail[token.len() + j]);
                assert(whole[token.len() + j] == rest[j]);
            }
        }
        if next < source.len() {
            assert(source[next as int] == rest[0]);
        }
        lemma_example_token_is_matched(syntax[0], values[0], source, offset, store);
        lemma_example_is_matched(
            rest_syntax,
            rest_values,
            source,
            next,
            with_value(syntax[0], values[0], store),
        );
    } else {
        assert(tail.len() == 0);
    }
}

/// The line that names a command and goes on with an example of one of its
/// syntaxes.
pub open spec fn example_line(name: Seq<char>, syntax: Seq<Element>, values: Seq<Value>) -> Seq<
    char,
> {
    name + example(syntax, values)
}

/// The name that an example line begins with is read as the command's name,
/// provided that it is made of alphabetic characters.
proof fn lemma_example_line_is_named(name: Seq<char>, syntax: Seq<Element>, values: Seq<Value>)
    requires
        forall|i: int| 0 <= i < name.len() ==> is_name_char(#[trigger] name[i]),
        all_presentable(syntax, values),
    ensures
        name_end(example_line(name, syntax, values)) == name.len(),
        command_name(example_line(name, syntax, values)) == name,
{
    let line = example_line(name, syntax, values);
    lemma_example_begins(syntax, values);
    assert forall|i: int| 0 <= i < name.len() implies alphabetic()(#[trigger] line[i]) by {
        assert(line[i] == name[i]);
    }
    if name.len() < line.len() {
        assert(line[name.len() as int] == example(syntax, values)[0]);
    }
    lemma_scan_while_unique(line, 0, name.len(), alphabetic());
    assert(line.subrange(0, name.len() as int) =~= name);
}

/// Every example is dispatched: a line that names a registered command and
/// goes on with an example of one of the command's syntaxes selects a
/// handler, the one of that syntax or of a syntax before it that matches the
/// line as well. Where it is the one of that syntax, the handler is handed
/// the values of the example.
pub proof fn lemma_example_is_dispatched<H>(
    commands: Map<Seq<char>, Command<H>>,
    name: Seq<char>,
    form: nat,
    values: Seq<Value>,
)
    requires
        commands.contains_key(name),
        forall|i: int| 0 <= i < name.len() ==> is_name_char(#[trigger] name[i]),
        form < commands[name].dispatchers@.len(),
        all_presentable(forms_of(commands[name].dispatchers@)[form as int], values),
    ensures
        ({
            let syntax = forms_of(commands[name].dispatchers@)[form as int];
            let line = example_line(name, syntax, values);
            &&& match_syntax(syntax, line, name.len()) == Ok::<Store, Failure>(
                with_values(syntax, values, Map::empty()),
            )
            &&& resolve(commands, line) matches Ok(selection)
            &&& selection.name == name
            &&& selection.form <= form
            &&& selection.form == form ==> selection.args == with_values(
                syntax,
                values,
                Map::empty(),
            )
        }),
{
    let forms = forms_of(commands[name].dispatchers@);
    let syntax = forms[form as int];
    let line = example_line(name, syntax, values);
    lemma_example_line_is_named(name, syntax, values);
    assert(line.subrange(name.len() as int, line.len() as int) =~= example(syntax, values));
    lemma_example_is_matched(syntax, values, line, name.len(), Map::empty());
    lemma_select_first_match(forms, 0, line, name.len());
}

} // verus!
