//! Definitions: how the syntaxes of a command follow from the declarations
//! of its handlers.
//!
//! A handler is declared with a list of inputs, the first of which is a
//! reference to the context, and may carry a `usage` annotation. With the
//! annotation, each of its words that begins with `<` is a slot, named by
//! what stands between `<` and `>` and of the kind of the input of that
//! name; every other word is a literal. Without it, every input behind the
//! context is a slot, in the order of the declaration.

use vstd::prelude::*;
use crate::encoding::same_text;
use crate::grammar::ArgumentKind;
use crate::grammar::IntegerKind;
use crate::grammar::not_space;
use crate::parser::CommandParser;
use crate::parser::lemma_scan_while;
use crate::parser::lemma_scan_while_unique;
use crate::parser::scan_while;
use crate::source::CommandDispatch;
use crate::source::CommandUsage;
use crate::syntax::build_usage_string;
use crate::syntax::CommandSyntax;
use crate::syntax::Element;
use crate::syntax::kind_name;
use crate::syntax::usage_text;

verus! {

/// Why a definition is refused.
#[derive(Debug, Clone, PartialEq, Eq)]
pub enum DefinitionError {
    /// The first input of the handler is not a reference to the context
    /// type.
    ExpectedContextReference,
    /// The input at this position is a receiver, not a typed input.
    ExpectedTypedArgument(usize),
    /// The input at this position is bound by a pattern, not by a name.
    ExpectedIdentifier(usize),
    /// The type of the input at this position is not one that an argument
    /// can be read as.
    UnsupportedType(usize),
    /// The `usage` annotation at this position does not give a string.
    ExpectedUsageString(usize),
    /// The usage string names a slot that no input is named like.
    UnknownArgument(String),
}

/// The mathematical content of a [`DefinitionError`].
pub enum DefinitionFailure {
    ExpectedContextReference,
    ExpectedTypedArgument(nat),
    ExpectedIdentifier(nat),
    UnsupportedType(nat),
    ExpectedUsageString(nat),
    UnknownArgument(Seq<char>),
}

impl View for DefinitionError {
    type V = DefinitionFailure;

    open spec fn view(&self) -> DefinitionFailure {
        match self {
            DefinitionError::ExpectedContextReference => DefinitionFailure::ExpectedContextReference,
            DefinitionError::ExpectedTypedArgument(at) => DefinitionFailure::ExpectedTypedArgument(
                *at as nat,
            ),
            DefinitionError::ExpectedIdentifier(at) => DefinitionFailure::ExpectedIdentifier(
                *at as nat,
            ),
            DefinitionError::UnsupportedType(at) => DefinitionFailure::UnsupportedType(*at as nat),
            DefinitionError::ExpectedUsageString(at) => DefinitionFailure::ExpectedUsageString(
                *at as nat,
            ),
            DefinitionError::UnknownArgument(name) => DefinitionFailure::UnknownArgument(name@),
        }
    }
}

/// How an input of a handler is bound.
#[derive(Debug, Clone, PartialEq, Eq)]
pub enum Binding {
    /// The receiver, `self`.
    Receiver,
    /// A name.
    Name(String),
    /// Any other pattern.
    Pattern,
}

/// One input of a handler as it is declared: how it is bound, its type as
/// it is written and, where the type is a reference, the type referred to.
#[derive(Debug, Clone, PartialEq, Eq)]
pub struct Input {
    pub binding: Binding,
    pub ty: String,
    pub referent: Option<String>,
}

/// One annotation of a handler: its name and, where it has the form
/// `name = "text"`, the text.
#[derive(Debug, Clone, PartialEq, Eq)]
pub struct Annotation {
    pub name: String,
    pub text: Option<String>,
}

/// An input of a handler that is read from the command line: its name and
/// the kind that its type is read by.
#[derive(Debug, Clone, PartialEq, Eq)]
pub struct Parameter {
    pub name: String,
    pub kind: ArgumentKind,
}

/// The kind of argument that a type of the given name is read by.
pub open spec fn kind_named(name: Seq<char>) -> Option<ArgumentKind> {
    if name == "()"@ {
        Some(ArgumentKind::Unit)
    } else if name == "u8"@ {
        Some(ArgumentKind::Integer(IntegerKind::U8))
    } else if name == "u16"@ {
        Some(ArgumentKind::Integer(IntegerKind::U16))
    } else if name == "u32"@ {
        Some(ArgumentKind::Integer(IntegerKind::U32))
    } else if name == "u64"@ {
        Some(ArgumentKind::Integer(IntegerKind::U64))
    } else if name == "u128"@ {
        Some(ArgumentKind::Integer(IntegerKind::U128))
    } else if name == "usize"@ {
        Some(ArgumentKind::Integer(IntegerKind::Usize))
    } else if name == "i8"@ {
        Some(ArgumentKind::Integer(IntegerKind::I8))
    } else if name == "i16"@ {
        Some(ArgumentKind::Integer(IntegerKind::I16))
    } else if name == "i32"@ {
        Some(ArgumentKind::Integer(IntegerKind::I32))
    } else if name == "i64"@ {
        Some(ArgumentKind::Integer(IntegerKind::I64))
    } else if name == "i128"@ {
        Some(ArgumentKind::Integer(IntegerKind::I128))
    } else if name == "isize"@ {
        Some(ArgumentKind::Integer(IntegerKind::Isize))
    } else if name == "f32"@ || name == "f64"@ {
        Some(ArgumentKind::Decimal)
    } else if name == "String"@ {
        Some(ArgumentKind::Text)
    } else if name == "str"@ {
        Some(ArgumentKind::Word)
    } else {
        None
    }
}

/// The name under which a kind is shown in a usage line is the name of a
/// type that is read by that kind.
pub proof fn lemma_kind_name_is_read_back(kind: ArgumentKind)
    ensures
        kind_named(kind_name(kind)) == Some(kind),
{
    reveal_strlit("()");
    reveal_strlit("u8");
    reveal_strlit("u16");
    reveal_strlit("u32");
    reveal_strlit("u64");
    reveal_strlit("u128");
    reveal_strlit("usize");
    reveal_strlit("i8");
    reveal_strlit("i16");
    reveal_strlit("i32");
    reveal_strlit("i64");
    reveal_strlit("i128");
    reveal_strlit("isize");
    reveal_strlit("f32");
    reveal_strlit("f64");
    reveal_strlit("String");
    reveal_strlit("str");
    assert("()"@.len() == 2 && "()"@[0] == '(' && "()"@[1] == ')');
    assert("u8"@.len() == 2 && "u8"@[0] == 'u' && "u8"@[1] == '8');
    assert("u16"@.len() == 3 && "u16"@[0] == 'u' && "u16"@[1] == '1');
    assert("u32"@.len() == 3 && "u32"@[0] == 'u' && "u32"@[1] == '3');
    assert("u64"@.len() == 3 && "u64"@[0] == 'u' && "u64"@[1] == '6');
    assert("u128"@.len() == 4 && "u128"@[0] == 'u' && "u128"@[1] == '1');
    assert("usize"@.len() == 5 && "usize"@[0] == 'u' && "usize"@[1] == 's');
    assert("i8"@.len() == 2 && "i8"@[0] == 'i' && "i8"@[1] == '8');
    assert("i16"@.len() == 3 && "i16"@[0] == 'i' && "i16"@[1] == '1');
    assert("i32"@.len() == 3 && "i32"@[0] == 'i' && "i32"@[1] == '3');
    assert("i64"@.len() == 3 && "i64"@[0] == 'i' && "i64"@[1] == '6');
    assert("i128"@.len() == 4 && "i128"@[0] == 'i' && "i128"@[1] == '1');
    assert("isize"@.len() == 5 && "isize"@[0] == 'i' && "isize"@[1] == 's');
    assert("f32"@.len() == 3 && "f32"@[0] == 'f' && "f32"@[1] == '3');
    assert("f64"@.len() == 3 && "f64"@[0] == 'f' && "f64"@[1] == '6');
    assert("String"@.len() == 6 && "String"@[0] == 'S' && "String"@[1] == 't');
    assert("str"@.len() == 3 && "str"@[0] == 's' && "str"@[1] == 't');
}

/// A parameter as the grammar sees it: its name and its kind.
pub type Slot = (Seq<char>, ArgumentKind);

/// The kind of the first of `parameters` that is named `name`.
pub open spec fn kind_of(parameters: Seq<Slot>, name: Seq<char>) -> Option<ArgumentKind>
    decreases parameters.len(),
{
    if parameters.len() == 0 {
        None
    } else if parameters[0].0 == name {
        Some(parameters[0].1)
    } else {
        kind_of(parameters.drop_first(), name)
    }
}

/// Whether the inputs begin with a reference to the context type.
pub open spec fn takes_context(inputs: Seq<Input>, context_type: Seq<char>) -> bool {
    &&& inputs.len() > 0
    &&& !(inputs[0].binding is Receiver)
    &&& inputs[0].referent matches Some(referent)
    &&& referent@ == context_type
}

/// The parameter that the input at position `at` declares.
pub open spec fn parameter_of(input: Input, at: nat) -> Result<Slot, DefinitionFailure> {
    match input.binding {
        Binding::Receiver => Err(DefinitionFailure::ExpectedTypedArgument(at)),
        Binding::Pattern => Err(DefinitionFailure::ExpectedIdentifier(at)),
        Binding::Name(name) => match kind_named(input.ty@) {
            Some(kind) => Ok((name@, kind)),
            None => Err(DefinitionFailure::UnsupportedType(at)),
        },
    }
}

/// The names and kinds of a list of parameters.
pub open spec fn named_kinds(parameters: Seq<Parameter>) -> Seq<Slot> {
    Seq::new(parameters.len(), |i: int| (parameters[i].name@, parameters[i].kind))
}

/// The parameters that the inputs from `from` on declare, or what is wrong
/// with the first of them that declares none.
pub open spec fn parameters_of(inputs: Seq<Input>, from: nat) -> Result<Seq<Slot>, DefinitionFailure>
    decreases inputs.len() - from,
{
    if from >= inputs.len() {
        Ok(Seq::empty())
    } else {
        match parameter_of(inputs[from as int], from) {
            Ok(parameter) => match parameters_of(inputs, from + 1) {
                Ok(rest) => Ok(seq![parameter] + rest),
                Err(failure) => Err(failure),
            },
            Err(failure) => Err(failure),
        }
    }
}

/// The position of the first annotation from `from` on that is named
/// `usage`, if there is one.
pub open spec fn usage_position(annotations: Seq<Annotation>, from: nat) -> Option<nat>
    decreases annotations.len() - from,
{
    if from >= annotations.len() {
        None
    } else if annotations[from as int].name@ == "usage"@ {
        Some(from)
    } else {
        usage_position(annotations, from + 1)
    }
}

/// The syntax that a list of parameters stands for without a usage string:
/// one slot for each, in their order.
pub open spec fn signature_syntax(parameters: Seq<Slot>) -> Seq<Element> {
    Seq::new(parameters.len(), |i: int| Element::Argument(parameters[i].0, parameters[i].1))
}

/// The predicate "is not `>`", as a value that scans can take.
pub open spec fn not_closing() -> spec_fn(char) -> bool {
    |c: char| c != '>'
}

/// The name of the slot that the word `word` of a usage string stands for:
/// what follows its first character, up to the first `>`.
pub open spec fn slot_name(word: Seq<char>) -> Seq<char> {
    word.subrange(1, scan_while(word, 1, not_closing()) as int)
}

/// The element that the word `word` of a usage string stands for.
pub open spec fn usage_element(parameters: Seq<Slot>, word: Seq<char>) -> Result<
    Element,
    DefinitionFailure,
> {
    if word.len() > 0 && word[0] == '<' {
        match kind_of(parameters, slot_name(word)) {
            Some(kind) => Ok(Element::Argument(slot_name(word), kind)),
            None => Err(DefinitionFailure::UnknownArgument(slot_name(word))),
        }
    } else {
        Ok(Element::Literal(word))
    }
}

/// The syntax that the usage string stands for from `from` on. The words of
/// the string are what single spaces set apart, so that two spaces in a row
/// hold an empty word between them.
pub open spec fn usage_syntax(parameters: Seq<Slot>, usage: Seq<char>, from: nat) -> Result<
    Seq<Element>,
    DefinitionFailure,
>
    decreases usage.len() - from,
{
    let end = scan_while(usage, from, not_space());
    if from > usage.len() {
        Ok(Seq::empty())
    } else {
        match usage_element(parameters, usage.subrange(from as int, end as int)) {
            Ok(element) => if end < usage.len() {
                proof {
                    lemma_scan_while(usage, from, not_space());
                }
                match usage_syntax(parameters, usage, end + 1) {
                    Ok(rest) => Ok(seq![element] + rest),
                    Err(failure) => Err(failure),
                }
            } else {
                Ok(seq![element])
            },
            Err(failure) => Err(failure),
        }
    }
}

impl ArgumentKind {
    /// The kind of argument that a type of the given name is read by.
    pub fn named(name: &str) -> (kind: Option<ArgumentKind>)
        ensures
            kind == kind_named(name@),
    {
        if same_text(name, "()") {
            Some(ArgumentKind::Unit)
        } else if same_text(name, "u8") {
            Some(ArgumentKind::Integer(IntegerKind::U8))
        } else if same_text(name, "u16") {
            Some(ArgumentKind::Integer(IntegerKind::U16))
        } else if same_text(name, "u32") {
            Some(ArgumentKind::Integer(IntegerKind::U32))
        } else if same_text(name, "u64") {
            Some(ArgumentKind::Integer(IntegerKind::U64))
        } else if same_text(name, "u128") {
            Some(ArgumentKind::Integer(IntegerKind::U128))
        } else if same_text(name, "usize") {
            Some(ArgumentKind::Integer(IntegerKind::Usize))
        } else if same_text(name, "i8") {
            Some(ArgumentKind::Integer(IntegerKind::I8))
        } else if same_text(name, "i16") {
            Some(ArgumentKind::Integer(IntegerKind::I16))
        } else if same_text(name, "i32") {
            Some(ArgumentKind::Integer(IntegerKind::I32))
        } else if same_text(name, "i64") {
            Some(ArgumentKind::Integer(IntegerKind::I64))
        } else if same_text(name, "i128") {
            Some(ArgumentKind::Integer(IntegerKind::I128))
        } else if same_text(name, "isize") {
            Some(ArgumentKind::Integer(IntegerKind::Isize))
        } else if same_text(name, "f32") || same_text(name, "f64") {
            Some(ArgumentKind::Decimal)
        } else if same_text(name, "String") {
            Some(ArgumentKind::Text)
        } else if same_text(name, "str") {
            Some(ArgumentKind::Word)
        } else {
            None
        }
    }
}

/// Checks that the inputs of a handler begin with a reference to the
/// context type.
pub fn check_context_arg(inputs: &Vec<Input>, context_type: &str) -> (r: Result<(), DefinitionError>)
    ensures
        takes_context(inputs@, context_type@) ==> r is Ok,
        !takes_context(inputs@, context_type@) ==> (r matches Err(e) && e@
            == DefinitionFailure::ExpectedContextReference),
{
    if inputs.len() == 0 {
        return Err(DefinitionError::ExpectedContextReference);
    }
    let first = &inputs[0];
    match first.binding {
        Binding::Receiver => Err(DefinitionError::ExpectedContextReference),
        _ => match &first.referent {
            Some(referent) => {
                if same_text(referent.as_str(), context_type) {
                    Ok(())
                } else {
                    Err(DefinitionError::ExpectedContextReference)
                }
            },
            None => Err(DefinitionError::ExpectedContextReference),
        },
    }
}

/// Collects the parameters that a handler reads from the command line: all
/// its inputs but the first, each with its name and the kind of its type.
pub fn extract_args_from_signature(inputs: &Vec<Input>) -> (r: Result<Vec<Parameter>, DefinitionError>)
    ensures
        match parameters_of(inputs@, 1) {
            Ok(parameters) => r matches Ok(found) && named_kinds(found@) == parameters,
            Err(failure) => r matches Err(e) && e@ == failure,
        },
{
    let mut parameters: Vec<Parameter> = Vec::new();
    let mut i: usize = 1;
    assert(named_kinds(parameters@) =~= Seq::empty());
    while i < inputs.len()
        invariant
            1 <= i,
            match parameters_of(inputs@, i as nat) {
                Ok(rest) => parameters_of(inputs@, 1) == Ok::<Seq<Slot>, DefinitionFailure>(
                    named_kinds(parameters@) + rest,
                ),
                Err(failure) => parameters_of(inputs@, 1) == Err::<Seq<Slot>, DefinitionFailure>(
                    failure,
                ),
            },
        decreases inputs.len() - i,
    {
        let input = &inputs[i];
        let ghost before = named_kinds(parameters@);
        match &input.binding {
            Binding::Receiver => {
                return Err(DefinitionError::ExpectedTypedArgument(i));
            },
            Binding::Pattern => {
                return Err(DefinitionError::ExpectedIdentifier(i));
            },
            Binding::Name(name) => {
                match ArgumentKind::named(input.ty.as_str()) {
                    Some(kind) => {
                        parameters.push(Parameter { name: name.clone(), kind });
                        proof {
                            assert(named_kinds(parameters@) =~= before.push((name@, kind)));
                            if let Ok(rest) = parameters_of(inputs@, (i + 1) as nat) {
                                assert(before.push((name@, kind)) + rest =~= before + (seq![
                                    (name@, kind),
                                ] + rest));
                            }
                        }
                    },
                    None => {
                        return Err(DefinitionError::UnsupportedType(i));
                    },
                }
            },
        }
        i = i + 1;
    }
    proof {
        assert(named_kinds(parameters@) + Seq::empty() =~= named_kinds(parameters@));
    }
    Ok(parameters)
}

/// Takes the usage string out of the annotations of a handler: the text of
/// the first annotation that is named `usage`, which leaves the list. An
/// annotation of that name without a text is an error.
pub fn extract_usage_string_from_metadata(annotations: &mut Vec<Annotation>) -> (r: Result<
    Option<String>,
    DefinitionError,
>)
    ensures
        match usage_position(old(annotations)@, 0) {
            None => {
                &&& r == Ok::<Option<String>, DefinitionError>(None)
                &&& final(annotations)@ == old(annotations)@
            },
            Some(at) => match old(annotations)@[at as int].text {
                Some(text) => {
                    &&& r == Ok::<Option<String>, DefinitionError>(Some(text))
                    &&& final(annotations)@ == old(annotations)@.remove(at as int)
                },
                None => {
                    &&& r matches Err(e)
                    &&& e@ == DefinitionFailure::ExpectedUsageString(at)
                    &&& final(annotations)@ == old(annotations)@
                },
            },
        },
{
    let mut i: usize = 0;
    while i < annotations.len()
        invariant
            annotations@ == old(annotations)@,
            usage_position(annotations@, 0) == usage_position(annotations@, i as nat),
        decreases annotations.len() - i,
    {
        if same_text(annotations[i].name.as_str(), "usage") {
            if annotations[i].text.is_some() {
                let annotation: Annotation = annotations.remove(i);
                return Ok(annotation.text);
            } else {
                return Err(DefinitionError::ExpectedUsageString(i));
            }
        }
        i = i + 1;
    }
    Ok(None)
}

/// Builds the syntax of a handler without a usage string: one slot for each
/// parameter, in their order.
pub fn build_syntax_from_signature(parameters: &Vec<Parameter>) -> (syntax: Vec<CommandSyntax>)
    ensures
        syntax.deep_view() == signature_syntax(named_kinds(parameters@)),
{
    let mut syntax: Vec<CommandSyntax> = Vec::new();
    let mut i: usize = 0;
    while i < parameters.len()
        invariant
            i <= parameters.len(),
            syntax@.len() == i,
            forall|j: int|
                0 <= j < i ==> (#[trigger] syntax@[j])@ == Element::Argument(
                    parameters@[j].name@,
                    parameters@[j].kind,
                ),
        decreases parameters.len() - i,
    {
        syntax.push(CommandSyntax::Argument(parameters[i].name.clone(), parameters[i].kind));
        i = i + 1;
    }
    assert(syntax.deep_view() =~= signature_syntax(named_kinds(parameters@)));
    syntax
}

/// Finds the kind of the parameter that is named `name`.
fn find_kind(parameters: &Vec<Parameter>, name: &str) -> (kind: Option<ArgumentKind>)
    ensures
        kind == kind_of(named_kinds(parameters@), name@),
{
    let ghost slots = named_kinds(parameters@);
    let mut i: usize = 0;
    assert(slots.skip(0) =~= slots);
    while i < parameters.len()
        invariant
            i <= parameters.len(),
            slots == named_kinds(parameters@),
            kind_of(slots, name@) == kind_of(slots.skip(i as int), name@),
        decreases parameters.len() - i,
    {
        proof {
            assert(slots.skip(i as int).drop_first() =~= slots.skip(i + 1));
        }
        if same_text(parameters[i].name.as_str(), name) {
            return Some(parameters[i].kind);
        }
        i = i + 1;
    }
    None
}

/// Builds the element that one word of a usage string stands for.
fn build_element(parameters: &Vec<Parameter>, word: &str) -> (r: Result<CommandSyntax, DefinitionError>)
    ensures
        match usage_element(named_kinds(parameters@), word@) {
            Ok(element) => r matches Ok(built) && built@ == element,
            Err(failure) => r matches Err(e) && e@ == failure,
        },
{
    let mut parser = CommandParser::new(word);
    let opens: bool = match parser.peek() {
        Some(c) => c == '<',
        None => false,
    };
    if opens {
        parser.advance(1);
        let inside = |c: char| -> (b: bool)
            ensures
                b == (c != '>'),
            { c != '>' };
        let name: &str = parser.read_while(inside);
        proof {
            lemma_scan_while_unique(word@, 1, parser@.offset, not_closing());
        }
        match find_kind(parameters, name) {
            Some(kind) => Ok(CommandSyntax::Argument(name.to_owned(), kind)),
            None => Err(DefinitionError::UnknownArgument(name.to_owned())),
        }
    } else {
        Ok(CommandSyntax::Literal(word.to_owned()))
    }
}

/// Builds the syntax that a usage string stands for. Each word that begins
/// with `<` is the slot of the parameter that is named between `<` and `>`,
/// and an error if there is no such parameter; every other word is a
/// literal.
pub fn build_syntax_from_usage(parameters: &Vec<Parameter>, usage: &str) -> (r: Result<
    Vec<CommandSyntax>,
    DefinitionError,
>)
    ensures
        match usage_syntax(named_kinds(parameters@), usage@, 0) {
            Ok(elements) => r matches Ok(syntax) && syntax.deep_view() == elements,
            Err(failure) => r matches Err(e) && e@ == failure,
        },
{
    let mut syntax: Vec<CommandSyntax> = Vec::new();
    let mut parser = CommandParser::new(usage);
    assert(syntax.deep_view() =~= Seq::empty());
    loop
        invariant
            parser@.source == usage@,
            parser@.wf(),
            match usage_syntax(named_kinds(parameters@), usage@, parser@.offset) {
                Ok(rest) => usage_syntax(named_kinds(parameters@), usage@, 0) == Ok::<
                    Seq<Element>,
                    DefinitionFailure,
                >(syntax.deep_view() + rest),
                Err(failure) => usage_syntax(named_kinds(parameters@), usage@, 0) == Err::<
                    Seq<Element>,
                    DefinitionFailure,
                >(failure),
            },
        decreases usage@.len() - parser@.offset,
    {
        let ghost from = parser@.offset;
        let ghost before = syntax.deep_view();
        let no_space = |c: char| -> (b: bool)
            ensures
                b == (c != ' '),
            { c != ' ' };
        let word: &str = parser.read_while(no_space);
        proof {
            lemma_scan_while_unique(usage@, from, parser@.offset, not_space());
        }
        let element: CommandSyntax = match build_element(parameters, word) {
            Ok(element) => element,
            Err(e) => {
                return Err(e);
            },
        };
        let ghost shown = element@;
        syntax.push(element);
        proof {
            assert(syntax.deep_view() =~= before.push(shown));
        }
        if parser.remaining() == 0 {
            proof {
                assert(before + seq![shown] =~= before.push(shown));
            }
            return Ok(syntax);
        }
        proof {
            if let Ok(rest) = usage_syntax(
                named_kinds(parameters@),
                usage@,
                (parser@.offset + 1) as nat,
            ) {
                assert(before.push(shown) + rest =~= before + (seq![shown] + rest));
            }
        }
        parser.advance(1);
    }
}

/// A handler as it is declared: its name, its annotations, its inputs, and
/// whether it returns an exit code of its own.
#[derive(Debug, Clone, PartialEq, Eq)]
pub struct HandlerDeclaration {
    pub name: String,
    pub annotations: Vec<Annotation>,
    pub inputs: Vec<Input>,
    pub returns_value: bool,
}

/// One way to write a command, as it follows from the declaration of a
/// handler: the handler's name, the usage line, the syntax, and whether the
/// handler returns an exit code of its own (one that does not exits with 0).
#[derive(Debug, Clone, PartialEq, Eq)]
pub struct CommandVariant {
    pub name: String,
    pub usage: String,
    pub syntax: Vec<CommandSyntax>,
    pub returns_value: bool,
}

/// A command as it follows from the declarations of its handlers.
#[derive(Debug, Clone, PartialEq, Eq)]
pub struct CommandDefinition {
    pub name: String,
    pub context_type: String,
    pub variants: Vec<CommandVariant>,
}

/// Whether the inputs of a handler are in order: the context first, then
/// parameters only.
pub open spec fn inputs_in_order(inputs: Seq<Input>, context_type: Seq<char>) -> bool {
    takes_context(inputs, context_type) && parameters_of(inputs, 1) is Ok
}

/// The syntax that follows from the annotations and inputs of a handler, or
/// why there is none.
pub open spec fn declared_syntax(
    annotations: Seq<Annotation>,
    inputs: Seq<Input>,
    context_type: Seq<char>,
) -> Result<Seq<Element>, DefinitionFailure> {
    if !takes_context(inputs, context_type) {
        Err(DefinitionFailure::ExpectedContextReference)
    } else {
        match parameters_of(inputs, 1) {
            Ok(parameters) => match usage_position(annotations, 0) {
                Some(at) => match annotations[at as int].text {
                    Some(text) => usage_syntax(parameters, text@, 0),
                    None => Err(DefinitionFailure::ExpectedUsageString(at)),
                },
                None => Ok(signature_syntax(parameters)),
            },
            Err(failure) => Err(failure),
        }
    }
}

/// The annotations that stay with a handler once its usage string is taken.
pub open spec fn without_usage(annotations: Seq<Annotation>) -> Seq<Annotation> {
    match usage_position(annotations, 0) {
        Some(at) => if annotations[at as int].text is Some {
            annotations.remove(at as int)
        } else {
            annotations
        },
        None => annotations,
    }
}

/// The names of the slots of a syntax, in their order.
pub open spec fn slot_names(syntax: Seq<Element>) -> Seq<Seq<char>>
    decreases syntax.len(),
{
    if syntax.len() == 0 {
        Seq::empty()
    } else {
        match syntax.last() {
            Element::Argument(name, _) => slot_names(syntax.drop_last()).push(name),
            Element::Literal(_) => slot_names(syntax.drop_last()),
        }
    }
}

/// The syntaxes that follow from the declarations from `from` on, or what is
/// wrong with the first of them that yields none.
pub open spec fn defined_syntaxes(
    functions: Seq<HandlerDeclaration>,
    context_type: Seq<char>,
    from: nat,
) -> Result<Seq<Seq<Element>>, DefinitionFailure>
    decreases functions.len() - from,
{
    if from >= functions.len() {
        Ok(Seq::empty())
    } else {
        match declared_syntax(
            functions[from as int].annotations@,
            functions[from as int].inputs@,
            context_type,
        ) {
            Ok(syntax) => match defined_syntaxes(functions, context_type, from + 1) {
                Ok(rest) => Ok(seq![syntax] + rest),
                Err(failure) => Err(failure),
            },
            Err(failure) => Err(failure),
        }
    }
}

/// The annotations that stay with a handler once a way to write the command
/// was derived from it, or could not be: the usage string is taken as soon
/// as the inputs are found in order.
pub open spec fn annotations_left(function: HandlerDeclaration, context_type: Seq<char>) -> Seq<
    Annotation,
> {
    if inputs_in_order(function.inputs@, context_type) {
        without_usage(function.annotations@)
    } else {
        function.annotations@
    }
}

/// The position of the first declaration from `from` on that yields no
/// syntax, if there is one.
pub open spec fn refused_at(
    functions: Seq<HandlerDeclaration>,
    context_type: Seq<char>,
    from: nat,
) -> Option<nat>
    decreases functions.len() - from,
{
    if from >= functions.len() {
        None
    } else if declared_syntax(
        functions[from as int].annotations@,
        functions[from as int].inputs@,
        context_type,
    ) is Err {
        Some(from)
    } else {
        refused_at(functions, context_type, from + 1)
    }
}

/// Whether the declaration at position `at` is looked at when a command is
/// defined: every one up to the first that is refused.
pub open spec fn examined(
    functions: Seq<HandlerDeclaration>,
    context_type: Seq<char>,
    at: int,
) -> bool {
    match refused_at(functions, context_type, 0) {
        Some(refused) => at <= refused,
        None => true,
    }
}

/// The names of the handler's arguments in the order in which the handler is
/// called with them: the names of the syntax's slots.
pub fn argument_names(syntax: &Vec<CommandSyntax>) -> (names: Vec<String>)
    ensures
        names.deep_view() == slot_names(syntax.deep_view()),
{
    let ghost elements = syntax.deep_view();
    let mut names: Vec<String> = Vec::new();
    let mut i: usize = 0;
    assert(elements.take(0) =~= Seq::empty());
    assert(names.deep_view() =~= Seq::empty());
    while i < syntax.len()
        invariant
            i <= syntax.len(),
            elements == syntax.deep_view(),
            names.deep_view() == slot_names(elements.take(i as int)),
        decreases syntax.len() - i,
    {
        let ghost before = names.deep_view();
        proof {
            let longer = elements.take(i + 1);
            assert(longer.drop_last() =~= elements.take(i as int));
            assert(longer.last() == syntax[i as int]@);
        }
        match &syntax[i] {
            CommandSyntax::Argument(name, _) => {
                names.push(name.clone());
                proof {
                    assert(names.deep_view() =~= before.push(name@));
                }
            },
            CommandSyntax::Literal(_) => {},
        }
        i = i + 1;
    }
    assert(elements.take(i as int) =~= elements);
    names
}

/// Copies a syntax.
pub fn copy_syntax(syntax: &Vec<CommandSyntax>) -> (copy: Vec<CommandSyntax>)
    ensures
        copy.deep_view() == syntax.deep_view(),
{
    let mut copy: Vec<CommandSyntax> = Vec::new();
    let mut i: usize = 0;
    while i < syntax.len()
        invariant
            i <= syntax.len(),
            copy@.len() == i,
            forall|j: int| 0 <= j < i ==> (#[trigger] copy@[j])@ == syntax@[j]@,
        decreases syntax.len() - i,
    {
        let element = match &syntax[i] {
            CommandSyntax::Literal(text) => CommandSyntax::Literal(text.clone()),
            CommandSyntax::Argument(name, kind) => CommandSyntax::Argument(name.clone(), *kind),
        };
        copy.push(element);
        i = i + 1;
    }
    assert(copy.deep_view() =~= syntax.deep_view());
    copy
}

impl CommandVariant {
    /// Derives the way to write a command that a handler stands for. The
    /// handler's usage string, if it has one, leaves its annotations.
    pub fn declare(function: &mut HandlerDeclaration, context_type: &str) -> (r: Result<
        CommandVariant,
        DefinitionError,
    >)
        ensures
            final(function).name == old(function).name,
            final(function).inputs == old(function).inputs,
            final(function).returns_value == old(function).returns_value,
            final(function).annotations@ == annotations_left(*old(function), context_type@),
            match declared_syntax(
                old(function).annotations@,
                old(function).inputs@,
                context_type@,
            ) {
                Ok(syntax) => {
                    &&& r matches Ok(variant)
                    &&& variant.name@ == old(function).name@
                    &&& variant.returns_value == old(function).returns_value
                    &&& variant.syntax.deep_view() == syntax
                    &&& variant.usage@ == usage_text(syntax)
                },
                Err(failure) => r matches Err(e) && e@ == failure,
            },
    {
        match check_context_arg(&function.inputs, context_type) {
            Ok(_) => {},
            Err(e) => {
                return Err(e);
            },
        }
        let parameters: Vec<Parameter> = match extract_args_from_signature(&function.inputs) {
            Ok(parameters) => parameters,
            Err(e) => {
                return Err(e);
            },
        };
        let usage: Option<String> = match extract_usage_string_from_metadata(
            &mut function.annotations,
        ) {
            Ok(usage) => usage,
            Err(e) => {
                return Err(e);
            },
        };
        let syntax: Vec<CommandSyntax> = match usage {
            Some(usage) => match build_syntax_from_usage(&parameters, usage.as_str()) {
                Ok(syntax) => syntax,
                Err(e) => {
                    return Err(e);
                },
            },
            None => build_syntax_from_signature(&parameters),
        };
        Ok(
            CommandVariant {
                name: function.name.clone(),
                usage: build_usage_string(&syntax),
                syntax,
                returns_value: function.returns_value,
            },
        )
    }
}

impl CommandDefinition {
    /// Derives a command from the declarations of its handlers, one way to
    /// write it for each, in their order. The first declaration that is not
    /// in order ends the definition with its error.
    pub fn define(name: &str, context_type: &str, functions: &mut Vec<HandlerDeclaration>) -> (r:
        Result<CommandDefinition, DefinitionError>)
        ensures
            final(functions)@.len() == old(functions)@.len(),
            forall|i: int|
                0 <= i < old(functions)@.len() ==> {
                    &&& (#[trigger] final(functions)@[i]).name == old(functions)@[i].name
                    &&& final(functions)@[i].inputs == old(functions)@[i].inputs
                    &&& final(functions)@[i].returns_value == old(functions)@[i].returns_value
                    &&& final(functions)@[i].annotations@ == if examined(
                        old(functions)@,
                        context_type@,
                        i,
                    ) {
                        annotations_left(old(functions)@[i], context_type@)
                    } else {
                        old(functions)@[i].annotations@
                    }
                },
            match defined_syntaxes(old(functions)@, context_type@, 0) {
                Ok(syntaxes) => {
                    &&& r matches Ok(definition)
                    &&& definition.name@ == name@
                    &&& definition.context_type@ == context_type@
                    &&& definition.variants@.len() == syntaxes.len()
                    &&& syntaxes.len() == old(functions)@.len()
                    &&& forall|i: int|
                        0 <= i < syntaxes.len() ==> {
                            &&& (#[trigger] definition.variants@[i]).syntax.deep_view()
                                == syntaxes[i]
                            &&& definition.variants@[i].usage@ == usage_text(syntaxes[i])
                            &&& definition.variants@[i].name@ == old(functions)@[i].name@
                            &&& definition.variants@[i].returns_value == old(
                                functions,
                            )@[i].returns_value
                        }
                },
                Err(failure) => r matches Err(e) && e@ == failure,
            },
    {
        let mut variants: Vec<CommandVariant> = Vec::new();
        let ghost mut done: Seq<Seq<Element>> = Seq::empty();
        let mut i: usize = 0;
        proof {
            if let Ok(rest) = defined_syntaxes(old(functions)@, context_type@, 0) {
                assert(done + rest =~= rest);
            }
        }
        while i < functions.len()
            invariant
                i <= functions@.len(),
                functions@.len() == old(functions)@.len(),
                variants@.len() == i,
                done.len() == i,
                forall|j: int| i <= j < functions@.len() ==> functions@[j] == old(functions)@[j],
                refused_at(old(functions)@, context_type@, 0) == refused_at(
                    old(functions)@,
                    context_type@,
                    i as nat,
                ),
                match defined_syntaxes(old(functions)@, context_type@, i as nat) {
                    Ok(rest) => defined_syntaxes(old(functions)@, context_type@, 0) == Ok::<
                        Seq<Seq<Element>>,
                        DefinitionFailure,
                    >(done + rest),
                    Err(failure) => defined_syntaxes(old(functions)@, context_type@, 0) == Err::<
                        Seq<Seq<Element>>,
                        DefinitionFailure,
                    >(failure),
                },
                forall|j: int|
                    0 <= j < i ==> {
                        &&& (#[trigger] variants@[j]).syntax.deep_view() == done[j]
                        &&& variants@[j].usage@ == usage_text(done[j])
                        &&& variants@[j].name@ == old(functions)@[j].name@
                        &&& variants@[j].returns_value == old(functions)@[j].returns_value
                    },
                forall|j: int|
                    0 <= j < i ==> {
                        &&& (#[trigger] functions@[j]).name == old(functions)@[j].name
                        &&& functions@[j].inputs == old(functions)@[j].inputs
                        &&& functions@[j].returns_value == old(functions)@[j].returns_value
                        &&& functions@[j].annotations@ == annotations_left(
                            old(functions)@[j],
                            context_type@,
                        )
                    },
            decreases functions.len() - i,
        {
            let ghost before = done;
            let variant = match CommandVariant::declare(&mut functions[i], context_type) {
                Ok(variant) => variant,
                Err(e) => {
                    return Err(e);
                },
            };
            proof {
                let syntax = variant.syntax.deep_view();
                done = before.push(syntax);
                if let Ok(rest) = defined_syntaxes(old(functions)@, context_type@, (i + 1) as nat) {
                    assert(before.push(syntax) + rest =~= before + (seq![syntax] + rest));
                }
            }
            variants.push(variant);
            i = i + 1;
        }
        proof {
            assert(done + Seq::<Seq<Element>>::empty() =~= done);
        }
        Ok(
            CommandDefinition {
                name: name.to_owned(),
                context_type: context_type.to_owned(),
                variants,
            },
        )
    }

    /// What the command shows of itself: its name and the usage line of
    /// each way to write it.
    pub fn usage(&self) -> (usage: CommandUsage)
        ensures
            usage.name@ == self.name@,
            usage.description is None,
            usage.usage@.len() == self.variants@.len(),
            forall|i: int|
                0 <= i < self.variants@.len() ==> (#[trigger] usage.usage@[i])@
                    == self.variants@[i].usage@,
    {
        let mut lines: Vec<String> = Vec::new();
        let mut i: usize = 0;
        while i < self.variants.len()
            invariant
                i <= self.variants@.len(),
                lines@.len() == i,
                forall|j: int| 0 <= j < i ==> (#[trigger] lines@[j])@ == self.variants@[j].usage@,
            decreases self.variants.len() - i,
        {
            lines.push(self.variants[i].usage.clone());
            i = i + 1;
        }
        CommandUsage { name: self.name.clone(), usage: lines, description: None }
    }

    /// Joins each way to write the command with its handler, in their
    /// order.
    pub fn dispatchers<H>(&self, handlers: Vec<H>) -> (dispatchers: Vec<CommandDispatch<H>>)
        requires
            handlers@.len() == self.variants@.len(),
        ensures
            dispatchers@.len() == self.variants@.len(),
            forall|i: int|
                0 <= i < self.variants@.len() ==> {
                    &&& (#[trigger] dispatchers@[i]).syntax.deep_view()
                        == self.variants@[i].syntax.deep_view()
                    &&& dispatchers@[i].handler == handlers@[i]
                },
    {
        let ghost given = handlers@;
        let mut handlers = handlers;
        let mut dispatchers: Vec<CommandDispatch<H>> = Vec::new();
        let mut i: usize = 0;
        while i < self.variants.len()
            invariant
                i <= self.variants@.len(),
                given.len() == self.variants@.len(),
                dispatchers@.len() == i,
                handlers@ == given.skip(i as int),
                forall|j: int|
                    0 <= j < i ==> {
                        &&& (#[trigger] dispatchers@[j]).syntax.deep_view()
                            == self.variants@[j].syntax.deep_view()
                        &&& dispatchers@[j].handler == given[j]
                    },
            decreases self.variants.len() - i,
        {
            let handler: H = handlers.remove(0);
            proof {
                assert(handlers@ =~= given.skip(i + 1));
            }
            dispatchers.push(CommandDispatch { syntax: copy_syntax(&self.variants[i].syntax), handler });
            i = i + 1;
        }
        dispatchers
    }
}

} // verus!
