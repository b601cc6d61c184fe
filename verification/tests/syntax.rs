use oberst::arguments::CommandArgs;
use oberst::grammar::ArgumentKind;
use oberst::grammar::IntegerKind;
use oberst::parser::CommandParser;
use oberst::parser::ParseErrorKind;
use oberst::syntax::apply_syntax;
use oberst::syntax::build_usage_string;
use oberst::syntax::CommandSyntax;

fn lit(text: &str) -> CommandSyntax {
    CommandSyntax::Literal(text.to_string())
}

fn arg(name: &str, kind: ArgumentKind) -> CommandSyntax {
    CommandSyntax::Argument(name.to_string(), kind)
}

fn u32_kind() -> ArgumentKind {
    ArgumentKind::Integer(IntegerKind::U32)
}

fn matched(syntax: &Vec<CommandSyntax>, line: &str, from: usize) -> Result<CommandArgs, (ParseErrorKind, usize)> {
    let mut parser = CommandParser::new(line);
    parser.advance(from);
    apply_syntax(syntax, &mut parser).map_err(|e| (e.kind, e.offset))
}

fn failure(syntax: &Vec<CommandSyntax>, line: &str, from: usize) -> (ParseErrorKind, usize) {
    match matched(syntax, line, from) {
        Ok(_) => panic!("expected a failure"),
        Err(failure) => failure,
    }
}

#[test]
fn a_syntax_matches_its_elements_in_their_order() {
    let syntax = vec![lit("with"), arg("arg", u32_kind()), lit("and"), arg("name", ArgumentKind::Text)];
    let args = matched(&syntax, "foo with 42 and \"bob\"", 3).unwrap();
    assert_eq!(args.get::<u32>("arg"), Some(&42u32));
    assert_eq!(args.get::<String>("name"), Some(&"bob".to_string()));
    assert_eq!(failure(&syntax, "foo and 42 with \"bob\"", 3), (ParseErrorKind::BadLiteral, 4));
}

#[test]
fn elements_are_set_apart_by_any_run_of_whitespace() {
    let syntax = vec![lit("with"), arg("arg", u32_kind())];
    assert!(matched(&syntax, "foo \t with\n\n42", 3).is_ok());
    assert_eq!(failure(&syntax, "foowith 42", 3), (ParseErrorKind::ExpectedWhitespace, 3));
    assert_eq!(failure(&syntax, "foo with42", 3), (ParseErrorKind::ExpectedWhitespace, 8));
}

#[test]
fn input_behind_the_last_element_is_refused() {
    let syntax = vec![lit("with"), arg("arg", u32_kind())];
    assert_eq!(failure(&syntax, "foo with 42 ", 3), (ParseErrorKind::ExpectedEof, 11));
    assert_eq!(failure(&syntax, "foo with 42x", 3), (ParseErrorKind::ExpectedEof, 11));
    assert_eq!(failure(&syntax, "foo with 42 43", 3), (ParseErrorKind::ExpectedEof, 11));
}

#[test]
fn the_empty_syntax_matches_the_end_of_the_line() {
    let syntax: Vec<CommandSyntax> = vec![];
    assert!(matched(&syntax, "foo", 3).is_ok());
    assert_eq!(failure(&syntax, "foo ", 3), (ParseErrorKind::ExpectedEof, 3));
    assert_eq!(failure(&syntax, "foo bar", 3), (ParseErrorKind::ExpectedEof, 3));
}

#[test]
fn the_first_element_that_fails_ends_the_match() {
    let syntax = vec![arg("a", u32_kind()), arg("b", u32_kind()), lit("end")];
    assert_eq!(failure(&syntax, " 1 x end", 0), (ParseErrorKind::BadArgument, 3));
    assert_eq!(failure(&syntax, " 1 2 stop", 0), (ParseErrorKind::BadLiteral, 5));
    assert_eq!(failure(&syntax, " 1 2", 0), (ParseErrorKind::ExpectedWhitespace, 4));
    assert_eq!(failure(&syntax, " 1 99999999999 end", 0), (ParseErrorKind::BadArgument, 14));
}

#[test]
fn a_unit_slot_is_no_token() {
    let syntax = vec![arg("nothing", ArgumentKind::Unit)];
    let args = matched(&syntax, "foo", 3).unwrap();
    assert_eq!(args.get::<()>("nothing"), Some(&()));
    let syntax = vec![lit("a"), arg("nothing", ArgumentKind::Unit), lit("b")];
    assert!(matched(&syntax, " a b", 0).is_ok());
    assert_eq!(failure(&syntax, " ab", 0), (ParseErrorKind::ExpectedWhitespace, 2));
}

#[test]
fn one_element_is_applied_where_the_parser_stands() {
    let element = arg("n", ArgumentKind::Integer(IntegerKind::I8));
    let mut args = CommandArgs::new();
    let mut parser = CommandParser::new("x -5 y");
    parser.advance(1);
    assert!(element.apply(&mut parser, &mut args).is_ok());
    assert_eq!(parser.offset(), 4);
    assert_eq!(args.get::<i8>("n"), Some(&-5i8));
    let error = lit("z").apply(&mut parser, &mut args).unwrap_err();
    assert_eq!((error.kind, error.offset), (ParseErrorKind::BadLiteral, 5));
    assert_eq!(args.get::<i8>("n"), Some(&-5i8));
}

#[test]
fn a_decimal_slot_leaves_a_second_point_for_the_next_literal() {
    let syntax = vec![arg("x", ArgumentKind::Decimal)];
    assert_eq!(failure(&syntax, " 1.2.3", 0), (ParseErrorKind::ExpectedEof, 4));
    let syntax = vec![arg("x", ArgumentKind::Decimal), lit(".3")];
    assert_eq!(failure(&syntax, " 1.2.3", 0), (ParseErrorKind::ExpectedWhitespace, 4));
}

#[test]
fn the_usage_line_shows_literals_and_slots() {
    assert_eq!(build_usage_string(&vec![]), "");
    assert_eq!(build_usage_string(&vec![lit("with")]), "with");
    assert_eq!(build_usage_string(&vec![lit("with"), arg("arg", u32_kind())]), "with <arg: u32>");
    assert_eq!(
        build_usage_string(&vec![
            arg("a", ArgumentKind::Text),
            lit("to"),
            arg("b", ArgumentKind::Decimal),
            arg("c", ArgumentKind::Unit),
            arg("d", ArgumentKind::Word),
        ]),
        "<a: String> to <b: f64> <c: ()> <d: str>"
    );
    assert_eq!(arg("n", ArgumentKind::Integer(IntegerKind::I128)).usage(), "<n: i128>");
    assert_eq!(lit("x").usage(), "x");
}

#[test]
fn every_kind_has_a_name_that_names_it() {
    let kinds = [
        (ArgumentKind::Unit, "()"),
        (ArgumentKind::Integer(IntegerKind::U8), "u8"),
        (ArgumentKind::Integer(IntegerKind::U16), "u16"),
        (ArgumentKind::Integer(IntegerKind::U32), "u32"),
        (ArgumentKind::Integer(IntegerKind::U64), "u64"),
        (ArgumentKind::Integer(IntegerKind::U128), "u128"),
        (ArgumentKind::Integer(IntegerKind::Usize), "usize"),
        (ArgumentKind::Integer(IntegerKind::I8), "i8"),
        (ArgumentKind::Integer(IntegerKind::I16), "i16"),
        (ArgumentKind::Integer(IntegerKind::I32), "i32"),
        (ArgumentKind::Integer(IntegerKind::I64), "i64"),
        (ArgumentKind::Integer(IntegerKind::I128), "i128"),
        (ArgumentKind::Integer(IntegerKind::Isize), "isize"),
        (ArgumentKind::Decimal, "f64"),
        (ArgumentKind::Text, "String"),
        (ArgumentKind::Word, "str"),
    ];
    for (kind, name) in kinds {
        assert_eq!(kind.name(), name);
        assert_eq!(ArgumentKind::named(name), Some(kind));
    }
    assert_eq!(ArgumentKind::named("f32"), Some(ArgumentKind::Decimal));
    assert_eq!(ArgumentKind::named("U8"), None);
    assert_eq!(ArgumentKind::named(""), None);
    assert_eq!(ArgumentKind::named("u8 "), None);
}
