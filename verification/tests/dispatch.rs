use oberst::arguments::CommandArgs;
use oberst::grammar::ArgumentKind;
use oberst::grammar::IntegerKind;
use oberst::parser::ParseErrorKind;
use oberst::source::CommandDispatch;
use oberst::source::CommandError;
use oberst::source::CommandSource;
use oberst::source::CommandUsage;
use oberst::syntax::build_usage_string;
use oberst::syntax::CommandSyntax;
use std::cell::RefCell;
use std::rc::Rc;

/// What the handlers of these tests leave behind: which of them ran, and
/// with which argument. The test keeps one end of it, the command source
/// the other.
#[derive(Clone)]
struct Journal {
    calls: Rc<RefCell<Vec<(&'static str, Option<u32>)>>>,
}

type Handler = fn(&Journal, &CommandArgs) -> Result<i32, String>;
type Source = CommandSource<Journal, String, Handler>;

fn journal() -> Journal {
    Journal { calls: Rc::new(RefCell::new(Vec::new())) }
}

fn calls(source_journal: &Journal) -> Vec<(&'static str, Option<u32>)> {
    source_journal.calls.borrow().clone()
}

fn lit(text: &str) -> CommandSyntax {
    CommandSyntax::Literal(text.to_string())
}

fn arg(name: &str, kind: ArgumentKind) -> CommandSyntax {
    CommandSyntax::Argument(name.to_string(), kind)
}

fn form(syntax: Vec<CommandSyntax>, handler: Handler) -> CommandDispatch<Handler> {
    CommandDispatch { syntax, handler }
}

fn usage_of(name: &str, forms: &Vec<CommandDispatch<Handler>>) -> CommandUsage {
    CommandUsage {
        name: name.to_string(),
        usage: forms.iter().map(|form| build_usage_string(&form.syntax)).collect(),
        description: None,
    }
}

fn with_arg(journal: &Journal, args: &CommandArgs) -> Result<i32, String> {
    journal.calls.borrow_mut().push(("with", args.get::<u32>("arg").copied()));
    Ok(0)
}

fn bar(journal: &Journal, args: &CommandArgs) -> Result<i32, String> {
    journal.calls.borrow_mut().push(("bar", args.get::<u32>("arg").copied()));
    Ok(1)
}

fn baz(journal: &Journal, args: &CommandArgs) -> Result<i32, String> {
    journal.calls.borrow_mut().push(("baz", args.get::<u32>("arg").copied()));
    Ok(2)
}

fn failing(journal: &Journal, _args: &CommandArgs) -> Result<i32, String> {
    journal.calls.borrow_mut().push(("failing", None));
    Err("the handler failed".to_string())
}

fn u32_kind() -> ArgumentKind {
    ArgumentKind::Integer(IntegerKind::U32)
}

fn foo_with_arg(journal: Journal) -> Source {
    let mut source: Source = CommandSource::new(journal);
    let forms = vec![form(vec![lit("with"), arg("arg", u32_kind())], with_arg)];
    source.register("foo", usage_of("foo", &forms), forms);
    source
}

fn foo_bar_baz(journal: Journal) -> Source {
    let mut source: Source = CommandSource::new(journal);
    let forms = vec![form(vec![lit("bar")], bar), form(vec![lit("baz")], baz)];
    source.register("foo", usage_of("foo", &forms), forms);
    source
}

fn parse_failure(source: &Source, line: &str) -> (ParseErrorKind, usize) {
    match source.dispatch(line) {
        Err(CommandError::Parse(error)) => {
            assert_eq!(error.command, line);
            (error.kind, error.offset)
        }
        Ok(_) => panic!("expected a parse error, not an exit code"),
        Err(CommandError::Dispatch(_)) => panic!("expected a parse error, not a handler's error"),
    }
}

#[test]
fn dispatch_hands_the_argument_to_the_handler() {
    let seen = journal();
    let source = foo_with_arg(seen.clone());
    assert!(matches!(source.dispatch("foo with 42"), Ok(0)));
    assert_eq!(calls(&seen), vec![("with", Some(42u32))]);
    let resolved = source.resolve("foo with 42").unwrap();
    assert_eq!(resolved.form, 0);
    assert_eq!(resolved.args.get::<u32>("arg"), Some(&42u32));
    assert_eq!(calls(&seen).len(), 1);
}

#[test]
fn dispatch_refuses_a_sign_on_an_unsigned_argument() {
    let seen = journal();
    let source = foo_with_arg(seen.clone());
    assert_eq!(parse_failure(&source, "foo with -1"), (ParseErrorKind::BadArgument, 9));
    assert_eq!(calls(&seen), vec![]);
}

#[test]
fn dispatch_runs_the_handler_of_the_syntax_that_matches() {
    let seen = journal();
    let source = foo_bar_baz(seen.clone());
    assert!(matches!(source.dispatch("foo baz"), Ok(2)));
    assert_eq!(calls(&seen), vec![("baz", None)]);
    assert_eq!(source.resolve("foo baz").unwrap().form, 1);
    assert!(matches!(source.dispatch("foo bar"), Ok(1)));
    assert_eq!(calls(&seen), vec![("baz", None), ("bar", None)]);
    assert_eq!(source.resolve("foo bar").unwrap().form, 0);
}

#[test]
fn dispatch_reports_an_unknown_command_at_the_start() {
    let seen = journal();
    let source = foo_with_arg(seen.clone());
    assert_eq!(parse_failure(&source, "qux"), (ParseErrorKind::UnknownCommand, 0));
    assert_eq!(calls(&seen), vec![]);
    assert_eq!(parse_failure(&source, "qux with 42"), (ParseErrorKind::UnknownCommand, 0));
    assert_eq!(parse_failure(&source, ""), (ParseErrorKind::UnknownCommand, 0));
    assert_eq!(parse_failure(&source, " foo with 42"), (ParseErrorKind::UnknownCommand, 0));
    assert_eq!(parse_failure(&source, "fo"), (ParseErrorKind::UnknownCommand, 0));
    assert_eq!(parse_failure(&source, "foos with 42"), (ParseErrorKind::UnknownCommand, 0));
    match source.dispatch("qux") {
        Err(CommandError::Parse(error)) => assert_eq!(error.message(), "Unknown command: `qux`"),
        _ => panic!("expected a parse error"),
    }
}

#[test]
fn the_name_is_the_run_of_alphabetic_characters() {
    let source = foo_with_arg(journal());
    assert_eq!(parse_failure(&source, "foo1"), (ParseErrorKind::ExpectedWhitespace, 3));
    assert_eq!(parse_failure(&source, "foo-with 42"), (ParseErrorKind::ExpectedWhitespace, 3));
    assert_eq!(parse_failure(&source, "fooé with 42"), (ParseErrorKind::UnknownCommand, 0));
}

#[test]
fn the_failure_of_the_last_syntax_is_reported() {
    let mut source: Source = CommandSource::new(journal());
    let forms = vec![
        form(vec![lit("set"), arg("arg", u32_kind())], with_arg),
        form(vec![lit("get")], bar),
    ];
    source.register("foo", usage_of("foo", &forms), forms);
    assert_eq!(parse_failure(&source, "foo set x"), (ParseErrorKind::BadLiteral, 4));
    assert_eq!(parse_failure(&source, "foo get it"), (ParseErrorKind::ExpectedEof, 7));
    assert_eq!(parse_failure(&source, "foo"), (ParseErrorKind::ExpectedWhitespace, 3));
}

#[test]
fn the_first_syntax_that_matches_wins() {
    let mut source: Source = CommandSource::new(journal());
    let forms = vec![
        form(vec![arg("arg", u32_kind())], bar),
        form(vec![arg("arg", ArgumentKind::Word)], baz),
        form(vec![arg("arg", u32_kind())], with_arg),
    ];
    source.register("foo", usage_of("foo", &forms), forms);
    assert_eq!(source.resolve("foo 12").unwrap().form, 0);
    assert_eq!(source.resolve("foo twelve").unwrap().form, 1);
    assert!(matches!(source.dispatch("foo 12"), Ok(1)));
    assert!(matches!(source.dispatch("foo twelve"), Ok(2)));
}

#[test]
fn one_handler_runs_or_none() {
    let seen = journal();
    let mut source: Source = CommandSource::new(seen.clone());
    let forms = vec![
        form(vec![lit("go"), arg("arg", u32_kind())], bar),
        form(vec![lit("go"), arg("arg", u32_kind())], baz),
        form(vec![lit("go")], with_arg),
    ];
    source.register("foo", usage_of("foo", &forms), forms);
    let run = |line: &str| {
        seen.calls.borrow_mut().clear();
        let code = source.dispatch(line).ok();
        (code, calls(&seen))
    };
    assert_eq!(run("foo go 7"), (Some(1), vec![("bar", Some(7u32))]));
    assert_eq!(run("foo go"), (Some(0), vec![("with", None)]));
    assert_eq!(run("foo stop"), (None, vec![]));
    assert_eq!(run("foo go 7 8"), (None, vec![]));
    assert_eq!(run("bar go 7"), (None, vec![]));
    assert_eq!(run(""), (None, vec![]));
}

#[test]
fn a_failed_syntax_leaves_nothing_in_the_arguments_of_the_next() {
    let seen = journal();
    let mut source: Source = CommandSource::new(seen.clone());
    let forms = vec![
        form(vec![arg("arg", u32_kind()), arg("other", u32_kind()), lit("a")], bar),
        form(vec![arg("second", u32_kind()), arg("third", u32_kind()), lit("b")], baz),
    ];
    source.register("foo", usage_of("foo", &forms), forms);
    let resolved = source.resolve("foo 1 2 b").unwrap();
    assert_eq!(resolved.form, 1);
    assert_eq!(resolved.args.get::<u32>("second"), Some(&1u32));
    assert_eq!(resolved.args.get::<u32>("third"), Some(&2u32));
    assert_eq!(resolved.args.get::<u32>("arg"), None);
    assert_eq!(resolved.args.get::<u32>("other"), None);
    assert!(matches!(source.dispatch("foo 1 2 b"), Ok(2)));
    assert_eq!(calls(&seen), vec![("baz", None)]);
    let again = source.resolve("foo 1 2 b").unwrap();
    assert_eq!(again.form, 1);
    assert_eq!(again.args.get::<u32>("second"), Some(&1u32));
    assert_eq!(again.args.get::<u32>("arg"), None);
}

#[test]
fn the_error_of_a_handler_is_handed_on_and_no_other_syntax_is_tried() {
    let seen = journal();
    let mut source: Source = CommandSource::new(seen.clone());
    let forms = vec![form(vec![lit("go")], failing), form(vec![lit("go")], bar)];
    source.register("foo", usage_of("foo", &forms), forms);
    match source.dispatch("foo go") {
        Err(CommandError::Dispatch(error)) => assert_eq!(error, "the handler failed"),
        _ => panic!("expected the handler's error"),
    }
    assert_eq!(calls(&seen), vec![("failing", None)]);
    assert_eq!(source.resolve("foo go").unwrap().form, 0);
}

#[test]
fn every_usage_line_dispatches_once_its_slots_are_filled() {
    let seen = journal();
    let mut source: Source = CommandSource::new(seen.clone());
    let forms = vec![
        form(vec![lit("with"), arg("arg", u32_kind())], with_arg),
        form(vec![lit("named"), arg("name", ArgumentKind::Text), lit("now")], bar),
        form(vec![arg("x", ArgumentKind::Decimal), arg("w", ArgumentKind::Word)], baz),
        form(vec![], bar),
    ];
    let usage = usage_of("foo", &forms);
    assert_eq!(
        usage.usage,
        vec!["with <arg: u32>", "named <name: String> now", "<x: f64> <w: str>", ""]
    );
    source.register("foo", usage, forms);
    let lines = ["foo with 42", "foo named \"a \\\"b\\\"\" now", "foo -1.5 word", "foo"];
    for (form, line) in lines.iter().enumerate() {
        let resolved = source.resolve(line).unwrap();
        assert_eq!(resolved.form, form);
        let before = calls(&seen).len();
        assert!(source.dispatch(line).is_ok());
        assert_eq!(calls(&seen).len(), before + 1);
    }
}

#[test]
fn a_resolved_line_can_be_run_by_the_caller() {
    let seen = journal();
    let source = foo_with_arg(seen.clone());
    let resolved = source.resolve("foo with 7").unwrap();
    assert_eq!(calls(&seen), vec![]);
    assert_eq!((resolved.dispatch.handler)(source.get_context(), &resolved.args), Ok(0));
    assert_eq!(calls(&seen), vec![("with", Some(7u32))]);
}

#[test]
fn the_usage_of_a_command_is_found_under_its_name() {
    let source = foo_bar_baz(journal());
    let usage = source.get_usage("foo").unwrap();
    assert_eq!(usage.name, "foo");
    assert_eq!(usage.usage, vec!["bar", "baz"]);
    assert_eq!(usage.description, None);
    assert!(source.get_usage("bar").is_none());
    assert!(source.get_usage("").is_none());
    assert!(source.get_usage("Foo").is_none());
}

#[test]
fn a_command_that_is_registered_again_replaces_the_first() {
    let mut source = foo_bar_baz(journal());
    let forms = vec![form(vec![lit("qux")], with_arg)];
    let usage = CommandUsage {
        name: "foo".to_string(),
        usage: vec!["qux".to_string()],
        description: Some("the second foo".to_string()),
    };
    source.register("foo", usage, forms);
    assert!(matches!(source.dispatch("foo qux"), Ok(0)));
    assert_eq!(parse_failure(&source, "foo bar"), (ParseErrorKind::BadLiteral, 4));
    assert_eq!(source.get_usage("foo").unwrap().description, Some("the second foo".to_string()));
}

#[test]
fn several_commands_are_told_apart_by_their_names() {
    let mut source = foo_bar_baz(journal());
    let forms = vec![form(vec![arg("arg", u32_kind())], with_arg)];
    source.register("count", usage_of("count", &forms), forms);
    assert!(matches!(source.dispatch("count 3"), Ok(0)));
    assert!(matches!(source.dispatch("foo bar"), Ok(1)));
    assert_eq!(parse_failure(&source, "count bar"), (ParseErrorKind::BadArgument, 6));
    assert_eq!(source.get_usage("count").unwrap().usage, vec!["<arg: u32>"]);
}

#[test]
fn try_register_refuses_a_command_without_syntax_or_with_a_bad_name() {
    let mut source: Source = CommandSource::new(journal());
    assert!(!source.try_register("foo", usage_of("foo", &vec![]), vec![]));
    assert!(source.get_usage("foo").is_none());
    let forms = vec![form(vec![], bar)];
    assert!(!source.try_register("foo2", usage_of("foo2", &forms), forms));
    let forms = vec![form(vec![], bar)];
    assert!(!source.try_register("foo bar", usage_of("foo bar", &forms), forms));
    assert_eq!(parse_failure(&source, "foo"), (ParseErrorKind::UnknownCommand, 0));
    let forms = vec![form(vec![], bar)];
    assert!(source.try_register("foo", usage_of("foo", &forms), forms));
    assert!(matches!(source.dispatch("foo"), Ok(1)));
    let forms = vec![form(vec![], baz)];
    assert!(source.try_register("größe", usage_of("größe", &forms), forms));
    assert!(matches!(source.dispatch("größe"), Ok(2)));
}
