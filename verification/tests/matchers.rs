use oberst::arguments::CommandArgs;
use oberst::grammar::ArgumentKind;
use oberst::grammar::IntegerKind;
use oberst::matchers::Checkpoint;
use oberst::matchers::MatchError;

#[test]
fn test_literals() {
    let matcher = Checkpoint::Literal("foo".to_string());
    let mut args = CommandArgs::new();
    assert_eq!(matcher.apply("foo", &mut args), Ok(3));
    assert_eq!(matcher.apply("foo 123", &mut args), Ok(3));
    assert_eq!(matcher.apply("bar", &mut args), Err(MatchError::InvalidInput("bar")));
    assert_eq!(matcher.apply("", &mut args), Err(MatchError::EndOfInput))
}

#[test]
fn a_literal_shows_as_much_of_the_input_as_it_is_long() {
    let matcher = Checkpoint::Literal("foo".to_string());
    let mut args = CommandArgs::new();
    assert_eq!(matcher.apply("barbaz", &mut args), Err(MatchError::InvalidInput("bar")));
    assert_eq!(matcher.apply("fo", &mut args), Err(MatchError::InvalidInput("fo")));
    assert_eq!(matcher.apply(" foo", &mut args), Err(MatchError::InvalidInput(" fo")));
    assert_eq!(matcher.apply("füü", &mut args), Err(MatchError::InvalidInput("füü")));
}

#[test]
fn the_empty_literal_takes_nothing_of_an_input_that_goes_on() {
    let matcher = Checkpoint::Literal(String::new());
    let mut args = CommandArgs::new();
    assert_eq!(matcher.apply("x", &mut args), Ok(0));
    assert_eq!(matcher.apply("", &mut args), Err(MatchError::EndOfInput));
}

#[test]
fn a_wildcard_takes_nothing_of_any_input() {
    let mut args = CommandArgs::new();
    assert_eq!(Checkpoint::Wildcard.apply("foo", &mut args), Ok(0));
    assert_eq!(Checkpoint::Wildcard.apply("", &mut args), Ok(0));
}

#[test]
fn an_argument_is_read_and_kept_under_its_name() {
    let matcher = Checkpoint::Argument("count".to_string(), ArgumentKind::Integer(IntegerKind::I32));
    let mut args = CommandArgs::new();
    assert_eq!(matcher.apply("-12 rest", &mut args), Ok(3));
    assert_eq!(args.get::<i32>("count"), Some(&-12i32));
    assert_eq!(matcher.apply("rest", &mut args), Err(MatchError::InvalidInput("rest")));
    assert_eq!(matcher.apply("", &mut args), Err(MatchError::InvalidInput("")));
    assert_eq!(args.get::<i32>("count"), Some(&-12i32));
}

#[test]
fn a_word_is_bare_or_quoted() {
    let matcher = Checkpoint::Argument("who".to_string(), ArgumentKind::Word);
    let mut args = CommandArgs::new();
    assert_eq!(matcher.apply("bob and alice", &mut args), Ok(3));
    assert_eq!(args.get::<String>("who"), Some(&"bob".to_string()));
    assert_eq!(matcher.apply("\"bob and\" alice", &mut args), Ok(9));
    assert_eq!(args.get::<String>("who"), Some(&"bob and".to_string()));
    assert_eq!(matcher.apply("\"bob and alice", &mut args), Err(MatchError::EndOfInput));
    assert_eq!(args.get::<String>("who"), Some(&"bob and".to_string()));
}
