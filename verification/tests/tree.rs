use oberst::arguments::CommandArgs;
use oberst::grammar::ArgumentKind;
use oberst::grammar::IntegerKind;
use oberst::matchers::Checkpoint;
use oberst::matchers::MatchError;
use oberst::tree::CommandNode;
use oberst::tree::CommandTree;
use oberst::tree::TreeError;

type Handler = fn(&u32, &CommandArgs) -> Result<i32, String>;

fn one(_context: &u32, _args: &CommandArgs) -> Result<i32, String> {
    Ok(1)
}

fn two(_context: &u32, _args: &CommandArgs) -> Result<i32, String> {
    Ok(2)
}

fn sum(context: &u32, args: &CommandArgs) -> Result<i32, String> {
    let count = *args.get::<u32>("count").ok_or("no count".to_string())?;
    Ok((count + *context) as i32)
}

fn greet(_context: &u32, args: &CommandArgs) -> Result<i32, String> {
    Err(format!("hello {}", args.get::<String>("who").unwrap()))
}

fn foo_bar_and_foo_baz() -> CommandTree<u32, String, Handler> {
    let mut tree: CommandTree<u32, String, Handler> = CommandTree::new(10);
    tree.register(CommandNode::literal("foo").followed_by(CommandNode::literal("bar").executes(one as Handler)));
    tree.register(CommandNode::literal("foo").followed_by(CommandNode::literal("baz").executes(two as Handler)));
    tree
}

fn mismatch<'a>(tree: &CommandTree<u32, String, Handler>, line: &'a str) -> MatchError<'a> {
    match tree.dispatch(line) {
        Err(TreeError::Match(error)) => error,
        Ok(_) => panic!("expected a mismatch, not an exit code"),
        Err(TreeError::Dispatch(_)) => panic!("expected a mismatch, not a handler's error"),
    }
}

#[test]
fn siblings_with_the_same_literal_are_both_reached() {
    let tree = foo_bar_and_foo_baz();
    assert!(matches!(tree.dispatch("foo bar"), Ok(1)));
    assert!(matches!(tree.dispatch("foo baz"), Ok(2)));
}

#[test]
fn a_node_without_a_handler_is_the_end_of_the_input() {
    let tree = foo_bar_and_foo_baz();
    assert_eq!(mismatch(&tree, "foo"), MatchError::EndOfInput);
    assert_eq!(mismatch(&tree, "foo  "), MatchError::EndOfInput);
    assert_eq!(mismatch(&tree, ""), MatchError::EndOfInput);
    assert_eq!(mismatch(&tree, "   "), MatchError::EndOfInput);
}

#[test]
fn input_that_no_child_takes_up_is_invalid() {
    let tree = foo_bar_and_foo_baz();
    assert_eq!(mismatch(&tree, "qux"), MatchError::InvalidInput("qux"));
    assert_eq!(mismatch(&tree, "quux bar"), MatchError::InvalidInput("quux bar"));
    assert_eq!(mismatch(&tree, "foo qux"), MatchError::InvalidInput("qux"));
    assert_eq!(mismatch(&tree, "foo baz qux"), MatchError::InvalidInput("qux"));
}

#[test]
fn the_failure_below_the_last_child_that_matched_is_reported() {
    let tree = foo_bar_and_foo_baz();
    assert_eq!(mismatch(&tree, "foo bar qux"), MatchError::InvalidInput("bar qux"));
    let mut tree: CommandTree<u32, String, Handler> = CommandTree::new(0);
    tree.register(CommandNode::literal("a").followed_by(CommandNode::literal("b")));
    tree.register(CommandNode::literal("c").executes(one as Handler));
    assert_eq!(mismatch(&tree, "a b"), MatchError::EndOfInput);
    assert_eq!(mismatch(&tree, "a x"), MatchError::InvalidInput("x"));
    assert_eq!(mismatch(&tree, "x"), MatchError::InvalidInput("x"));
}

#[test]
fn whitespace_around_the_tokens_is_skipped() {
    let tree = foo_bar_and_foo_baz();
    assert!(matches!(tree.dispatch("  foo \t bar  "), Ok(1)));
    assert!(matches!(tree.dispatch("foobaz"), Ok(2)));
}

#[test]
fn arguments_are_read_on_the_way_to_the_handler() {
    let mut tree: CommandTree<u32, String, Handler> = CommandTree::new(10);
    tree.register(
        CommandNode::literal("add")
            .followed_by(
                CommandNode::argument("count", ArgumentKind::Integer(IntegerKind::U32)).executes(sum as Handler),
            )
            .followed_by(CommandNode::argument("who", ArgumentKind::Word).executes(greet as Handler)),
    );
    assert!(matches!(tree.dispatch("add 32"), Ok(42)));
    match tree.dispatch("add bob") {
        Err(TreeError::Dispatch(error)) => assert_eq!(error, "hello bob"),
        _ => panic!("expected the handler's error"),
    }
    match tree.dispatch("add \"bob and alice\"") {
        Err(TreeError::Dispatch(error)) => assert_eq!(error, "hello bob and alice"),
        _ => panic!("expected the handler's error"),
    }
    assert_eq!(mismatch(&tree, "add \"bob"), MatchError::InvalidInput("\"bob"));
}

#[test]
fn the_first_child_that_leads_to_a_handler_wins() {
    let mut tree: CommandTree<u32, String, Handler> = CommandTree::new(0);
    tree.register(CommandNode::literal("fo").executes(one as Handler));
    tree.register(CommandNode::literal("foo").executes(two as Handler));
    tree.register(CommandNode::literal("fo").followed_by(CommandNode::literal("o").executes(one as Handler)));
    assert!(matches!(tree.dispatch("fo"), Ok(1)));
    assert!(matches!(tree.dispatch("foo"), Ok(2)));
    let mut tree: CommandTree<u32, String, Handler> = CommandTree::new(0);
    tree.register(CommandNode::literal("fo").followed_by(CommandNode::literal("o").executes(one as Handler)));
    tree.register(CommandNode::literal("foo").executes(two as Handler));
    assert!(matches!(tree.dispatch("foo"), Ok(1)));
}

#[test]
fn a_sibling_does_not_see_what_a_failed_sibling_read() {
    let mut tree: CommandTree<u32, String, Handler> = CommandTree::new(0);
    tree.register(
        CommandNode::argument("count", ArgumentKind::Integer(IntegerKind::U32))
            .followed_by(CommandNode::literal("a").executes(one as Handler)),
    );
    tree.register(
        CommandNode::argument("other", ArgumentKind::Integer(IntegerKind::U32))
            .followed_by(CommandNode::literal("b").executes(sum as Handler)),
    );
    match tree.dispatch("5 b") {
        Err(TreeError::Dispatch(error)) => assert_eq!(error, "no count"),
        _ => panic!("expected the handler's error"),
    }
}

#[test]
fn traverse_finds_the_handler_and_the_values() {
    let node: CommandNode<Handler> = CommandNode::literal("add")
        .followed_by(CommandNode::argument("count", ArgumentKind::Integer(IntegerKind::U32)).executes(sum as Handler));
    let mut given = CommandArgs::new();
    given.insert("before", oberst::argument::ArgumentValue::U8(1));
    let (handler, args) = node.traverse("add 5", given).unwrap();
    assert_eq!(args.get::<u32>("count"), Some(&5u32));
    assert_eq!(args.get::<u8>("before"), Some(&1u8));
    assert_eq!(handler(&1, &args), Ok(6));
    assert_eq!(node.traverse("sub 5", CommandArgs::new()).unwrap_err(), MatchError::InvalidInput("sub"));
    assert_eq!(node.traverse("add x", CommandArgs::new()).unwrap_err(), MatchError::InvalidInput("x"));
    assert_eq!(node.traverse("add", CommandArgs::new()).unwrap_err(), MatchError::EndOfInput);
}

#[test]
fn nodes_are_built_step_by_step() {
    let node: CommandNode<Handler> = CommandNode::new(Checkpoint::Wildcard);
    assert_eq!(node.matcher, Checkpoint::Wildcard);
    assert!(node.children.is_empty());
    assert!(node.handler.is_none());
    let node: CommandNode<Handler> = CommandNode::root();
    assert_eq!(node.matcher, Checkpoint::Wildcard);
    let node: CommandNode<Handler> = CommandNode::literal("x").followed_by(CommandNode::literal("y")).executes(one);
    assert_eq!(node.matcher, Checkpoint::Literal("x".to_string()));
    assert_eq!(node.children.len(), 1);
    assert_eq!(node.children[0].matcher, Checkpoint::Literal("y".to_string()));
    assert!(node.handler.is_some());
    let node: CommandNode<Handler> = CommandNode::argument("n", ArgumentKind::Text);
    assert_eq!(node.matcher, Checkpoint::Argument("n".to_string(), ArgumentKind::Text));
}
