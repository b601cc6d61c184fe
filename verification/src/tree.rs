//! Command trees: syntaxes that branch.
//!
//! A node applies its checkpoint to the input that is left for it. What
//! follows, without the whitespace that it begins with, is left for the
//! node's children, which are tried in the order in which they were added;
//! the first child under which the whole input matches decides. Where nothing
//! follows, the node's own handler is the one that the input selects.
//! Children that overlap are told apart by their order alone.
//!
//! Where no child leads to a handler, the input is reported as invalid from
//! the point at which the children were tried, unless the checkpoint of a
//! child did match: the failure below the last such child is more to the
//! point, and is the one reported.

use vstd::prelude::*;
use crate::arguments::CommandArgs;
use crate::chars::is_separator;
use crate::chars::whitespace;
use crate::grammar::ArgumentKind;
use crate::matchers::apply_matcher;
use crate::matchers::Checkpoint;
use crate::matchers::Matcher;
use crate::matchers::MatchError;
use crate::matchers::Mismatch;
use crate::parser::CommandParser;
use crate::parser::lemma_scan_while_unique;
use crate::parser::scan_while;
use crate::source::callable;
use crate::syntax::Store;

verus! {

/// A node of a command tree: a checkpoint, the nodes that may follow it, and
/// the handler of the input that ends with it, if there is one.
pub struct CommandNode<H> {
    pub matcher: Checkpoint,
    pub children: Vec<CommandNode<H>>,
    pub handler: Option<H>,
}

/// The way from a node down to the node whose handler an input selects: at
/// each step the position of the child that is taken.
pub type Path = Seq<nat>;

/// What is left of `input` behind its first `taken` characters and the
/// whitespace that follows them.
pub open spec fn remainder(input: Seq<char>, taken: nat) -> Seq<char> {
    input.skip(scan_while(input, taken, whitespace()) as int)
}

/// What an input selects under `node`: the way to the node whose handler is
/// to run, and the values read on that way; or why it selects nothing.
///
/// The input is at its end where it stops at a node without a handler.
pub open spec fn traverse<H>(node: CommandNode<H>, input: Seq<char>, store: Store) -> Result<
    (Path, Store),
    Mismatch,
>
    decreases node, node.children@.len() + 1,
{
    match apply_matcher(node.matcher@, input, store) {
        Ok((taken, bound)) => if remainder(input, taken).len() == 0 {
            if node.handler is Some {
                Ok((Seq::empty(), bound))
            } else {
                Err(Mismatch::EndOfInput)
            }
        } else {
            traverse_children(node, 0, remainder(input, taken), bound, None)
        },
        Err(mismatch) => Err(mismatch),
    }
}

/// What an input selects under the children of `node` from position `from`
/// on: what it selects under the first of them under which it selects
/// anything. Where there is no such child, the failure is `pending`, which
/// is the failure below the last child whose checkpoint matched, or, without
/// such a child, the input itself as invalid.
pub open spec fn traverse_children<H>(
    node: CommandNode<H>,
    from: nat,
    input: Seq<char>,
    store: Store,
    pending: Option<Mismatch>,
) -> Result<(Path, Store), Mismatch>
    decreases node, node.children@.len() - from,
{
    if from >= node.children@.len() {
        match pending {
            Some(mismatch) => Err(mismatch),
            None => Err(Mismatch::InvalidInput(input)),
        }
    } else {
        match traverse(node.children@[from as int], input, store) {
            Ok((path, found)) => Ok((seq![from] + path, found)),
            Err(mismatch) => traverse_children(
                node,
                from + 1,
                input,
                store,
                if apply_matcher(node.children@[from as int].matcher@, input, store) is Ok {
                    Some(mismatch)
                } else {
                    pending
                },
            ),
        }
    }
}

/// The node at the end of `path` under `node`.
pub open spec fn node_at<H>(node: CommandNode<H>, path: Path) -> CommandNode<H>
    decreases path.len(),
{
    if path.len() == 0 {
        node
    } else {
        node_at(node.children@[path[0] as int], path.drop_first())
    }
}

/// Whether every handler under `node` may be called with the context
/// `context`, whatever the arguments.
pub open spec fn callable_under<Context, E, H: Fn(&Context, &CommandArgs) -> Result<i32, E>>(
    node: CommandNode<H>,
    context: Context,
) -> bool
    decreases node,
{
    &&& node.handler matches Some(handler) ==> callable(handler, context)
    &&& forall|i: int|
        0 <= i < node.children@.len() ==> callable_under(#[trigger] node.children@[i], context)
}

impl<H> CommandNode<H> {
    /// A node with the given checkpoint, without children or handler.
    pub fn new(matcher: Checkpoint) -> (node: Self)
        ensures
            node.matcher == matcher,
            node.children@.len() == 0,
            node.handler is None,
    {
        CommandNode { matcher, children: Vec::new(), handler: None }
    }

    /// A node that takes anything and reads nothing: the root of a tree.
    pub fn root() -> (node: Self)
        ensures
            node.matcher@ == Matcher::Wildcard,
            node.children@.len() == 0,
            node.handler is None,
    {
        CommandNode::new(Checkpoint::Wildcard)
    }

    /// A node that takes the literal `text`.
    pub fn literal(text: &str) -> (node: Self)
        ensures
            node.matcher@ == Matcher::Literal(text@),
            node.children@.len() == 0,
            node.handler is None,
    {
        CommandNode::new(Checkpoint::Literal(text.to_owned()))
    }

    /// A node that reads an argument of kind `kind` and keeps it under
    /// `name`.
    pub fn argument(name: &str, kind: ArgumentKind) -> (node: Self)
        ensures
            node.matcher@ == Matcher::Argument(name@, kind),
            node.children@.len() == 0,
            node.handler is None,
    {
        CommandNode::new(Checkpoint::Argument(name.to_owned(), kind))
    }

    /// This node with `child` as the last of its children.
    pub fn followed_by(self, child: CommandNode<H>) -> (node: Self)
        ensures
            node.matcher == self.matcher,
            node.handler == self.handler,
            node.children@ == self.children@.push(child),
    {
        let mut node = self;
        node.children.push(child);
        node
    }

    /// This node with `handler` as the handler of the input that ends with
    /// it.
    pub fn executes(self, handler: H) -> (node: Self)
        ensures
            node.matcher == self.matcher,
            node.children == self.children,
            node.handler == Some(handler),
    {
        let mut node = self;
        node.handler = Some(handler);
        node
    }

    /// Finds what `input` selects under this node: the handler to run and
    /// the values to hand to it, which are `args` and what was read on the
    /// way to the handler. No handler runs.
    pub fn traverse<'n, 'a>(&'n self, input: &'a str, args: CommandArgs) -> (r: Result<
        (&'n H, CommandArgs),
        MatchError<'a>,
    >)
        ensures
            match traverse(*self, input@, args@) {
                Ok((path, store)) => {
                    &&& r matches Ok((handler, found))
                    &&& node_at(*self, path).handler == Some(*handler)
                    &&& found@ == store
                },
                Err(mismatch) => r matches Err(e) && e@ == mismatch,
            },
    {
        match self.descend(input, args) {
            Ok(selected) => Ok(selected),
            Err((e, _)) => Err(e),
        }
    }

    /// Does what [`CommandNode::traverse`] does, and says with a failure
    /// whether this node's own checkpoint matched.
    fn descend<'n, 'a>(&'n self, input: &'a str, args: CommandArgs) -> (r: Result<
        (&'n H, CommandArgs),
        (MatchError<'a>, bool),
    >)
        ensures
            match traverse(*self, input@, args@) {
                Ok((path, store)) => {
                    &&& r matches Ok((handler, found))
                    &&& node_at(*self, path).handler == Some(*handler)
                    &&& found@ == store
                },
                Err(mismatch) => {
                    &&& r matches Err((e, matched))
                    &&& e@ == mismatch
                    &&& matched == (apply_matcher(self.matcher@, input@, args@) is Ok)
                },
            },
        decreases self, self.children@.len() + 1,
    {
        let mut store = args;
        let taken: usize = match self.matcher.apply(input, &mut store) {
            Ok(taken) => taken,
            Err(e) => {
                return Err((e, false));
            },
        };
        let mut parser = CommandParser::new(input);
        parser.advance(taken);
        let is_space = |c: char| -> (b: bool)
            ensures
                b == is_separator(c),
            { c.is_whitespace() };
        let spacing: &str = parser.read_while(is_space);
        proof {
            lemma_scan_while_unique(input@, taken as nat, parser@.offset, whitespace());
        }
        if parser.remaining() == 0 {
            return match &self.handler {
                Some(handler) => Ok((handler, store)),
                None => Err((MatchError::EndOfInput, true)),
            };
        }
        let rest: &'a str = parser.rest();
        let mut pending: Option<MatchError<'a>> = None;
        let mut i: usize = 0;
        while i < self.children.len()
            invariant
                i <= self.children@.len(),
                rest@ == remainder(input@, taken as nat),
                rest@.len() > 0,
                apply_matcher(self.matcher@, input@, args@) == Ok::<(nat, Store), Mismatch>(
                    (taken as nat, store@),
                ),
                traverse_children(*self, 0, rest@, store@, None) == traverse_children(
                    *self,
                    i as nat,
                    rest@,
                    store@,
                    match pending {
                        Some(e) => Some(e@),
                        None => None,
                    },
                ),
            decreases self.children@.len() - i,
        {
            match self.children[i].descend(rest, store.duplicate()) {
                Ok((handler, found)) => {
                    proof {
                        let path = traverse(self.children@[i as int], rest@, store@)->Ok_0.0;
                        let whole = seq![i as nat] + path;
                        assert(whole.drop_first() =~= path);
                    }
                    return Ok((handler, found));
                },
                Err((e, matched)) => {
                    if matched {
                        pending = Some(e);
                    }
                },
            }
            i = i + 1;
        }
        match pending {
            Some(e) => Err((e, true)),
            None => Err((MatchError::InvalidInput(rest), true)),
        }
    }
}

/// Whether `path` leads to a node under `node`.
pub open spec fn leads<H>(node: CommandNode<H>, path: Path) -> bool
    decreases path.len(),
{
    path.len() == 0 || (path[0] < node.children@.len() && leads(
        node.children@[path[0] as int],
        path.drop_first(),
    ))
}

/// What an input selects under a node is a handler: the way that it takes
/// leads to a node under that node, and that node has a handler.
pub proof fn lemma_traverse_selects<H>(node: CommandNode<H>, input: Seq<char>, store: Store)
    ensures
        traverse(node, input, store) matches Ok((path, _)) ==> leads(node, path) && node_at(
            node,
            path,
        ).handler is Some,
    decreases node, node.children@.len() + 1,
{
    if let Ok((taken, bound)) = apply_matcher(node.matcher@, input, store) {
        if remainder(input, taken).len() > 0 {
            lemma_traverse_children_selects(node, 0, remainder(input, taken), bound, None);
        }
    }
}

/// What an input selects under the children of a node is a handler.
pub proof fn lemma_traverse_children_selects<H>(
    node: CommandNode<H>,
    from: nat,
    input: Seq<char>,
    store: Store,
    pending: Option<Mismatch>,
)
    ensures
        traverse_children(node, from, input, store, pending) matches Ok((path, _)) ==> leads(
            node,
            path,
        ) && node_at(node, path).handler is Some,
    decreases node, node.children@.len() - from,
{
    if from < node.children@.len() {
        let child = node.children@[from as int];
        lemma_traverse_selects(child, input, store);
        match traverse(child, input, store) {
            Ok((path, found)) => {
                let whole = seq![from] + path;
                assert(whole.drop_first() =~= path);
            },
            Err(mismatch) => {
                lemma_traverse_children_selects(
                    node,
                    from + 1,
                    input,
                    store,
                    if apply_matcher(child.matcher@, input, store) is Ok {
                        Some(mismatch)
                    } else {
                        pending
                    },
                );
            },
        }
    }
}

/// Under a node whose handlers may all be called, the handlers of the node
/// at the end of any path may be called.
pub proof fn lemma_callable_at<Context, E, H: Fn(&Context, &CommandArgs) -> Result<i32, E>>(
    node: CommandNode<H>,
    path: Path,
    context: Context,
)
    requires
        callable_under(node, context),
        leads(node, path),
    ensures
        callable_under(node_at(node, path), context),
    decreases path.len(),
{
    if path.len() > 0 {
        lemma_callable_at(node.children@[path[0] as int], path.drop_first(), context);
    }
}

/// Why the dispatch of a line to a tree did not end well: the line selects
/// no handler, or the handler that it selects failed.
pub enum TreeError<'a, E> {
    Match(MatchError<'a>),
    Dispatch(E),
}

/// What a dispatch to a tree returns for what the handler returned.
pub open spec fn lifted<'a, E>(out: Result<i32, E>) -> Result<i32, TreeError<'a, E>> {
    match out {
        Ok(code) => Ok(code),
        Err(error) => Err(TreeError::Dispatch(error)),
    }
}

/// The commands of an application as a tree, and the context that their
/// handlers work on. The commands are the children of the root, which takes
/// any input and reads nothing of it. A handler returns an exit code or an
/// error of type `E`, and every handler of a tree may be called with its
/// context.
#[verifier::reject_recursive_types(E)]
pub struct CommandTree<Context, E, H: Fn(&Context, &CommandArgs) -> Result<i32, E>> {
    root: CommandNode<H>,
    context: Context,
    failure: core::marker::PhantomData<E>,
}

impl<Context, E, H: Fn(&Context, &CommandArgs) -> Result<i32, E>> CommandTree<Context, E, H> {
    /// The root of the tree.
    pub closed spec fn root(&self) -> CommandNode<H> {
        self.root
    }

    /// The context that the handlers are called with.
    pub closed spec fn context(&self) -> Context {
        self.context
    }

    /// The root is a wildcard without a handler, and every handler of the
    /// tree may be called with the context.
    #[verifier::type_invariant]
    closed spec fn well_formed(self) -> bool {
        &&& self.root.matcher@ == Matcher::Wildcard
        &&& self.root.handler is None
        &&& callable_under(self.root, self.context)
    }

    /// A tree without commands.
    pub fn new(context: Context) -> (tree: Self)
        ensures
            tree.root().children@.len() == 0,
            tree.root().matcher@ == Matcher::Wildcard,
            tree.root().handler is None,
            tree.context() == context,
    {
        CommandTree { root: CommandNode::root(), context, failure: core::marker::PhantomData }
    }

    /// The context that the handlers are called with.
    pub fn get_context(&self) -> (context: &Context)
        ensures
            *context == self.context(),
    {
        &self.context
    }

    /// Adds a command to the tree, behind the ones that it holds.
    pub fn register(&mut self, node: CommandNode<H>)
        requires
            callable_under(node, old(self).context()),
        ensures
            final(self).root().children@ == old(self).root().children@.push(node),
            final(self).root().matcher@ == Matcher::Wildcard,
            final(self).root().handler is None,
            final(self).context() == old(self).context(),
    {
        proof {
            use_type_invariant(&*self);
        }
        let mut root: CommandNode<H> = CommandNode::root();
        core::mem::swap(&mut self.root, &mut root);
        let root = root.followed_by(node);
        proof {
            assert forall|i: int| 0 <= i < root.children@.len() implies callable_under(
                #[trigger] root.children@[i],
                self.context,
            ) by {
                if i < old(self).root.children@.len() {
                    assert(root.children@[i] == old(self).root.children@[i]);
                }
            }
        }
        self.root = root;
    }

    /// Dispatches a line: finds the handler that it selects in the tree and
    /// runs it, once, with the context and the values that were read on the
    /// way to it. A line that selects no handler runs none.
    pub fn dispatch<'a>(&self, command: &'a str) -> (r: Result<i32, TreeError<'a, E>>)
        ensures
            match traverse(self.root(), command@, Map::empty()) {
                Ok((path, store)) => node_at(self.root(), path).handler is Some && exists|
                    args: CommandArgs,
                    out: Result<i32, E>,
                |
                    {
                        &&& args@ == store
                        &&& #[trigger] call_ensures(
                            node_at(self.root(), path).handler->0,
                            (&self.context(), &args),
                            out,
                        )
                        &&& r == lifted::<E>(out)
                    },
                Err(mismatch) => r matches Err(TreeError::Match(e)) && e@ == mismatch,
            },
    {
        proof {
            use_type_invariant(self);
        }
        match self.root.traverse(command, CommandArgs::new()) {
            Ok((handler, args)) => {
                let ghost path = traverse(self.root, command@, Map::empty())->Ok_0.0;
                proof {
                    lemma_traverse_selects(self.root, command@, Map::empty());
                    lemma_callable_at(self.root, path, self.context);
                }
                let out = handler(&self.context, &args);
                proof {
                    assert(call_ensures(
                        node_at(self.root(), path).handler->0,
                        (&self.context(), &args),
                        out,
                    ));
                }
                match out {
                    Ok(code) => Ok(code),
                    Err(error) => Err(TreeError::Dispatch(error)),
                }
            },
            Err(e) => Err(TreeError::Match(e)),
        }
    }
}

} // verus!
