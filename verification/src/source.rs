//! The command source: the commands that are registered, and the dispatch of
//! a line to the handler of the first syntax that it matches.
//!
//! Dispatch is a function of the registered commands and the line. The name
//! is the run of alphabetic characters that the line begins with. The syntaxes
//! of the command of that name are tried in the order in which they were
//! given, each on a fresh branch of the parser and with a fresh argument
//! store; the first that matches the whole line decides, and its handler is
//! the only one that runs. When none matches, the failure of the last one is
//! reported. A name that is not registered is reported at the start of the
//! line.

use vstd::prelude::*;
use crate::arguments::CommandArgs;
use crate::chars::alphabetic;
use crate::chars::is_name_char;
use crate::encoding::same_text;
use crate::parser::CommandParser;
use crate::parser::Failure;
use crate::parser::lemma_scan_while_unique;
use crate::parser::ParseError;
use crate::parser::ParseErrorKind;
use crate::parser::scan_while;
use crate::syntax::apply_syntax;
use crate::syntax::CommandSyntax;
use crate::syntax::Element;
use crate::syntax::match_syntax;
use crate::syntax::Store;

verus! {

/// Why a dispatch did not end well: the line was not understood, or the
/// handler that it was given to failed.
pub enum CommandError<'a, E> {
    Parse(ParseError<'a>),
    Dispatch(E),
}

impl<'a, E> From<ParseError<'a>> for CommandError<'a, E> {
    /// A parse error as the error of a dispatch.
    fn from(error: ParseError<'a>) -> (wrapped: Self) {
        CommandError::Parse(error)
    }
}

impl<'a, E> vstd::std_specs::convert::FromSpecImpl<ParseError<'a>> for CommandError<'a, E> {
    open spec fn obeys_from_spec() -> bool {
        true
    }

    open spec fn from_spec(error: ParseError<'a>) -> Self {
        CommandError::Parse(error)
    }
}

/// What a dispatch returns: the handler's exit code, or why there is none.
pub type CommandResult<'a, E> = Result<i32, CommandError<'a, E>>;

/// What a command shows of itself: its name, one usage line for each of its
/// syntaxes, and a description if it has one.
#[derive(Debug, Clone, PartialEq, Eq)]
pub struct CommandUsage {
    pub name: String,
    pub usage: Vec<String>,
    pub description: Option<String>,
}

/// One syntax of a command with the handler that is run for a line that
/// matches it.
pub struct CommandDispatch<H> {
    pub syntax: Vec<CommandSyntax>,
    pub handler: H,
}

/// A registered command: its usage and its syntaxes, in the order in which
/// they are tried.
pub struct Command<H> {
    pub usage: CommandUsage,
    pub dispatchers: Vec<CommandDispatch<H>>,
}

/// The syntaxes of a command, in the order in which they are tried.
pub open spec fn forms_of<H>(dispatchers: Seq<CommandDispatch<H>>) -> Seq<Seq<Element>> {
    Seq::new(dispatchers.len(), |i: int| dispatchers[i].syntax.deep_view())
}

/// The first of the syntaxes from `from` on that matches the line behind
/// `offset`, with the values of its slots; or, if none of them matches, the
/// failure of the last one.
pub open spec fn select(forms: Seq<Seq<Element>>, from: nat, source: Seq<char>, offset: nat) -> Result<
    (nat, Store),
    Failure,
>
    decreases forms.len() - from,
{
    if from >= forms.len() {
        Err(Failure { offset, kind: ParseErrorKind::UnknownCommand })
    } else {
        match match_syntax(forms[from as int], source, offset) {
            Ok(store) => Ok((from, store)),
            Err(failure) => if from + 1 == forms.len() {
                Err(failure)
            } else {
                select(forms, from + 1, source, offset)
            },
        }
    }
}

/// The offset at which the command name that `source` begins with ends.
pub open spec fn name_end(source: Seq<char>) -> nat {
    scan_while(source, 0, alphabetic())
}

/// The command name that `source` begins with: its leading alphabetic
/// characters.
pub open spec fn command_name(source: Seq<char>) -> Seq<char> {
    source.subrange(0, name_end(source) as int)
}

/// Which handler a line selects, and what it is handed.
pub struct Selection {
    /// The name of the command.
    pub name: Seq<char>,
    /// Which of the command's syntaxes the line matches, counted from 0.
    pub form: nat,
    /// The values of that syntax's slots.
    pub args: Store,
}

/// What a line resolves to among the registered commands: the selection of
/// one handler, or the failure to report.
pub open spec fn resolve<H>(commands: Map<Seq<char>, Command<H>>, source: Seq<char>) -> Result<
    Selection,
    Failure,
> {
    let name = command_name(source);
    if commands.contains_key(name) {
        match select(forms_of(commands[name].dispatchers@), 0, source, name_end(source)) {
            Ok((form, args)) => Ok(Selection { name, form, args }),
            Err(failure) => Err(failure),
        }
    } else {
        Err(Failure { offset: 0, kind: ParseErrorKind::UnknownCommand })
    }
}

/// The map that a list of named commands stands for. A later command
/// replaces an earlier one of the same name.
pub open spec fn named_commands<H>(entries: Seq<(String, Command<H>)>) -> Map<Seq<char>, Command<H>>
    decreases entries.len(),
{
    if entries.len() == 0 {
        Map::empty()
    } else {
        named_commands(entries.drop_last()).insert(entries.last().0@, entries.last().1)
    }
}

/// A name that the entries from `from` on do not use has in the whole list
/// what it has in the entries before `from`.
proof fn lemma_named_commands_tail<H>(entries: Seq<(String, Command<H>)>, from: int, key: Seq<char>)
    requires
        0 <= from <= entries.len(),
        forall|j: int| from <= j < entries.len() ==> (#[trigger] entries[j]).0@ != key,
    ensures
        named_commands(entries).contains_key(key) == named_commands(
            entries.take(from),
        ).contains_key(key),
        named_commands(entries).contains_key(key) ==> named_commands(entries)[key]
            == named_commands(entries.take(from))[key],
    decreases entries.len() - from,
{
    if from < entries.len() {
        let shorter = entries.drop_last();
        assert(shorter.take(from) =~= entries.take(from));
        assert forall|j: int| from <= j < shorter.len() implies (#[trigger] shorter[j]).0@
            != key by {
            assert(shorter[j] == entries[j]);
        }
        lemma_named_commands_tail(shorter, from, key);
    } else {
        assert(entries.take(from) =~= entries);
    }
}

/// Every command of the map is one of the list's entries.
proof fn lemma_named_commands_member<H>(entries: Seq<(String, Command<H>)>, key: Seq<char>)
    requires
        named_commands(entries).contains_key(key),
    ensures
        exists|j: int|
            0 <= j < entries.len() && (#[trigger] entries[j]).1 == named_commands(entries)[key],
    decreases entries.len(),
{
    if entries.len() > 0 {
        if entries.last().0@ == key {
            assert(entries[entries.len() - 1].1 == named_commands(entries)[key]);
        } else {
            let shorter = entries.drop_last();
            lemma_named_commands_member(shorter, key);
            let j = choose|j: int|
                0 <= j < shorter.len() && (#[trigger] shorter[j]).1 == named_commands(shorter)[key];
            assert(entries[j] == shorter[j]);
        }
    }
}

/// Whether a handler may be called with the context `context`, whatever the
/// arguments.
pub open spec fn callable<Context, E, H: Fn(&Context, &CommandArgs) -> Result<i32, E>>(
    handler: H,
    context: Context,
) -> bool {
    forall|args: CommandArgs| #[trigger] call_requires(handler, (&context, &args))
}

/// What a dispatch returns for what the handler returned.
pub open spec fn lifted<'a, E>(out: Result<i32, E>) -> CommandResult<'a, E> {
    match out {
        Ok(code) => Ok(code),
        Err(error) => Err(CommandError::Dispatch(error)),
    }
}

/// Whether every registered command has a syntax.
pub open spec fn all_have_syntax<H>(commands: Map<Seq<char>, Command<H>>) -> bool {
    forall|name: Seq<char>|
        commands.contains_key(name) ==> (#[trigger] commands[name]).dispatchers@.len() > 0
}

/// The commands of an application, and the context that their handlers work
/// on.
///
/// A handler is called with the context and the values that the line has
/// given, and returns an exit code or an error of type `E`. Every command of
/// a source has a syntax, and every handler of a source may be called with
/// its context: a source is made so and stays so.
#[verifier::reject_recursive_types(E)]
pub struct CommandSource<Context, E, H: Fn(&Context, &CommandArgs) -> Result<i32, E>> {
    commands: Vec<(String, Command<H>)>,
    context: Context,
    failure: core::marker::PhantomData<E>,
}

impl<Context, E, H: Fn(&Context, &CommandArgs) -> Result<i32, E>> View for CommandSource<
    Context,
    E,
    H,
> {
    type V = Map<Seq<char>, Command<H>>;

    closed spec fn view(&self) -> Map<Seq<char>, Command<H>> {
        named_commands(self.commands@)
    }
}

/// What a line was resolved to: the syntax that it matches, with its
/// handler, and the values of the syntax's slots.
pub struct Resolved<'s, H> {
    /// Which of the command's syntaxes the line matches, counted from 0.
    pub form: usize,
    /// That syntax and its handler.
    pub dispatch: &'s CommandDispatch<H>,
    /// The values of that syntax's slots.
    pub args: CommandArgs,
}

impl<Context, E, H: Fn(&Context, &CommandArgs) -> Result<i32, E>> CommandSource<Context, E, H> {
    /// The context that the handlers are called with.
    pub closed spec fn context(&self) -> Context {
        self.context
    }

    /// Every command has a syntax, and every handler may be called with the
    /// context.
    #[verifier::type_invariant]
    closed spec fn well_formed(self) -> bool {
        forall|j: int|
            0 <= j < self.commands@.len() ==> {
                &&& (#[trigger] self.commands@[j]).1.dispatchers@.len() > 0
                &&& forall|k: int|
                    0 <= k < self.commands@[j].1.dispatchers@.len() ==> callable(
                        (#[trigger] self.commands@[j].1.dispatchers@[k]).handler,
                        self.context,
                    )
            }
    }

    /// A source without commands.
    pub fn new(context: Context) -> (source: Self)
        ensures
            source@ == Map::<Seq<char>, Command<H>>::empty(),
            source.context() == context,
    {
        Self { commands: Vec::new(), context, failure: core::marker::PhantomData }
    }

    /// The context that the handlers are called with.
    pub fn get_context(&self) -> (context: &Context)
        ensures
            *context == self.context(),
    {
        &self.context
    }

    /// Registers a command under `name`, in place of the one that was
    /// registered under it. The command needs a syntax at least, and its name
    /// is made of alphabetic characters.
    pub fn register(&mut self, name: &str, usage: CommandUsage, dispatchers: Vec<CommandDispatch<H>>)
        requires
            dispatchers@.len() > 0,
            forall|i: int| 0 <= i < name@.len() ==> is_name_char(#[trigger] name@[i]),
            forall|k: int|
                0 <= k < dispatchers@.len() ==> callable(
                    (#[trigger] dispatchers@[k]).handler,
                    old(self).context(),
                ),
        ensures
            final(self)@ == old(self)@.insert(name@, (Command { usage, dispatchers })),
            final(self).context() == old(self).context(),
    {
        proof {
            use_type_invariant(&*self);
        }
        let mut commands: Vec<(String, Command<H>)> = Vec::new();
        core::mem::swap(&mut self.commands, &mut commands);
        commands.push((name.to_owned(), Command { usage, dispatchers }));
        proof {
            assert(commands@.drop_last() =~= old(self).commands@);
            assert forall|j: int| 0 <= j < commands@.len() implies {
                &&& (#[trigger] commands@[j]).1.dispatchers@.len() > 0
                &&& forall|k: int|
                    0 <= k < commands@[j].1.dispatchers@.len() ==> callable(
                        (#[trigger] commands@[j].1.dispatchers@[k]).handler,
                        self.context,
                    )
            } by {
                if j < old(self).commands@.len() {
                    assert(commands@[j] == old(self).commands@[j]);
                }
            }
        }
        self.commands = commands;
    }

    /// Registers a command as [`CommandSource::register`] does, if it has a
    /// syntax and its name is alphabetic, and says whether it did.
    pub fn try_register(
        &mut self,
        name: &str,
        usage: CommandUsage,
        dispatchers: Vec<CommandDispatch<H>>,
    ) -> (registered: bool)
        requires
            forall|k: int|
                0 <= k < dispatchers@.len() ==> callable(
                    (#[trigger] dispatchers@[k]).handler,
                    old(self).context(),
                ),
        ensures
            registered == (dispatchers@.len() > 0 && forall|i: int|
                0 <= i < name@.len() ==> is_name_char(#[trigger] name@[i])),
            registered ==> final(self)@ == old(self)@.insert(name@, (Command { usage, dispatchers })),
            !registered ==> final(self)@ == old(self)@,
            final(self).context() == old(self).context(),
    {
        if dispatchers.len() == 0 {
            return false;
        }
        let mut parser = CommandParser::new(name);
        let is_letter = |c: char| -> (b: bool)
            ensures
                b == is_name_char(c),
            { c.is_alphabetic() };
        let letters: &str = parser.read_while(is_letter);
        if parser.remaining() != 0 {
            return false;
        }
        self.register(name, usage, dispatchers);
        true
    }

    /// The position of the command that is registered under `name`.
    fn find(&self, name: &str) -> (found: Option<usize>)
        ensures
            found is Some <==> self@.contains_key(name@),
            found matches Some(i) ==> i < self.commands@.len() && self.commands@[i as int].1
                == self@[name@],
    {
        let mut i: usize = self.commands.len();
        while i > 0
            invariant
                i <= self.commands@.len(),
                forall|j: int|
                    i <= j < self.commands@.len() ==> (#[trigger] self.commands@[j]).0@ != name@,
            decreases i,
        {
            i = i - 1;
            if same_text(self.commands[i].0.as_str(), name) {
                proof {
                    lemma_named_commands_tail(self.commands@, i + 1, name@);
                    assert(self.commands@.take(i + 1).drop_last() =~= self.commands@.take(i as int));
                }
                return Some(i);
            }
        }
        proof {
            lemma_named_commands_tail(self.commands@, 0, name@);
        }
        None
    }

    /// The usage of the command that is registered under `command`.
    pub fn get_usage(&self, command: &str) -> (usage: Option<&CommandUsage>)
        ensures
            usage is Some <==> self@.contains_key(command@),
            usage matches Some(found) ==> *found == self@[command@].usage,
    {
        match self.find(command) {
            Some(i) => Some(&self.commands[i].1.usage),
            None => None,
        }
    }

    /// Resolves a line: finds the command that it names and the first of the
    /// command's syntaxes that it matches. No handler runs.
    pub fn resolve<'s, 'a>(&'s self, command: &'a str) -> (r: Result<Resolved<'s, H>, ParseError<'a>>)
        ensures
            all_have_syntax(self@),
            match resolve(self@, command@) {
                Ok(selection) => {
                    &&& r matches Ok(resolved)
                    &&& resolved.form == selection.form
                    &&& resolved.form < self@[selection.name].dispatchers@.len()
                    &&& *resolved.dispatch == self@[selection.name].dispatchers@[selection.form as int]
                    &&& resolved.args@ == selection.args
                    &&& callable(resolved.dispatch.handler, self.context())
                },
                Err(failure) => r matches Err(e) && e.reports(command@, failure),
            },
    {
        proof {
            use_type_invariant(self);
            assert forall|name: Seq<char>| self@.contains_key(name) implies (
            #[trigger] self@[name]).dispatchers@.len() > 0 by {
                lemma_named_commands_member(self.commands@, name);
            }
        }
        let mut parser = CommandParser::new(command);
        let unknown = parser.error(ParseErrorKind::UnknownCommand);
        let is_letter = |c: char| -> (b: bool)
            ensures
                b == is_name_char(c),
            { c.is_alphabetic() };
        let name: &str = parser.read_while(is_letter);
        proof {
            lemma_scan_while_unique(command@, 0, parser@.offset, alphabetic());
        }
        let index: usize = match self.find(name) {
            Some(index) => index,
            None => {
                return Err(unknown);
            },
        };
        let dispatchers = &self.commands[index].1.dispatchers;
        let ghost forms = forms_of(dispatchers@);
        let mut form: usize = 0;
        loop
            invariant
                form < dispatchers.len(),
                forms == forms_of(dispatchers@),
                all_have_syntax(self@),
                self@.contains_key(command_name(command@)),
                *dispatchers == self@[command_name(command@)].dispatchers,
                forall|k: int|
                    0 <= k < dispatchers@.len() ==> callable(
                        (#[trigger] dispatchers@[k]).handler,
                        self.context(),
                    ),
                parser@ == (crate::parser::Cursor { source: command@, offset: name_end(command@) }),
                select(forms, 0, command@, name_end(command@)) == select(
                    forms,
                    form as nat,
                    command@,
                    name_end(command@),
                ),
            decreases dispatchers@.len() - form,
        {
            let mut branch = parser.branch();
            let dispatch = &dispatchers[form];
            assert(forms[form as int] == dispatch.syntax.deep_view());
            match apply_syntax(&dispatch.syntax, &mut branch) {
                Ok(args) => {
                    return Ok(Resolved { form, dispatch, args });
                },
                Err(e) => {
                    if form + 1 == dispatchers.len() {
                        return Err(e);
                    }
                },
            }
            form = form + 1;
        }
    }

    /// Dispatches a line: resolves it and runs the handler that it selects,
    /// once, with the context and the values of the syntax's slots. A line
    /// that selects no handler runs none.
    pub fn dispatch<'a>(&self, command: &'a str) -> (r: CommandResult<'a, E>)
        ensures
            all_have_syntax(self@),
            match resolve(self@, command@) {
                Ok(selection) => exists|args: CommandArgs, out: Result<i32, E>|
                    {
                        &&& args@ == selection.args
                        &&& call_ensures(
                            self@[selection.name].dispatchers@[selection.form as int].handler,
                            (&self.context(), &args),
                            out,
                        )
                        &&& r == lifted::<E>(out)
                    },
                Err(failure) => r matches Err(CommandError::Parse(e)) && e.reports(command@, failure),
            },
    {
        match self.resolve(command) {
            Ok(resolved) => {
                let handler = &resolved.dispatch.handler;
                let out = handler(&self.context, &resolved.args);
                match out {
                    Ok(code) => Ok(code),
                    Err(error) => Err(CommandError::Dispatch(error)),
                }
            },
            Err(e) => Err(CommandError::Parse(e)),
        }
    }
}

/// The first match decides: the syntax that is selected matches the line,
/// the values that the handler gets are the ones that this syntax reads on
/// its own, and every syntax that was tried before it fails. Where none is
/// selected, every syntax fails, and the failure of the last one is the one
/// reported.
pub proof fn lemma_select_first_match(
    forms: Seq<Seq<Element>>,
    from: nat,
    source: Seq<char>,
    offset: nat,
)
    requires
        from < forms.len(),
    ensures
        match select(forms, from, source, offset) {
            Ok((form, store)) => {
                &&& from <= form < forms.len()
                &&& match_syntax(forms[form as int], source, offset) == Ok::<Store, Failure>(store)
                &&& forall|j: int|
                    from <= j < form ==> match_syntax(#[trigger] forms[j], source, offset) is Err
            },
            Err(failure) => {
                &&& match_syntax(forms.last(), source, offset) == Err::<Store, Failure>(failure)
                &&& forall|j: int|
                    from <= j < forms.len() ==> match_syntax(#[trigger] forms[j], source, offset) is Err
            },
        },
    decreases forms.len() - from,
{
    if match_syntax(forms[from as int], source, offset) is Err && from + 1 < forms.len() {
        lemma_select_first_match(forms, from + 1, source, offset);
    }
}

/// Selecting among the syntaxes behind the first is selecting among them
/// as a list of their own.
proof fn lemma_select_behind_first(
    first: Seq<Element>,
    others: Seq<Seq<Element>>,
    from: nat,
    source: Seq<char>,
    offset: nat,
)
    requires
        from < others.len(),
    ensures
        select(seq![first] + others, from + 1, source, offset) == match select(
            others,
            from,
            source,
            offset,
        ) {
            Ok((form, store)) => Ok::<(nat, Store), Failure>((form + 1, store)),
            Err(failure) => Err(failure),
        },
    decreases others.len() - from,
{
    let forms = seq![first] + others;
    assert(forms[from as int + 1] == others[from as int]);
    if match_syntax(others[from as int], source, offset) is Err && from + 1 < others.len() {
        lemma_select_behind_first(first, others, from + 1, source, offset);
    }
}

/// A syntax that fails leaves no trace: where the first syntax of a command
/// does not match the line, the selection among all of them is the selection
/// among the others, as if the first had never been tried. What the failed
/// syntax had read is in no value that a handler gets.
pub proof fn lemma_failed_syntax_leaves_no_trace(
    failed: Seq<Element>,
    others: Seq<Seq<Element>>,
    source: Seq<char>,
    offset: nat,
)
    requires
        match_syntax(failed, source, offset) is Err,
        others.len() > 0,
    ensures
        select(seq![failed] + others, 0, source, offset) == match select(
            others,
            0,
            source,
            offset,
        ) {
            Ok((form, store)) => Ok::<(nat, Store), Failure>((form + 1, store)),
            Err(failure) => Err(failure),
        },
{
    let forms = seq![failed] + others;
    assert(forms[0] == failed);
    lemma_select_behind_first(failed, others, 0, source, offset);
}

/// A line selects one handler or none: what it resolves to is one syntax of
/// the command that it names, the first one that matches it, with the
/// values that this syntax reads; or a failure, and then the command is not
/// registered or none of its syntaxes matches.
pub proof fn lemma_resolve_selects_one<H>(commands: Map<Seq<char>, Command<H>>, source: Seq<char>)
    requires
        all_have_syntax(commands),
    ensures
        match resolve(commands, source) {
            Ok(selection) => {
                let forms = forms_of(commands[selection.name].dispatchers@);
                &&& selection.name == command_name(source)
                &&& commands.contains_key(selection.name)
                &&& selection.form < forms.len()
                &&& match_syntax(forms[selection.form as int], source, name_end(source)) == Ok::<
                    Store,
                    Failure,
                >(selection.args)
                &&& forall|j: int|
                    0 <= j < selection.form ==> match_syntax(
                        #[trigger] forms[j],
                        source,
                        name_end(source),
                    ) is Err
            },
            Err(_) => {
                let name = command_name(source);
                commands.contains_key(name) ==> forall|j: int|
                    0 <= j < forms_of(commands[name].dispatchers@).len() ==> match_syntax(
                        #[trigger] forms_of(commands[name].dispatchers@)[j],
                        source,
                        name_end(source),
                    ) is Err
            },
        },
{
    let name = command_name(source);
    if commands.contains_key(name) {
        let forms = forms_of(commands[name].dispatchers@);
        lemma_select_first_match(forms, 0, source, name_end(source));
    }
}

} // verus!
