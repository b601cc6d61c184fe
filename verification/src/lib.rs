//! A command-grammar engine: it turns one line of text into a validated,
//! typed invocation of application logic.
//!
//! A line names a command and goes on with literals and typed arguments. The
//! engine finds the command, tries the syntaxes that are registered for it in
//! their order, each from the same place and with an empty argument store,
//! and hands the line to the handler of the first syntax that matches it
//! completely. The engine changes nothing itself: what a line selects is a
//! function of the registered commands and the line.
//!
//! - [`parser`]: the cursor over the line, and the errors that parsing
//!   reports; [`encoding`] and [`chars`] stand below it.
//! - [`grammar`]: what the built-in kinds of argument look like.
//! - [`argument`] and [`arguments`]: typed arguments and the store that a
//!   match fills with them.
//! - [`syntax`]: syntaxes, how a line is matched against one, and usage lines.
//! - [`source`]: registration and dispatch.
//! - [`matchers`] and [`tree`]: commands as a tree of checkpoints.
//! - [`definition`]: how syntaxes follow from the declarations of handlers.
//! - [`example`]: the lines that a usage stands for, and that they dispatch.

pub mod argument;
pub mod arguments;
pub mod chars;
pub mod definition;
pub mod encoding;
pub mod example;
pub mod grammar;
pub mod matchers;
pub mod parser;
pub mod source;
pub mod syntax;
pub mod tree;

pub use source::CommandDispatch;
pub use source::CommandError;
pub use source::CommandResult;
pub use source::CommandSource;
pub use source::CommandUsage;
