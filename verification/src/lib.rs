//! A command-line argument tokenizer and lookup library.
//!
//! Raw input tokens are classified into positionals, flags and
//! options-with-value, and a registry of argument definitions can validate
//! parsed names at parse time. Entries own their text: values are copied out
//! of the input tokens.

pub mod args;
pub mod defs;
pub mod model;
pub mod parser;
pub mod types;

pub use args::Args;
pub use defs::ArgDef;
pub use defs::ArgName;
pub use defs::Argument;
pub use defs::ConflictError;
pub use defs::ParseArgError;
pub use parser::ParserContext;
pub use types::FlagArg;
pub use types::FromArgument;
pub use types::OptionArg;
pub use types::PositionalArg;
