//! Argument definitions, parsed-argument entries, and the error taxonomy.

use vstd::prelude::*;

verus! {

broadcast use vstd::seq::group_seq_axioms;

/// Defines the expected arguments the parser can recognize.
#[derive(Debug)]
pub enum ArgDef {
    /// A short argument definition (e.g., `-h`).
    Short(char),
    /// A long argument definition (e.g., `--help`).
    Long(String),
    /// Defines both a short and long version of an argument.
    ShortAndLong {
        /// The short character.
        short: char,
        /// The long name.
        long: String,
    },
}

/// Represents the name of an argument, used for identification and matching.
#[derive(Debug)]
pub enum ArgName {
    /// A short name, e.g., `-h`.
    Short(char),
    /// A long name, e.g., `--help`.
    Long(String),
}

/// A parsed command-line argument.
#[derive(Debug)]
pub enum Argument {
    /// A raw positional value, e.g., a file path or input string.
    Positional {
        /// The string value.
        value: String,
    },
    /// A flag that was present, e.g., `--verbose`.
    Flag {
        /// The name of the flag.
        name: ArgName,
    },
    /// An option with an associated value, e.g., `--output result.txt`.
    Option {
        /// The name of the option.
        name: ArgName,
        /// The associated value.
        value: String,
    },
}

/// Represents possible parsing errors when processing a single argument.
#[derive(Debug)]
pub enum ParseArgError {
    /// The offending token is syntactically malformed or not valid.
    MalformedArg(String),
    /// The long argument name is not defined in the context.
    UnknownLong(String),
    /// The short argument name is not defined in the context.
    UnknownShort(char),
}

/// Registration conflicts reported by the definition registry.
#[derive(Debug)]
pub enum ConflictError {
    /// The short character is already mapped by a registered definition.
    DuplicateShort(char),
    /// The long name is already mapped by a registered definition.
    DuplicateLong(String),
}

/// Mathematical counterpart of [`ArgDef`]: long names are character sequences.
pub enum ArgDefView {
    Short(char),
    Long(Seq<char>),
    ShortAndLong { short: char, long: Seq<char> },
}

/// Mathematical counterpart of [`ArgName`].
pub enum ArgNameView {
    Short(char),
    Long(Seq<char>),
}

/// Mathematical counterpart of [`Argument`].
pub enum ArgumentView {
    Positional { value: Seq<char> },
    Flag { name: ArgNameView },
    Option { name: ArgNameView, value: Seq<char> },
}

/// Mathematical counterpart of [`ParseArgError`].
pub enum ParseArgErrorView {
    MalformedArg(Seq<char>),
    UnknownLong(Seq<char>),
    UnknownShort(char),
}

/// Mathematical counterpart of [`ConflictError`].
pub enum ConflictErrorView {
    DuplicateShort(char),
    DuplicateLong(Seq<char>),
}

impl View for ArgDef {
    type V = ArgDefView;

    open spec fn view(&self) -> ArgDefView {
        match self {
            ArgDef::Short(c) => ArgDefView::Short(*c),
            ArgDef::Long(l) => ArgDefView::Long(l@),
            ArgDef::ShortAndLong { short, long } => ArgDefView::ShortAndLong {
                short: *short,
                long: long@,
            },
        }
    }
}

impl View for ArgName {
    type V = ArgNameView;

    open spec fn view(&self) -> ArgNameView {
        match self {
            ArgName::Short(c) => ArgNameView::Short(*c),
            ArgName::Long(l) => ArgNameView::Long(l@),
        }
    }
}

impl View for Argument {
    type V = ArgumentView;

    open spec fn view(&self) -> ArgumentView {
        match self {
            Argument::Positional { value } => ArgumentView::Positional { value: value@ },
            Argument::Flag { name } => ArgumentView::Flag { name: name@ },
            Argument::Option { name, value } => ArgumentView::Option {
                name: name@,
                value: value@,
            },
        }
    }
}

impl View for ParseArgError {
    type V = ParseArgErrorView;

    open spec fn view(&self) -> ParseArgErrorView {
        match self {
            ParseArgError::MalformedArg(t) => ParseArgErrorView::MalformedArg(t@),
            ParseArgError::UnknownLong(l) => ParseArgErrorView::UnknownLong(l@),
            ParseArgError::UnknownShort(c) => ParseArgErrorView::UnknownShort(*c),
        }
    }
}

impl View for ConflictError {
    type V = ConflictErrorView;

    open spec fn view(&self) -> ConflictErrorView {
        match self {
            ConflictError::DuplicateShort(c) => ConflictErrorView::DuplicateShort(*c),
            ConflictError::DuplicateLong(l) => ConflictErrorView::DuplicateLong(l@),
        }
    }
}

/// The views of a sequence of definitions, element by element.
pub open spec fn def_views(s: Seq<ArgDef>) -> Seq<ArgDefView> {
    s.map(|_i: int, d: ArgDef| d@)
}

/// The views of a sequence of entries, element by element.
pub open spec fn arg_views(s: Seq<Argument>) -> Seq<ArgumentView> {
    s.map(|_i: int, a: Argument| a@)
}

/// Whether a definition recognizes the given name: a `ShortAndLong`
/// definition recognizes both of its forms.
pub open spec fn def_matches(def: ArgDefView, name: ArgNameView) -> bool {
    match (def, name) {
        (ArgDefView::Short(s), ArgNameView::Short(o)) => s == o,
        (ArgDefView::Long(s), ArgNameView::Long(o)) => s == o,
        (ArgDefView::ShortAndLong { short, .. }, ArgNameView::Short(o)) => short == o,
        (ArgDefView::ShortAndLong { long, .. }, ArgNameView::Long(o)) => long == o,
        _ => false,
    }
}

impl ArgDef {
    /// Returns `true` if the `ArgDef` matches the given `ArgName`.
    pub fn matches(&self, other: &ArgName) -> (r: bool)
        ensures
            r == def_matches(self@, other@),
    {
        match (self, other) {
            (ArgDef::Short(s), ArgName::Short(o)) => s == o,
            (ArgDef::Long(s), ArgName::Long(o)) => *s == *o,
            (ArgDef::ShortAndLong { short, long: _ }, ArgName::Short(o)) => short == o,
            (ArgDef::ShortAndLong { short: _, long }, ArgName::Long(o)) => *long == *o,
            _ => false,
        }
    }
}

/// The name carried by an entry: flags and options have one, positionals
/// have none.
pub open spec fn spec_name_of(arg: ArgumentView) -> Option<ArgNameView> {
    match arg {
        ArgumentView::Flag { name } => Some(name),
        ArgumentView::Option { name, .. } => Some(name),
        ArgumentView::Positional { .. } => None,
    }
}

/// Copies an argument name.
pub fn clone_arg_name(n: &ArgName) -> (r: ArgName)
    ensures
        r@ == n@,
{
    match n {
        ArgName::Short(c) => ArgName::Short(*c),
        ArgName::Long(l) => ArgName::Long(clone_string(l)),
    }
}

/// Copies an argument definition.
pub fn clone_arg_def(d: &ArgDef) -> (r: ArgDef)
    ensures
        r@ == d@,
{
    match d {
        ArgDef::Short(c) => ArgDef::Short(*c),
        ArgDef::Long(l) => ArgDef::Long(clone_string(l)),
        ArgDef::ShortAndLong { short, long } => ArgDef::ShortAndLong {
            short: *short,
            long: clone_string(long),
        },
    }
}

/// Copies a string.
pub fn clone_string(s: &String) -> (r: String)
    ensures
        r@ == s@,
{
    s.clone()
}

impl Argument {
    /// Returns the name of the argument if it's a `Flag` or `Option`.
    ///
    /// Returns `None` for `Positional` arguments.
    pub fn name(&self) -> (r: Option<ArgName>)
        ensures
            r is Some <==> spec_name_of(self@) is Some,
            r matches Some(n) ==> spec_name_of(self@) == Some(n@),
    {
        match self {
            Argument::Flag { name } => Some(clone_arg_name(name)),
            Argument::Option { name, .. } => Some(clone_arg_name(name)),
            Argument::Positional { .. } => None,
        }
    }
}

impl PartialEq for ArgName {
    fn eq(&self, other: &Self) -> (r: bool) {
        match (self, other) {
            (ArgName::Short(a), ArgName::Short(b)) => a == b,
            (ArgName::Long(a), ArgName::Long(b)) => *a == *b,
            _ => false,
        }
    }
}

impl vstd::std_specs::cmp::PartialEqSpecImpl for ArgName {
    open spec fn obeys_eq_spec() -> bool {
        true
    }

    open spec fn eq_spec(&self, other: &Self) -> bool {
        self@ == other@
    }
}

impl PartialEq for ArgDef {
    fn eq(&self, other: &Self) -> (r: bool) {
        match (self, other) {
            (ArgDef::Short(a), ArgDef::Short(b)) => a == b,
            (ArgDef::Long(a), ArgDef::Long(b)) => *a == *b,
            (
                ArgDef::ShortAndLong { short: a, long: al },
                ArgDef::ShortAndLong { short: b, long: bl },
            ) => a == b && *al == *bl,
            _ => false,
        }
    }
}

impl vstd::std_specs::cmp::PartialEqSpecImpl for ArgDef {
    open spec fn obeys_eq_spec() -> bool {
        true
    }

    open spec fn eq_spec(&self, other: &Self) -> bool {
        self@ == other@
    }
}

impl PartialEq for Argument {
    fn eq(&self, other: &Self) -> (r: bool) {
        match (self, other) {
            (Argument::Positional { value: a }, Argument::Positional { value: b }) => *a == *b,
            (Argument::Flag { name: a }, Argument::Flag { name: b }) => a == b,
            (
                Argument::Option { name: a, value: av },
                Argument::Option { name: b, value: bv },
            ) => a == b && *av == *bv,
            _ => false,
        }
    }
}

impl vstd::std_specs::cmp::PartialEqSpecImpl for Argument {
    open spec fn obeys_eq_spec() -> bool {
        true
    }

    open spec fn eq_spec(&self, other: &Self) -> bool {
        self@ == other@
    }
}

impl PartialEq for ParseArgError {
    fn eq(&self, other: &Self) -> (r: bool) {
        match (self, other) {
            (ParseArgError::MalformedArg(a), ParseArgError::MalformedArg(b)) => *a == *b,
            (ParseArgError::UnknownLong(a), ParseArgError::UnknownLong(b)) => *a == *b,
            (ParseArgError::UnknownShort(a), ParseArgError::UnknownShort(b)) => a == b,
            _ => false,
        }
    }
}

impl vstd::std_specs::cmp::PartialEqSpecImpl for ParseArgError {
    open spec fn obeys_eq_spec() -> bool {
        true
    }

    open spec fn eq_spec(&self, other: &Self) -> bool {
        self@ == other@
    }
}

impl PartialEq for ConflictError {
    fn eq(&self, other: &Self) -> (r: bool) {
        match (self, other) {
            (ConflictError::DuplicateShort(a), ConflictError::DuplicateShort(b)) => a == b,
            (ConflictError::DuplicateLong(a), ConflictError::DuplicateLong(b)) => *a == *b,
            _ => false,
        }
    }
}

impl vstd::std_specs::cmp::PartialEqSpecImpl for ConflictError {
    open spec fn obeys_eq_spec() -> bool {
        true
    }

    open spec fn eq_spec(&self, other: &Self) -> bool {
        self@ == other@
    }
}

} // verus!
