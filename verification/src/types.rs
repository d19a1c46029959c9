//! Strongly typed wrappers over parsed entries, and the conversion trait
//! that extracts them from the generic entry type.

use vstd::prelude::*;

use crate::defs::clone_arg_name;
use crate::defs::clone_string;
use crate::defs::ArgName;
use crate::defs::ArgNameView;
use crate::defs::Argument;
use crate::defs::ArgumentView;

verus! {

broadcast use vstd::seq::group_seq_axioms;

/// A positional argument: a value not preceded by a flag or option name.
#[derive(Debug)]
pub struct PositionalArg {
    /// The raw string value of the positional argument.
    pub value: String,
}

/// A flag argument: a switch with no associated value, such as `-v` or
/// `--help`.
#[derive(Debug)]
pub struct FlagArg {
    /// The name of the flag.
    pub name: ArgName,
}

/// An option argument with an associated value, such as `-o output.txt` or
/// `--file=config.toml`.
#[derive(Debug)]
pub struct OptionArg {
    /// The name of the option.
    pub name: ArgName,
    /// The associated value.
    pub value: String,
}

impl View for PositionalArg {
    type V = Seq<char>;

    open spec fn view(&self) -> Seq<char> {
        self.value@
    }
}

impl View for FlagArg {
    type V = ArgNameView;

    open spec fn view(&self) -> ArgNameView {
        self.name@
    }
}

impl View for OptionArg {
    type V = (ArgNameView, Seq<char>);

    open spec fn view(&self) -> (ArgNameView, Seq<char>) {
        (self.name@, self.value@)
    }
}

/// Conversion from a generic parsed entry into a strongly typed wrapper:
/// one conversion per concrete wrapper shape.
pub trait FromArgument: Sized + View {
    /// Which entries convert into this wrapper.
    spec fn accepts(arg: ArgumentView) -> bool;

    /// The wrapper's view for an accepted entry.
    spec fn convert(arg: ArgumentView) -> Self::V;

    /// Converts a reference to an `Argument` into `Self`, if possible.
    fn from_argument(arg: &Argument) -> (r: Option<Self>)
        ensures
            r is Some <==> Self::accepts(arg@),
            r matches Some(w) ==> w@ == Self::convert(arg@),
    ;
}

impl FromArgument for PositionalArg {
    open spec fn accepts(arg: ArgumentView) -> bool {
        arg is Positional
    }

    open spec fn convert(arg: ArgumentView) -> Seq<char> {
        match arg {
            ArgumentView::Positional { value } => value,
            _ => Seq::empty(),
        }
    }

    fn from_argument(arg: &Argument) -> (r: Option<Self>) {
        match arg {
            Argument::Positional { value } => Some(PositionalArg { value: clone_string(value) }),
            _ => None,
        }
    }
}

impl FromArgument for FlagArg {
    open spec fn accepts(arg: ArgumentView) -> bool {
        arg is Flag
    }

    open spec fn convert(arg: ArgumentView) -> ArgNameView {
        match arg {
            ArgumentView::Flag { name } => name,
            _ => ArgNameView::Short(' '),
        }
    }

    fn from_argument(arg: &Argument) -> (r: Option<Self>) {
        match arg {
            Argument::Flag { name } => Some(FlagArg { name: clone_arg_name(name) }),
            _ => None,
        }
    }
}

impl FromArgument for OptionArg {
    open spec fn accepts(arg: ArgumentView) -> bool {
        arg is Option
    }

    open spec fn convert(arg: ArgumentView) -> (ArgNameView, Seq<char>) {
        match arg {
            ArgumentView::Option { name, value } => (name, value),
            _ => (ArgNameView::Short(' '), Seq::empty()),
        }
    }

    fn from_argument(arg: &Argument) -> (r: Option<Self>) {
        match arg {
            Argument::Option { name, value } => Some(
                OptionArg { name: clone_arg_name(name), value: clone_string(value) },
            ),
            _ => None,
        }
    }
}

impl PartialEq for PositionalArg {
    fn eq(&self, other: &Self) -> (r: bool) {
        self.value == other.value
    }
}

impl vstd::std_specs::cmp::PartialEqSpecImpl for PositionalArg {
    open spec fn obeys_eq_spec() -> bool {
        true
    }

    open spec fn eq_spec(&self, other: &Self) -> bool {
        self@ == other@
    }
}

impl PartialEq for FlagArg {
    fn eq(&self, other: &Self) -> (r: bool) {
        self.name == other.name
    }
}

impl vstd::std_specs::cmp::PartialEqSpecImpl for FlagArg {
    open spec fn obeys_eq_spec() -> bool {
        true
    }

    open spec fn eq_spec(&self, other: &Self) -> bool {
        self@ == other@
    }
}

impl PartialEq for OptionArg {
    fn eq(&self, other: &Self) -> (r: bool) {
        self.name == other.name && self.value == other.value
    }
}

impl vstd::std_specs::cmp::PartialEqSpecImpl for OptionArg {
    open spec fn obeys_eq_spec() -> bool {
        true
    }

    open spec fn eq_spec(&self, other: &Self) -> bool {
        self@ == other@
    }
}

} // verus!
