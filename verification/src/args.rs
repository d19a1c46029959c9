//! The parsed-argument container and its query surface.

use vstd::prelude::*;

use crate::defs::arg_views;
use crate::defs::def_matches;
use crate::defs::spec_name_of;
use crate::defs::ArgDef;
use crate::defs::ArgDefView;
use crate::defs::Argument;
use crate::defs::ArgumentView;
use crate::defs::ParseArgError;
use crate::defs::ParseArgErrorView;
use crate::model::parse_spec;
use crate::parser;
use crate::types::FromArgument;

verus! {

broadcast use vstd::seq::group_seq_axioms;

/// A parsed list of command-line arguments, in input order.
///
/// An `Args` wraps a `Vec<Argument>` and provides convenience methods for
/// querying and extracting data from parsed command-line arguments. It is
/// obtained from [`Args::parse`] or from the free parse functions and is
/// read-only afterwards.
#[derive(Debug)]
pub struct Args(pub Vec<Argument>);

impl View for Args {
    type V = Seq<ArgumentView>;

    open spec fn view(&self) -> Seq<ArgumentView> {
        arg_views(self.0@)
    }
}

/// Whether the entry is a flag or option whose name the definition matches.
pub open spec fn entry_matches(d: ArgDefView, a: ArgumentView) -> bool {
    match spec_name_of(a) {
        Some(n) => def_matches(d, n),
        None => false,
    }
}

/// Index of the first entry at or after `i` that the definition matches,
/// or `s.len()` if there is none.
pub open spec fn first_match_from(s: Seq<ArgumentView>, d: ArgDefView, i: int) -> int
    decreases s.len() - i,
{
    if i < 0 || i >= s.len() {
        s.len() as int
    } else if entry_matches(d, s[i]) {
        i
    } else {
        first_match_from(s, d, i + 1)
    }
}

/// Index of the first entry that the definition matches, or `s.len()` if
/// there is none.
pub open spec fn first_match(s: Seq<ArgumentView>, d: ArgDefView) -> int {
    first_match_from(s, d, 0)
}

/// The views of the entries that convert into the wrapper `T`, in entry
/// order.
pub open spec fn converted_of<T: FromArgument>(s: Seq<ArgumentView>) -> Seq<T::V>
    decreases s.len(),
{
    if s.len() == 0 {
        Seq::empty()
    } else {
        let rest = converted_of::<T>(s.drop_last());
        if T::accepts(s.last()) {
            rest.push(T::convert(s.last()))
        } else {
            rest
        }
    }
}

/// The views of a sequence of wrappers, element by element.
pub open spec fn wrapper_views<T: View>(s: Seq<T>) -> Seq<T::V> {
    s.map(|_i: int, t: T| t@)
}

/// Scanning past entries that the definition does not match does not move
/// the first match.
proof fn lemma_first_match_prefix(s: Seq<ArgumentView>, d: ArgDefView, i: int)
    requires
        0 <= i <= s.len(),
        forall|k: int| 0 <= k < i ==> !entry_matches(d, #[trigger] s[k]),
    ensures
        first_match(s, d) == first_match_from(s, d, i),
    decreases i,
{
    if i > 0 {
        lemma_first_match_prefix(s, d, i - 1);
        assert(first_match_from(s, d, i - 1) == first_match_from(s, d, i));
    }
}

/// Extending the scanned entries by one extends the conversions by at most
/// one element.
proof fn lemma_converted_of_step<T: FromArgument>(s: Seq<ArgumentView>, i: int)
    requires
        0 <= i < s.len(),
    ensures
        converted_of::<T>(s.subrange(0, i + 1)) == if T::accepts(s[i]) {
            converted_of::<T>(s.subrange(0, i)).push(T::convert(s[i]))
        } else {
            converted_of::<T>(s.subrange(0, i))
        },
{
    let sub = s.subrange(0, i + 1);
    assert(sub.drop_last() =~= s.subrange(0, i));
    assert(sub.last() == s[i]);
}

impl Args {
    /// Finds all arguments of a given argument type.
    ///
    /// Returns a `Vec<T>` containing every argument that converts from the
    /// generic entry representation through [`FromArgument`], in entry
    /// order.
    pub fn find_all<T: FromArgument>(&self) -> (r: Vec<T>)
        ensures
            wrapper_views(r@) == converted_of::<T>(self@),
    {
        self.iter_all()
    }

    /// Collects every argument that converts into type `T`, in entry order.
    ///
    /// This is the eager counterpart of [`Args::find_all`]: both walk the
    /// internal list of arguments and keep the entries that [`FromArgument`]
    /// converts.
    pub fn iter_all<T: FromArgument>(&self) -> (r: Vec<T>)
        ensures
            wrapper_views(r@) == converted_of::<T>(self@),
    {
        let ghost s = self@;
        let mut out: Vec<T> = Vec::new();
        let n = self.0.len();
        let mut i: usize = 0;
        proof {
            assert(wrapper_views(out@) =~= converted_of::<T>(s.subrange(0, 0)));
        }
        while i < n
            invariant
                n == self.0.len(),
                s == self@,
                s.len() == n,
                0 <= i <= n,
                wrapper_views(out@) == converted_of::<T>(s.subrange(0, i as int)),
            decreases n - i,
        {
            let ghost prev = out@;
            match T::from_argument(&self.0[i]) {
                Some(w) => {
                    out.push(w);
                    proof {
                        assert(wrapper_views(out@) =~= wrapper_views(prev).push(out@.last()@));
                    }
                },
                None => {},
            }
            proof {
                lemma_converted_of_step::<T>(s, i as int);
            }
            i += 1;
        }
        proof {
            assert(s.subrange(0, n as int) =~= s);
        }
        out
    }

    /// Finds the first argument matching the given [`ArgDef`], and converts
    /// it into type `T`.
    ///
    /// If some flag or option matches the definition's name, the first such
    /// entry is converted through [`FromArgument`]; the result is `None`
    /// when no entry matches or when the first matching entry does not
    /// convert.
    pub fn find<T: FromArgument>(&self, def: ArgDef) -> (r: Option<T>)
        ensures
            ({
                let idx = first_match(self@, def@);
                if idx < self@.len() {
                    match r {
                        Some(w) => T::accepts(self@[idx]) && w@ == T::convert(self@[idx]),
                        None => !T::accepts(self@[idx]),
                    }
                } else {
                    r is None
                }
            }),
    {
        let ghost s = self@;
        let n = self.0.len();
        let mut i: usize = 0;
        while i < n
            invariant
                n == self.0.len(),
                s == self@,
                s.len() == n,
                0 <= i <= n,
                forall|k: int| 0 <= k < i ==> !entry_matches(def@, #[trigger] s[k]),
            decreases n - i,
        {
            let matched = match &self.0[i] {
                Argument::Flag { name } => def.matches(name),
                Argument::Option { name, .. } => def.matches(name),
                Argument::Positional { .. } => false,
            };
            if matched {
                proof {
                    lemma_first_match_prefix(s, def@, i as int);
                    assert(first_match(s, def@) == i as int);
                }
                return T::from_argument(&self.0[i]);
            }
            i += 1;
        }
        proof {
            lemma_first_match_prefix(s, def@, n as int);
        }
        None
    }

    /// Checks if an argument matching the given [`ArgDef`] is present.
    ///
    /// Returns `true` if any flag or option matches the definition.
    pub fn has(&self, def: ArgDef) -> (r: bool)
        ensures
            r == exists|k: int| 0 <= k < self@.len() && entry_matches(def@, #[trigger] self@[k]),
    {
        let ghost s = self@;
        let n = self.0.len();
        let mut i: usize = 0;
        while i < n
            invariant
                n == self.0.len(),
                s == self@,
                s.len() == n,
                0 <= i <= n,
                forall|k: int| 0 <= k < i ==> !entry_matches(def@, #[trigger] s[k]),
            decreases n - i,
        {
            let matched = match &self.0[i] {
                Argument::Flag { name } => def.matches(name),
                Argument::Option { name, .. } => def.matches(name),
                Argument::Positional { .. } => false,
            };
            if matched {
                proof {
                    assert(s[i as int] == self.0@[i as int]@);
                    assert(entry_matches(def@, s[i as int]));
                }
                return true;
            }
            i += 1;
        }
        false
    }

    /// Parses a list of command-line tokens into an [`Args`] instance.
    ///
    /// This is the unchecked entry point: classification is purely
    /// syntactic, with no registry consulted.
    pub fn parse(args: &Vec<String>) -> (r: Result<Args, ParseArgError>)
        ensures
            match r {
                Ok(a) => parse_spec(args.deep_view()) == Result::<
                    Seq<ArgumentView>,
                    ParseArgErrorView,
                >::Ok(a@),
                Err(e) => parse_spec(args.deep_view()) == Result::<
                    Seq<ArgumentView>,
                    ParseArgErrorView,
                >::Err(e@),
            },
    {
        parser::parse(args)
    }
}

} // verus!
