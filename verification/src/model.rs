//! The mathematical model of the tokenizer: a recursive specification of
//! which entries a token sequence parses to, shared by the unchecked and the
//! validating parse variants.
//!
//! The model walks the token sequence left to right with a cursor `i` and a
//! one-way positional-only latch. Each step classifies the token at the
//! cursor and may additionally consume the following token as a value.

use vstd::prelude::*;

use crate::defs::ArgDefView;
use crate::defs::ArgNameView;
use crate::defs::ArgumentView;
use crate::defs::ConflictErrorView;
use crate::defs::ParseArgErrorView;

verus! {

broadcast use vstd::seq::group_seq_axioms;

/// The name sets of a definition registry, as seen by the validating parse
/// variant: the registered short characters and long names, in registration
/// order.
pub struct RegistryView {
    pub shorts: Seq<char>,
    pub longs: Seq<Seq<char>>,
}

/// The token begins with a dash: the lookahead test for "does the next token
/// look like a flag rather than a value".
pub open spec fn starts_dash(t: Seq<char>) -> bool {
    t.len() >= 1 && t[0] == '-'
}

/// The token is exactly `--`: the positional-only latch.
pub open spec fn is_ddash(t: Seq<char>) -> bool {
    t.len() == 2 && t[0] == '-' && t[1] == '-'
}

/// The token begins with `--`: long-form classification applies.
pub open spec fn is_long_form(t: Seq<char>) -> bool {
    t.len() >= 2 && t[0] == '-' && t[1] == '-'
}

/// Position of the first `=` at or after `j`, or `t.len()` if there is none.
pub open spec fn first_eq_from(t: Seq<char>, j: int) -> int
    decreases t.len() - j,
{
    if j < 0 || j >= t.len() {
        t.len() as int
    } else if t[j] == '=' {
        j
    } else {
        first_eq_from(t, j + 1)
    }
}

/// Position of the first `=` in the token, or `t.len()` if there is none.
pub open spec fn first_eq(t: Seq<char>) -> int {
    first_eq_from(t, 0)
}

/// Whether the token contains an `=`.
pub open spec fn has_eq(t: Seq<char>) -> bool {
    first_eq(t) < t.len()
}

/// Whether a long name passes the registry: without a registry every name
/// passes.
pub open spec fn long_known(reg: Option<RegistryView>, name: Seq<char>) -> bool {
    match reg {
        None => true,
        Some(r) => r.longs.contains(name),
    }
}

/// The first character of the cluster that the registry does not know, in
/// cluster order; `None` when all are known.
pub open spec fn first_unknown(cluster: Seq<char>, shorts: Seq<char>) -> Option<char>
    decreases cluster.len(),
{
    if cluster.len() == 0 {
        None
    } else if !shorts.contains(cluster[0]) {
        Some(cluster[0])
    } else {
        first_unknown(cluster.drop_first(), shorts)
    }
}

/// The first unknown short character of the cluster under the optional
/// registry: without a registry every character is known.
pub open spec fn unknown_in(reg: Option<RegistryView>, cluster: Seq<char>) -> Option<char> {
    match reg {
        None => None,
        Some(r) => first_unknown(cluster, r.shorts),
    }
}

/// An `Option` entry under a short name.
pub open spec fn short_option_entry(c: char, value: Seq<char>) -> ArgumentView {
    ArgumentView::Option { name: ArgNameView::Short(c), value }
}

/// A `Flag` entry under a short name.
pub open spec fn short_flag_entry(c: char) -> ArgumentView {
    ArgumentView::Flag { name: ArgNameView::Short(c) }
}

/// One `Option` entry per cluster character, all sharing one value.
pub open spec fn cluster_options(cluster: Seq<char>, value: Seq<char>) -> Seq<ArgumentView>
    decreases cluster.len(),
{
    if cluster.len() == 0 {
        Seq::empty()
    } else {
        cluster_options(cluster.drop_last(), value).push(short_option_entry(cluster.last(), value))
    }
}

/// One `Flag` entry per cluster character.
pub open spec fn cluster_flags(cluster: Seq<char>) -> Seq<ArgumentView>
    decreases cluster.len(),
{
    if cluster.len() == 0 {
        Seq::empty()
    } else {
        cluster_flags(cluster.drop_last()).push(short_flag_entry(cluster.last()))
    }
}

/// Prepends entries to the rest of a parse: an error further right aborts
/// the whole parse.
pub open spec fn prepend(
    es: Seq<ArgumentView>,
    rest: Result<Seq<ArgumentView>, ParseArgErrorView>,
) -> Result<Seq<ArgumentView>, ParseArgErrorView> {
    match rest {
        Ok(s) => Ok(es + s),
        Err(e) => Err(e),
    }
}

/// The entries that the tokens from cursor `i` on parse to, or the first
/// error. `pos_only` is the positional-only latch; `reg` is `Some` for the
/// validating variant and `None` for the unchecked one.
pub open spec fn parse_from(
    tokens: Seq<Seq<char>>,
    i: int,
    pos_only: bool,
    reg: Option<RegistryView>,
) -> Result<Seq<ArgumentView>, ParseArgErrorView>
    decreases tokens.len() - i,
{
    if i < 0 || i >= tokens.len() {
        Ok(Seq::empty())
    } else {
        let t = tokens[i];
        if pos_only {
            prepend(
                seq![ArgumentView::Positional { value: t }],
                parse_from(tokens, i + 1, true, reg),
            )
        } else if is_ddash(t) {
            parse_from(tokens, i + 1, true, reg)
        } else if is_long_form(t) {
            if has_eq(t) {
                let name = t.subrange(2, first_eq(t));
                let value = t.subrange(first_eq(t) + 1, t.len() as int);
                if !long_known(reg, name) {
                    Err(ParseArgErrorView::UnknownLong(name))
                } else {
                    prepend(
                        seq![ArgumentView::Option { name: ArgNameView::Long(name), value }],
                        parse_from(tokens, i + 1, false, reg),
                    )
                }
            } else {
                let name = t.subrange(2, t.len() as int);
                if !long_known(reg, name) {
                    Err(ParseArgErrorView::UnknownLong(name))
                } else if i + 1 < tokens.len() && !starts_dash(tokens[i + 1]) {
                    prepend(
                        seq![
                            ArgumentView::Option {
                                name: ArgNameView::Long(name),
                                value: tokens[i + 1],
                            },
                        ],
                        parse_from(tokens, i + 2, false, reg),
                    )
                } else {
                    prepend(
                        seq![ArgumentView::Flag { name: ArgNameView::Long(name) }],
                        parse_from(tokens, i + 1, false, reg),
                    )
                }
            }
        } else if starts_dash(t) {
            if t.len() < 2 {
                Err(ParseArgErrorView::MalformedArg(t))
            } else if has_eq(t) {
                let cluster = t.subrange(1, first_eq(t));
                let value = t.subrange(first_eq(t) + 1, t.len() as int);
                match unknown_in(reg, cluster) {
                    Some(c) => Err(ParseArgErrorView::UnknownShort(c)),
                    None => prepend(
                        cluster_options(cluster, value),
                        parse_from(tokens, i + 1, false, reg),
                    ),
                }
            } else {
                let cluster = t.subrange(1, t.len() as int);
                match unknown_in(reg, cluster) {
                    Some(c) => Err(ParseArgErrorView::UnknownShort(c)),
                    None => if i + 1 < tokens.len() && !starts_dash(tokens[i + 1]) {
                        prepend(
                            cluster_options(cluster, tokens[i + 1]),
                            parse_from(tokens, i + 2, false, reg),
                        )
                    } else {
                        prepend(cluster_flags(cluster), parse_from(tokens, i + 1, false, reg))
                    },
                }
            }
        } else {
            prepend(
                seq![ArgumentView::Positional { value: t }],
                parse_from(tokens, i + 1, false, reg),
            )
        }
    }
}

/// The short character a definition maps, if any.
pub open spec fn def_short(d: ArgDefView) -> Option<char> {
    match d {
        ArgDefView::Short(c) => Some(c),
        ArgDefView::Long(_) => None,
        ArgDefView::ShortAndLong { short, .. } => Some(short),
    }
}

/// The long name a definition maps, if any.
pub open spec fn def_long(d: ArgDefView) -> Option<Seq<char>> {
    match d {
        ArgDefView::Short(_) => None,
        ArgDefView::Long(l) => Some(l),
        ArgDefView::ShortAndLong { long, .. } => Some(long),
    }
}

/// An optional element as a sequence of zero or one elements.
pub open spec fn opt_seq<A>(o: Option<A>) -> Seq<A> {
    match o {
        Some(a) => seq![a],
        None => Seq::empty(),
    }
}

/// The short characters mapped by a definition sequence, in registration
/// order.
pub open spec fn shorts_of(defs: Seq<ArgDefView>) -> Seq<char>
    decreases defs.len(),
{
    if defs.len() == 0 {
        Seq::empty()
    } else {
        shorts_of(defs.drop_last()) + opt_seq(def_short(defs.last()))
    }
}

/// The long names mapped by a definition sequence, in registration order.
pub open spec fn longs_of(defs: Seq<ArgDefView>) -> Seq<Seq<char>>
    decreases defs.len(),
{
    if defs.len() == 0 {
        Seq::empty()
    } else {
        longs_of(defs.drop_last()) + opt_seq(def_long(defs.last()))
    }
}

/// The conflict that registering `d` against the registry would report:
/// the short character is checked before the long name, and `None` means
/// the registration succeeds.
pub open spec fn register_conflict(reg: RegistryView, d: ArgDefView) -> Option<ConflictErrorView> {
    match d {
        ArgDefView::Short(c) => if reg.shorts.contains(c) {
            Some(ConflictErrorView::DuplicateShort(c))
        } else {
            None
        },
        ArgDefView::Long(l) => if reg.longs.contains(l) {
            Some(ConflictErrorView::DuplicateLong(l))
        } else {
            None
        },
        ArgDefView::ShortAndLong { short, long } => if reg.shorts.contains(short) {
            Some(ConflictErrorView::DuplicateShort(short))
        } else if reg.longs.contains(long) {
            Some(ConflictErrorView::DuplicateLong(long))
        } else {
            None
        },
    }
}

/// A definition sequence whose registrations all succeed in order: no
/// definition conflicts with the names mapped before it.
pub open spec fn registrable(defs: Seq<ArgDefView>) -> bool
    decreases defs.len(),
{
    defs.len() == 0 || (registrable(defs.drop_last()) && register_conflict(
        RegistryView {
            shorts: shorts_of(defs.drop_last()),
            longs: longs_of(defs.drop_last()),
        },
        defs.last(),
    ) is None)
}

/// Every prefix of a registrable definition sequence is registrable.
pub proof fn lemma_registrable_prefix(s: Seq<ArgDefView>, j: int)
    requires
        registrable(s),
        0 <= j <= s.len(),
    ensures
        registrable(s.subrange(0, j)),
    decreases s.len(),
{
    if j == s.len() {
        assert(s.subrange(0, j) =~= s);
    } else {
        assert(registrable(s.drop_last()));
        lemma_registrable_prefix(s.drop_last(), j);
        assert(s.drop_last().subrange(0, j) =~= s.subrange(0, j));
    }
}

/// The whole-input parse without a registry: the unchecked variant.
pub open spec fn parse_spec(tokens: Seq<Seq<char>>) -> Result<
    Seq<ArgumentView>,
    ParseArgErrorView,
> {
    parse_from(tokens, 0, false, None)
}

/// The whole-input parse against a registry: the validating variant.
pub open spec fn parse_ctx_spec(tokens: Seq<Seq<char>>, reg: RegistryView) -> Result<
    Seq<ArgumentView>,
    ParseArgErrorView,
> {
    parse_from(tokens, 0, false, Some(reg))
}

/// The number of input tokens a pass starting at cursor `i` consumes:
/// one for the token at the cursor, and one more when the following token
/// is consumed as a value; an error stops the count at the offending token.
pub open spec fn consumed_from(
    tokens: Seq<Seq<char>>,
    i: int,
    pos_only: bool,
    reg: Option<RegistryView>,
) -> int
    decreases tokens.len() - i,
{
    if i < 0 || i >= tokens.len() {
        0
    } else {
        let t = tokens[i];
        if pos_only {
            1 + consumed_from(tokens, i + 1, true, reg)
        } else if is_ddash(t) {
            1 + consumed_from(tokens, i + 1, true, reg)
        } else if is_long_form(t) {
            if has_eq(t) {
                if !long_known(reg, t.subrange(2, first_eq(t))) {
                    1
                } else {
                    1 + consumed_from(tokens, i + 1, false, reg)
                }
            } else {
                if !long_known(reg, t.subrange(2, t.len() as int)) {
                    1
                } else if i + 1 < tokens.len() && !starts_dash(tokens[i + 1]) {
                    2 + consumed_from(tokens, i + 2, false, reg)
                } else {
                    1 + consumed_from(tokens, i + 1, false, reg)
                }
            }
        } else if starts_dash(t) {
            if t.len() < 2 {
                1
            } else if has_eq(t) {
                if unknown_in(reg, t.subrange(1, first_eq(t))) is Some {
                    1
                } else {
                    1 + consumed_from(tokens, i + 1, false, reg)
                }
            } else {
                if unknown_in(reg, t.subrange(1, t.len() as int)) is Some {
                    1
                } else if i + 1 < tokens.len() && !starts_dash(tokens[i + 1]) {
                    2 + consumed_from(tokens, i + 2, false, reg)
                } else {
                    1 + consumed_from(tokens, i + 1, false, reg)
                }
            }
        } else {
            1 + consumed_from(tokens, i + 1, false, reg)
        }
    }
}

/// Law: a pass that succeeds consumes every remaining input token exactly
/// once — each token is either classified at the cursor or taken exactly
/// once as the value of the flag/option just before it, and none is ever
/// reclassified.
pub proof fn lemma_parse_consumes_all(
    tokens: Seq<Seq<char>>,
    i: int,
    pos_only: bool,
    reg: Option<RegistryView>,
)
    requires
        0 <= i <= tokens.len(),
        parse_from(tokens, i, pos_only, reg) is Ok,
    ensures
        consumed_from(tokens, i, pos_only, reg) == tokens.len() - i,
    decreases tokens.len() - i,
{
    if i < tokens.len() {
        let t = tokens[i];
        if pos_only {
            lemma_parse_consumes_all(tokens, i + 1, true, reg);
        } else if is_ddash(t) {
            lemma_parse_consumes_all(tokens, i + 1, true, reg);
        } else if is_long_form(t) {
            if has_eq(t) {
                lemma_parse_consumes_all(tokens, i + 1, false, reg);
            } else if i + 1 < tokens.len() && !starts_dash(tokens[i + 1]) {
                lemma_parse_consumes_all(tokens, i + 2, false, reg);
            } else {
                lemma_parse_consumes_all(tokens, i + 1, false, reg);
            }
        } else if starts_dash(t) {
            if has_eq(t) {
                lemma_parse_consumes_all(tokens, i + 1, false, reg);
            } else if i + 1 < tokens.len() && !starts_dash(tokens[i + 1]) {
                lemma_parse_consumes_all(tokens, i + 2, false, reg);
            } else {
                lemma_parse_consumes_all(tokens, i + 1, false, reg);
            }
        } else {
            lemma_parse_consumes_all(tokens, i + 1, false, reg);
        }
    }
}

/// Law: parsing is deterministic — one token sequence against one registry
/// has exactly one parse, so parsing the same input twice with the same
/// registry yields structurally identical results.
pub proof fn lemma_parse_deterministic(
    tokens: Seq<Seq<char>>,
    reg: RegistryView,
    r1: Result<Seq<ArgumentView>, ParseArgErrorView>,
    r2: Result<Seq<ArgumentView>, ParseArgErrorView>,
)
    requires
        r1 == parse_ctx_spec(tokens, reg),
        r2 == parse_ctx_spec(tokens, reg),
    ensures
        r1 == r2,
{
}

/// Law: registering a definition whose long name is already mapped (and
/// whose short character, if it has one, is not) reports `DuplicateLong`;
/// by `ParserContext::register`'s contract such a registration leaves the
/// registry unchanged.
pub proof fn lemma_register_duplicate_long(reg: RegistryView, d: ArgDefView, l: Seq<char>)
    requires
        def_long(d) == Some(l),
        reg.longs.contains(l),
        match def_short(d) {
            Some(c) => !reg.shorts.contains(c),
            None => true,
        },
    ensures
        register_conflict(reg, d) == Some(ConflictErrorView::DuplicateLong(l)),
{
}

} // verus!

