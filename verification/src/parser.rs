//! The definition registry and the tokenizing parser.

use vstd::prelude::*;
use vstd::string::StrSliceExecFns;
use vstd::string::StringExecFns;

use crate::args::Args;
use crate::defs::arg_views;
use crate::defs::clone_arg_def;
use crate::defs::clone_string;
use crate::defs::def_views;
use crate::defs::ArgDef;
use crate::defs::ArgDefView;
use crate::defs::ArgName;
use crate::defs::ArgNameView;
use crate::defs::Argument;
use crate::defs::ArgumentView;
use crate::defs::ConflictError;
use crate::defs::ParseArgError;
use crate::defs::ParseArgErrorView;
use crate::model::cluster_flags;
use crate::model::cluster_options;
use crate::model::def_long;
use crate::model::def_short;
use crate::model::first_eq;
use crate::model::first_eq_from;
use crate::model::first_unknown;
use crate::model::is_ddash;
use crate::model::is_long_form;
use crate::model::lemma_registrable_prefix;
use crate::model::long_known;
use crate::model::longs_of;
use crate::model::opt_seq;
use crate::model::parse_ctx_spec;
use crate::model::parse_from;
use crate::model::parse_spec;
use crate::model::prepend;
use crate::model::register_conflict;
use crate::model::registrable;
use crate::model::short_flag_entry;
use crate::model::short_option_entry;
use crate::model::shorts_of;
use crate::model::starts_dash;
use crate::model::unknown_in;
use crate::model::RegistryView;

verus! {

broadcast use vstd::seq::group_seq_axioms;

/// Maintains context for parsing arguments: the registered definitions and
/// the name-to-definition lookup state.
pub struct ParserContext {
    /// A list of defined arguments.
    defs: Vec<ArgDef>,
    /// The short characters mapped so far, in registration order.
    shorts: Vec<char>,
    /// The long names mapped so far, in registration order.
    longs: Vec<String>,
}

impl ParserContext {
    /// The registered definitions.
    pub closed spec fn defs_view(self) -> Seq<ArgDefView> {
        def_views(self.defs@)
    }

    /// The short characters the registry maps.
    pub closed spec fn short_names(self) -> Seq<char> {
        self.shorts@
    }

    /// The long names the registry maps.
    pub closed spec fn long_names(self) -> Seq<Seq<char>> {
        self.longs.deep_view()
    }

    /// The registry's name sets, as the parse model sees them.
    pub open spec fn reg(self) -> RegistryView {
        RegistryView { shorts: self.short_names(), longs: self.long_names() }
    }

    /// Well-formedness: the lookup state maps exactly the names of the
    /// registered definitions, and every short character and every long
    /// name is unique.
    pub closed spec fn wf(self) -> bool {
        &&& self.short_names() == shorts_of(self.defs_view())
        &&& self.long_names() == longs_of(self.defs_view())
        &&& self.short_names().no_duplicates()
        &&& self.long_names().no_duplicates()
    }

    /// Creates an empty registry.
    pub fn new() -> (r: Self)
        ensures
            r.wf(),
            r.defs_view() == Seq::<ArgDefView>::empty(),
            r.short_names() == Seq::<char>::empty(),
            r.long_names() == Seq::<Seq<char>>::empty(),
    {
        let ctx = Self { defs: Vec::new(), shorts: Vec::new(), longs: Vec::new() };
        proof {
            assert(ctx.defs_view() =~= Seq::<ArgDefView>::empty());
            assert(ctx.long_names() =~= Seq::<Seq<char>>::empty());
        }
        ctx
    }

    /// Whether some registered definition maps the short character.
    pub fn contains_short(&self, c: char) -> (r: bool)
        ensures
            r == self.short_names().contains(c),
    {
        let n = self.shorts.len();
        let mut i: usize = 0;
        while i < n
            invariant
                n == self.shorts.len(),
                0 <= i <= n,
                forall|k: int| 0 <= k < i ==> self.short_names()[k] != c,
            decreases n - i,
        {
            if self.shorts[i] == c {
                return true;
            }
            i += 1;
        }
        false
    }

    /// Builds a registry by registering each definition in order.
    ///
    /// This bulk constructor is meant for static, programmer-known
    /// definition lists, so it asks up front that no definition conflicts
    /// with the names mapped before it.
    pub fn from(defs: Vec<ArgDef>) -> (r: Self)
        requires
            registrable(def_views(defs@)),
        ensures
            r.wf(),
            r.defs_view() == def_views(defs@),
            r.short_names() == shorts_of(def_views(defs@)),
            r.long_names() == longs_of(def_views(defs@)),
    {
        let ghost all = def_views(defs@);
        let mut ctx = Self::new();
        let n = defs.len();
        let mut i: usize = 0;
        while i < n
            invariant
                n == defs.len(),
                0 <= i <= n,
                registrable(all),
                all == def_views(defs@),
                ctx.wf(),
                ctx.defs_view() == all.subrange(0, i as int),
            decreases n - i,
        {
            proof {
                lemma_registrable_prefix(all, i + 1);
                assert(all.subrange(0, i + 1).drop_last() =~= all.subrange(0, i as int));
                assert(all.subrange(0, i + 1).last() == all[i as int]);
                assert(register_conflict(ctx.reg(), all[i as int]) is None);
            }
            let d = clone_arg_def(&defs[i]);
            let res = ctx.register(d);
            proof {
                assert(res is Ok);
                assert(ctx.defs_view() =~= all.subrange(0, i + 1));
            }
            i += 1;
        }
        proof {
            assert(all.subrange(0, n as int) =~= all);
        }
        ctx
    }

    /// Registers a new definition, all-or-nothing: a definition whose short
    /// character or long name is already mapped registers neither name and
    /// leaves the registry unchanged.
    pub fn register(&mut self, arg: ArgDef) -> (r: Result<(), ConflictError>)
        requires
            old(self).wf(),
        ensures
            final(self).wf(),
            match register_conflict(old(self).reg(), arg@) {
                Some(c) => {
                    &&& r matches Err(e) && e@ == c
                    &&& final(self).defs_view() == old(self).defs_view()
                    &&& final(self).short_names() == old(self).short_names()
                    &&& final(self).long_names() == old(self).long_names()
                },
                None => {
                    &&& r is Ok
                    &&& final(self).defs_view() == old(self).defs_view().push(arg@)
                    &&& final(self).short_names() == old(self).short_names() + opt_seq(
                        def_short(arg@),
                    )
                    &&& final(self).long_names() == old(self).long_names() + opt_seq(
                        def_long(arg@),
                    )
                },
            },
    {
        // Check for conflicts before any mutation.
        match &arg {
            ArgDef::Short(s) => {
                if self.contains_short(*s) {
                    return Err(ConflictError::DuplicateShort(*s));
                }
            },
            ArgDef::Long(l) => {
                if self.contains_long(l) {
                    return Err(ConflictError::DuplicateLong(clone_string(l)));
                }
            },
            ArgDef::ShortAndLong { short, long } => {
                if self.contains_short(*short) {
                    return Err(ConflictError::DuplicateShort(*short));
                }
                if self.contains_long(long) {
                    return Err(ConflictError::DuplicateLong(clone_string(long)));
                }
            },
        }
        // No conflict: update the lookup state and record the definition.
        match &arg {
            ArgDef::Short(s) => {
                self.shorts.push(*s);
            },
            ArgDef::Long(l) => {
                self.longs.push(clone_string(l));
            },
            ArgDef::ShortAndLong { short, long } => {
                self.shorts.push(*short);
                self.longs.push(clone_string(long));
            },
        }
        self.defs.push(arg);
        proof {
            let od = old(self).defs_view();
            let nd = self.defs_view();
            assert(nd =~= od.push(nd.last()));
            assert(nd.drop_last() =~= od);
            assert(self.short_names() =~= old(self).short_names() + opt_seq(
                def_short(nd.last()),
            ));
            assert(self.long_names() =~= old(self).long_names() + opt_seq(def_long(nd.last())));
            assert(self.short_names().no_duplicates());
            assert(self.long_names().no_duplicates());
        }
        Ok(())
    }

    /// Whether some registered definition maps the long name.
    pub fn contains_long(&self, name: &String) -> (r: bool)
        ensures
            r == self.long_names().contains(name@),
    {
        let n = self.longs.len();
        let mut i: usize = 0;
        while i < n
            invariant
                n == self.longs.len(),
                0 <= i <= n,
                forall|k: int| 0 <= k < i ==> self.long_names()[k] != name@,
            decreases n - i,
        {
            if self.longs[i] == *name {
                proof {
                    assert(self.long_names()[i as int] == name@);
                }
                return true;
            }
            i += 1;
        }
        false
    }
}

/// The registry's name sets behind an optional context: `None` for the
/// unchecked parse variant.
pub open spec fn opt_reg(ctx: Option<&ParserContext>) -> Option<RegistryView> {
    match ctx {
        Some(c) => Some(c.reg()),
        None => None,
    }
}

/// The first `=` at or after `j` lies between `j` and the token's length.
proof fn lemma_first_eq_bounds(t: Seq<char>, j: int)
    requires
        0 <= j <= t.len(),
    ensures
        j <= first_eq_from(t, j) <= t.len(),
    decreases t.len() - j,
{
    if j < t.len() && t[j] != '=' {
        lemma_first_eq_bounds(t, j + 1);
    }
}

/// Scanning past positions that hold no `=` does not move the first `=`.
proof fn lemma_first_eq_prefix(t: Seq<char>, j: int)
    requires
        0 <= j <= t.len(),
        forall|k: int| 0 <= k < j ==> t[k] != '=',
    ensures
        first_eq(t) == first_eq_from(t, j),
    decreases j,
{
    if j > 0 {
        lemma_first_eq_prefix(t, j - 1);
        assert(first_eq_from(t, j - 1) == first_eq_from(t, j));
    }
}

/// A cluster whose characters the registry all knows has no unknown
/// character.
proof fn lemma_first_unknown_none(cluster: Seq<char>, shorts: Seq<char>)
    requires
        forall|m: int| 0 <= m < cluster.len() ==> shorts.contains(#[trigger] cluster[m]),
    ensures
        first_unknown(cluster, shorts) is None,
    decreases cluster.len(),
{
    if cluster.len() > 0 {
        assert(shorts.contains(cluster[0]));
        lemma_first_unknown_none(cluster.drop_first(), shorts);
    }
}

/// The first cluster character the registry does not know is the first
/// unknown one.
proof fn lemma_first_unknown_at(cluster: Seq<char>, shorts: Seq<char>, j: int)
    requires
        0 <= j < cluster.len(),
        forall|m: int| 0 <= m < j ==> shorts.contains(#[trigger] cluster[m]),
        !shorts.contains(cluster[j]),
    ensures
        first_unknown(cluster, shorts) == Some(cluster[j]),
    decreases j,
{
    if j == 0 {
    } else {
        assert(shorts.contains(cluster[0]));
        lemma_first_unknown_at(cluster.drop_first(), shorts, j - 1);
    }
}

/// Prepending entry groups one after the other is prepending their
/// concatenation.
proof fn lemma_prepend_assoc(
    a: Seq<ArgumentView>,
    b: Seq<ArgumentView>,
    r: Result<Seq<ArgumentView>, crate::defs::ParseArgErrorView>,
)
    ensures
        prepend(a, prepend(b, r)) == prepend(a + b, r),
{
    match r {
        Ok(s) => {
            assert(a + (b + s) =~= (a + b) + s);
        },
        Err(_) => {},
    }
}

/// Position of the first `=` in the token, or its length if there is none.
fn find_eq(s: &str) -> (r: usize)
    ensures
        r as int == first_eq(s@),
        r <= s@.len(),
{
    let n = s.unicode_len();
    let mut j: usize = 0;
    while j < n
        invariant
            n == s@.len(),
            0 <= j <= n,
            forall|k: int| 0 <= k < j ==> s@[k] != '=',
        decreases n - j,
    {
        if s.get_char(j) == '=' {
            proof {
                lemma_first_eq_prefix(s@, j as int);
            }
            return j;
        }
        j += 1;
    }
    proof {
        lemma_first_eq_prefix(s@, n as int);
    }
    n
}

/// Copies a character range of a token into an owned string.
fn substr_string(s: &str, from: usize, to: usize) -> (r: String)
    requires
        from <= to <= s@.len(),
    ensures
        r@ == s@.subrange(from as int, to as int),
{
    String::from_str(s.substring_char(from, to))
}

/// Extending the cluster by one character appends one `Option` entry.
proof fn lemma_cluster_options_step(cluster: Seq<char>, value: Seq<char>, j: int)
    requires
        0 <= j < cluster.len(),
    ensures
        cluster_options(cluster.subrange(0, j + 1), value) == cluster_options(
            cluster.subrange(0, j),
            value,
        ).push(short_option_entry(cluster[j], value)),
{
    let sub = cluster.subrange(0, j + 1);
    assert(sub.drop_last() =~= cluster.subrange(0, j));
    assert(sub.last() == cluster[j]);
}

/// Extending the cluster by one character appends one `Flag` entry.
proof fn lemma_cluster_flags_step(cluster: Seq<char>, j: int)
    requires
        0 <= j < cluster.len(),
    ensures
        cluster_flags(cluster.subrange(0, j + 1)) == cluster_flags(cluster.subrange(0, j)).push(
            short_flag_entry(cluster[j]),
        ),
{
    let sub = cluster.subrange(0, j + 1);
    assert(sub.drop_last() =~= cluster.subrange(0, j));
    assert(sub.last() == cluster[j]);
}

/// Checks the cluster characters `s[from..to]` against the registry, in
/// cluster order; without a registry every character passes.
fn check_cluster(s: &str, from: usize, to: usize, ctx: Option<&ParserContext>) -> (r: Result<
    (),
    ParseArgError,
>)
    requires
        from <= to <= s@.len(),
    ensures
        ({
            let cluster = s@.subrange(from as int, to as int);
            match r {
                Ok(()) => unknown_in(opt_reg(ctx), cluster) is None,
                Err(e) => unknown_in(opt_reg(ctx), cluster) matches Some(c) && e@
                    == ParseArgErrorView::UnknownShort(c),
            }
        }),
{
    let cx = match ctx {
        Some(c) => c,
        None => {
            return Ok(());
        },
    };
    proof {
        assert(opt_reg(ctx) == Some(cx.reg()));
    }
    let ghost cluster = s@.subrange(from as int, to as int);
    let mut j: usize = from;
    while j < to
        invariant
            from <= j <= to <= s@.len(),
            cluster == s@.subrange(from as int, to as int),
            opt_reg(ctx) == Some(cx.reg()),
            forall|m: int| 0 <= m < j - from ==> cx.short_names().contains(#[trigger] cluster[m]),
        decreases to - j,
    {
        let c = s.get_char(j);
        proof {
            assert(c == cluster[j - from]);
        }
        if !cx.contains_short(c) {
            proof {
                lemma_first_unknown_at(cluster, cx.short_names(), j - from);
            }
            return Err(ParseArgError::UnknownShort(c));
        }
        j += 1;
    }
    proof {
        lemma_first_unknown_none(cluster, cx.short_names());
    }
    Ok(())
}

/// Emits one `Option` entry per cluster character of `s[from..to]`, all
/// sharing the one value.
fn push_cluster_options(result: &mut Vec<Argument>, s: &str, from: usize, to: usize, value: &String)
    requires
        from <= to <= s@.len(),
    ensures
        arg_views(final(result)@) == arg_views(old(result)@) + cluster_options(
            s@.subrange(from as int, to as int),
            value@,
        ),
{
    let ghost cluster = s@.subrange(from as int, to as int);
    let ghost base = arg_views(result@);
    proof {
        assert(base + cluster_options(cluster.subrange(0, 0), value@) =~= base);
    }
    let mut j: usize = from;
    while j < to
        invariant
            from <= j <= to <= s@.len(),
            cluster == s@.subrange(from as int, to as int),
            base == arg_views(old(result)@),
            arg_views(result@) == base + cluster_options(
                cluster.subrange(0, j - from),
                value@,
            ),
        decreases to - j,
    {
        let c = s.get_char(j);
        let ghost prev = result@;
        result.push(Argument::Option { name: ArgName::Short(c), value: clone_string(value) });
        proof {
            assert(c == cluster[j - from]);
            lemma_cluster_options_step(cluster, value@, j - from);
            assert(arg_views(result@) =~= arg_views(prev) + seq![
                ArgumentView::Option { name: ArgNameView::Short(c), value: value@ },
            ]);
            assert(cluster_options(cluster.subrange(0, j + 1 - from), value@)
                =~= cluster_options(cluster.subrange(0, j - from), value@) + seq![
                ArgumentView::Option { name: ArgNameView::Short(c), value: value@ },
            ]);
            assert(arg_views(result@) =~= base + cluster_options(
                cluster.subrange(0, j + 1 - from),
                value@,
            ));
        }
        j += 1;
    }
    proof {
        assert(cluster.subrange(0, to - from) =~= cluster);
    }
}

/// Emits one `Flag` entry per cluster character of `s[from..to]`.
fn push_cluster_flags(result: &mut Vec<Argument>, s: &str, from: usize, to: usize)
    requires
        from <= to <= s@.len(),
    ensures
        arg_views(final(result)@) == arg_views(old(result)@) + cluster_flags(
            s@.subrange(from as int, to as int),
        ),
{
    let ghost cluster = s@.subrange(from as int, to as int);
    let ghost base = arg_views(result@);
    proof {
        assert(base + cluster_flags(cluster.subrange(0, 0)) =~= base);
    }
    let mut j: usize = from;
    while j < to
        invariant
            from <= j <= to <= s@.len(),
            cluster == s@.subrange(from as int, to as int),
            base == arg_views(old(result)@),
            arg_views(result@) == base + cluster_flags(cluster.subrange(0, j - from)),
        decreases to - j,
    {
        let c = s.get_char(j);
        let ghost prev = result@;
        result.push(Argument::Flag { name: ArgName::Short(c) });
        proof {
            assert(c == cluster[j - from]);
            lemma_cluster_flags_step(cluster, j - from);
            assert(arg_views(result@) =~= arg_views(prev) + seq![
                ArgumentView::Flag { name: ArgNameView::Short(c) },
            ]);
            assert(cluster_flags(cluster.subrange(0, j + 1 - from)) =~= cluster_flags(
                cluster.subrange(0, j - from),
            ) + seq![ArgumentView::Flag { name: ArgNameView::Short(c) }]);
            assert(arg_views(result@) =~= base + cluster_flags(
                cluster.subrange(0, j + 1 - from),
            ));
        }
        j += 1;
    }
    proof {
        assert(cluster.subrange(0, to - from) =~= cluster);
    }
}

/// Whether the token begins with a dash: the lookahead test.
fn dash_start(s: &String) -> (r: bool)
    ensures
        r == starts_dash(s@),
{
    let st = s.as_str();
    if st.unicode_len() >= 1 {
        st.get_char(0) == '-'
    } else {
        false
    }
}


/// Classifies every token, left to right, emitting entries and consuming
/// lookahead values: the shared core of both parse variants.
fn parse_core(tokens: &Vec<String>, ctx: Option<&ParserContext>) -> (r: Result<
    Args,
    ParseArgError,
>)
    ensures
        ({
            let m = parse_from(tokens.deep_view(), 0, false, opt_reg(ctx));
            match r {
                Ok(args) => m == Result::<Seq<ArgumentView>, ParseArgErrorView>::Ok(args@),
                Err(e) => m == Result::<Seq<ArgumentView>, ParseArgErrorView>::Err(e@),
            }
        }),
{
    let ghost toks = tokens.deep_view();
    let ghost reg = opt_reg(ctx);
    let mut result: Vec<Argument> = Vec::new();
    let mut pos_only = false;
    let n = tokens.len();
    let mut i: usize = 0;
    proof {
        assert(toks.len() == n);
        assert(arg_views(result@) =~= Seq::<ArgumentView>::empty());
        match parse_from(toks, 0, false, reg) {
            Ok(s) => {
                assert(Seq::<ArgumentView>::empty() + s =~= s);
            },
            Err(_) => {},
        }
    }
    while i < n
        invariant
            n == tokens.len(),
            toks == tokens.deep_view(),
            toks.len() == n,
            reg == opt_reg(ctx),
            0 <= i <= n,
            parse_from(toks, 0, false, reg) == prepend(
                arg_views(result@),
                parse_from(toks, i as int, pos_only, reg),
            ),
        decreases n - i,
    {
        let ghost oi = i as int;
        let ghost opos = pos_only;
        let ghost base = arg_views(result@);
        let ghost rest = parse_from(toks, oi, opos, reg);
        proof {
            assert(toks[oi] == tokens@[oi]@);
        }
        let s = tokens[i].as_str();
        let ghost tv = toks[oi];
        proof {
            assert(s@ == tv);
        }
        let len = s.unicode_len();
        if pos_only {
            result.push(Argument::Positional { value: clone_string(&tokens[i]) });
            i += 1;
            proof {
                let es = seq![ArgumentView::Positional { value: tv }];
                assert(rest == prepend(es, parse_from(toks, oi + 1, true, reg)));
                assert(arg_views(result@) =~= base + es);
                lemma_prepend_assoc(base, es, parse_from(toks, oi + 1, true, reg));
            }
        } else if len == 2 && s.get_char(0) == '-' && s.get_char(1) == '-' {
            pos_only = true;
            i += 1;
            proof {
                assert(is_ddash(tv));
                assert(rest == parse_from(toks, oi + 1, true, reg));
            }
        } else if len >= 2 && s.get_char(0) == '-' && s.get_char(1) == '-' {
            proof {
                assert(is_long_form(tv) && !is_ddash(tv));
                // the first two characters are dashes, so the first `=` is at 2 or later
                assert(first_eq_from(tv, 0) == first_eq_from(tv, 1));
                assert(first_eq_from(tv, 1) == first_eq_from(tv, 2));
                lemma_first_eq_bounds(tv, 2);
            }
            let k = find_eq(s);
            if k < len {
                // `--name=value`: the value stands in the token itself
                let name = substr_string(s, 2, k);
                let value = substr_string(s, k + 1, len);
                if let Some(cx) = ctx {
                    if !cx.contains_long(&name) {
                        proof {
                            assert(rest == Result::<Seq<ArgumentView>, ParseArgErrorView>::Err(
                                ParseArgErrorView::UnknownLong(name@),
                            ));
                        }
                        return Err(ParseArgError::UnknownLong(name));
                    }
                }
                proof {
                    assert(long_known(reg, tv.subrange(2, first_eq(tv))));
                }
                result.push(Argument::Option { name: ArgName::Long(name), value });
                i += 1;
                proof {
                    let nm = tv.subrange(2, first_eq(tv));
                    let vl = tv.subrange(first_eq(tv) + 1, tv.len() as int);
                    let es = seq![ArgumentView::Option { name: ArgNameView::Long(nm), value: vl }];
                    assert(rest == prepend(es, parse_from(toks, oi + 1, false, reg)));
                    assert(arg_views(result@) =~= base + es);
                    lemma_prepend_assoc(base, es, parse_from(toks, oi + 1, false, reg));
                }
            } else {
                // `--name`: the lookahead token may supply the value
                let name = substr_string(s, 2, len);
                if let Some(cx) = ctx {
                    if !cx.contains_long(&name) {
                        proof {
                            assert(rest == Result::<Seq<ArgumentView>, ParseArgErrorView>::Err(
                                ParseArgErrorView::UnknownLong(name@),
                            ));
                        }
                        return Err(ParseArgError::UnknownLong(name));
                    }
                }
                proof {
                    assert(long_known(reg, tv.subrange(2, tv.len() as int)));
                }
                if i + 1 < n && !dash_start(&tokens[i + 1]) {
                    proof {
                        assert(toks[oi + 1] == tokens@[oi + 1]@);
                    }
                    let value = clone_string(&tokens[i + 1]);
                    result.push(Argument::Option { name: ArgName::Long(name), value });
                    i += 2;
                    proof {
                        let nm = tv.subrange(2, tv.len() as int);
                        let es = seq![
                            ArgumentView::Option { name: ArgNameView::Long(nm), value: toks[oi + 1] },
                        ];
                        assert(rest == prepend(es, parse_from(toks, oi + 2, false, reg)));
                        assert(arg_views(result@) =~= base + es);
                        lemma_prepend_assoc(base, es, parse_from(toks, oi + 2, false, reg));
                    }
                } else {
                    result.push(Argument::Flag { name: ArgName::Long(name) });
                    i += 1;
                    proof {
                        let nm = tv.subrange(2, tv.len() as int);
                        let es = seq![ArgumentView::Flag { name: ArgNameView::Long(nm) }];
                        assert(rest == prepend(es, parse_from(toks, oi + 1, false, reg)));
                        assert(arg_views(result@) =~= base + es);
                        lemma_prepend_assoc(base, es, parse_from(toks, oi + 1, false, reg));
                    }
                }
            }
        } else if len >= 1 && s.get_char(0) == '-' {
            proof {
                assert(starts_dash(tv) && !is_long_form(tv) && !is_ddash(tv));
                // the first character is a dash, so the first `=` is at 1 or later
                assert(first_eq_from(tv, 0) == first_eq_from(tv, 1));
                lemma_first_eq_bounds(tv, 1);
            }
            if len < 2 {
                proof {
                    assert(rest == Result::<Seq<ArgumentView>, ParseArgErrorView>::Err(
                        ParseArgErrorView::MalformedArg(tv),
                    ));
                }
                return Err(ParseArgError::MalformedArg(clone_string(&tokens[i])));
            }
            let k = find_eq(s);
            if k < len {
                // `-abc=value`: every cluster character shares the value
                match check_cluster(s, 1, k, ctx) {
                    Err(e) => {
                        proof {
                            assert(rest == Result::<Seq<ArgumentView>, ParseArgErrorView>::Err(
                                e@,
                            ));
                        }
                        return Err(e);
                    },
                    Ok(()) => {},
                }
                let value = substr_string(s, k + 1, len);
                push_cluster_options(&mut result, s, 1, k, &value);
                i += 1;
                proof {
                    let cl = tv.subrange(1, first_eq(tv));
                    let vl = tv.subrange(first_eq(tv) + 1, tv.len() as int);
                    let es = cluster_options(cl, vl);
                    assert(value@ == vl);
                    assert(rest == prepend(es, parse_from(toks, oi + 1, false, reg)));
                    assert(arg_views(result@) == base + es);
                    lemma_prepend_assoc(base, es, parse_from(toks, oi + 1, false, reg));
                }
            } else {
                // `-abc`: the lookahead token may supply a shared value
                match check_cluster(s, 1, len, ctx) {
                    Err(e) => {
                        proof {
                            assert(rest == Result::<Seq<ArgumentView>, ParseArgErrorView>::Err(
                                e@,
                            ));
                        }
                        return Err(e);
                    },
                    Ok(()) => {},
                }
                if i + 1 < n && !dash_start(&tokens[i + 1]) {
                    proof {
                        assert(toks[oi + 1] == tokens@[oi + 1]@);
                    }
                    push_cluster_options(&mut result, s, 1, len, &tokens[i + 1]);
                    i += 2;
                    proof {
                        let cl = tv.subrange(1, tv.len() as int);
                        let es = cluster_options(cl, toks[oi + 1]);
                        assert(rest == prepend(es, parse_from(toks, oi + 2, false, reg)));
                        assert(arg_views(result@) == base + es);
                        lemma_prepend_assoc(base, es, parse_from(toks, oi + 2, false, reg));
                    }
                } else {
                    push_cluster_flags(&mut result, s, 1, len);
                    i += 1;
                    proof {
                        let cl = tv.subrange(1, tv.len() as int);
                        let es = cluster_flags(cl);
                        assert(rest == prepend(es, parse_from(toks, oi + 1, false, reg)));
                        assert(arg_views(result@) == base + es);
                        lemma_prepend_assoc(base, es, parse_from(toks, oi + 1, false, reg));
                    }
                }
            }
        } else {
            proof {
                assert(!starts_dash(tv));
            }
            result.push(Argument::Positional { value: clone_string(&tokens[i]) });
            i += 1;
            proof {
                let es = seq![ArgumentView::Positional { value: tv }];
                assert(rest == prepend(es, parse_from(toks, oi + 1, false, reg)));
                assert(arg_views(result@) =~= base + es);
                lemma_prepend_assoc(base, es, parse_from(toks, oi + 1, false, reg));
            }
        }
    }
    proof {
        assert(parse_from(toks, n as int, pos_only, reg) == Result::<
            Seq<ArgumentView>,
            ParseArgErrorView,
        >::Ok(Seq::empty()));
        assert(arg_views(result@) + Seq::<ArgumentView>::empty() =~= arg_views(result@));
    }
    Ok(Args(result))
}

/// Parses a list of tokens without a registry: classification is purely
/// syntactic.
pub fn parse(args: &Vec<String>) -> (r: Result<Args, ParseArgError>)
    ensures
        match r {
            Ok(a) => parse_spec(args.deep_view()) == Result::<
                Seq<ArgumentView>,
                ParseArgErrorView,
            >::Ok(a@),
            Err(e) => parse_spec(args.deep_view()) == Result::<
                Seq<ArgumentView>,
                ParseArgErrorView,
            >::Err(e@),
        },
{
    parse_core(args, None)
}

/// Parses a list of tokens against a registry: a parsed name absent from
/// the registry fails the whole parse.
pub fn parse_with_ctx(args: &Vec<String>, ctx: &ParserContext) -> (r: Result<Args, ParseArgError>)
    ensures
        match r {
            Ok(a) => parse_ctx_spec(args.deep_view(), ctx.reg()) == Result::<
                Seq<ArgumentView>,
                ParseArgErrorView,
            >::Ok(a@),
            Err(e) => parse_ctx_spec(args.deep_view(), ctx.reg()) == Result::<
                Seq<ArgumentView>,
                ParseArgErrorView,
            >::Err(e@),
        },
{
    parse_core(args, Some(ctx))
}


} // verus!
