use argsparse::ArgDef;
use argsparse::ArgName;
use argsparse::Argument;
use argsparse::ConflictError;
use argsparse::ParseArgError;
use argsparse::ParserContext;

fn toks(xs: &[&str]) -> Vec<String> {
    let mut v = Vec::new();
    for x in xs {
        v.push(x.to_string());
    }
    v
}

#[test]
fn register_accepts_distinct_names() {
    let mut ctx = ParserContext::new();
    assert!(ctx.register(ArgDef::Short('v')).is_ok());
    assert!(ctx.register(ArgDef::Long("help".to_string())).is_ok());
    assert!(ctx
        .register(ArgDef::ShortAndLong { short: 'o', long: "output".to_string() })
        .is_ok());
    assert!(ctx.contains_short('v'));
    assert!(ctx.contains_short('o'));
    assert!(ctx.contains_long(&"help".to_string()));
    assert!(ctx.contains_long(&"output".to_string()));
    assert!(!ctx.contains_short('x'));
    assert!(!ctx.contains_long(&"missing".to_string()));
}

#[test]
fn duplicate_long_fails_and_leaves_registry_unchanged() {
    let mut ctx = ParserContext::new();
    assert!(ctx.register(ArgDef::Long("name".to_string())).is_ok());
    let err = ctx.register(ArgDef::Long("name".to_string())).unwrap_err();
    assert_eq!(err, ConflictError::DuplicateLong("name".to_string()));
    // The registry still maps exactly the first registration.
    assert!(ctx.contains_long(&"name".to_string()));
    assert!(ctx.register(ArgDef::Long("other".to_string())).is_ok());
}

#[test]
fn duplicate_short_fails() {
    let mut ctx = ParserContext::new();
    assert!(ctx.register(ArgDef::Short('a')).is_ok());
    let err = ctx.register(ArgDef::Short('a')).unwrap_err();
    assert_eq!(err, ConflictError::DuplicateShort('a'));
}

#[test]
fn short_and_long_conflict_registers_neither_name() {
    let mut ctx = ParserContext::new();
    assert!(ctx.register(ArgDef::Long("color".to_string())).is_ok());
    let err = ctx
        .register(ArgDef::ShortAndLong { short: 'c', long: "color".to_string() })
        .unwrap_err();
    assert_eq!(err, ConflictError::DuplicateLong("color".to_string()));
    // All-or-nothing: the short half was not registered either.
    assert!(!ctx.contains_short('c'));
}

#[test]
fn short_conflict_is_reported_before_long() {
    let mut ctx = ParserContext::new();
    assert!(ctx.register(ArgDef::Short('c')).is_ok());
    assert!(ctx.register(ArgDef::Long("color".to_string())).is_ok());
    let err = ctx
        .register(ArgDef::ShortAndLong { short: 'c', long: "color".to_string() })
        .unwrap_err();
    assert_eq!(err, ConflictError::DuplicateShort('c'));
}

#[test]
fn bulk_constructor_registers_in_order() {
    let ctx = ParserContext::from(vec![
        ArgDef::Short('v'),
        ArgDef::Long("help".to_string()),
        ArgDef::ShortAndLong { short: 'o', long: "output".to_string() },
    ]);
    assert!(ctx.contains_short('v'));
    assert!(ctx.contains_short('o'));
    assert!(ctx.contains_long(&"help".to_string()));
    assert!(ctx.contains_long(&"output".to_string()));
}

#[test]
fn validating_parse_accepts_registered_names() {
    let ctx = ParserContext::from(vec![
        ArgDef::Short('a'),
        ArgDef::Short('b'),
        ArgDef::Long("foo".to_string()),
    ]);
    let args = argsparse::parser::parse_with_ctx(&toks(&["--foo", "x", "-ab"]), &ctx).unwrap();
    assert_eq!(
        args.0,
        vec![
            Argument::Option { name: ArgName::Long("foo".to_string()), value: "x".to_string() },
            Argument::Flag { name: ArgName::Short('a') },
            Argument::Flag { name: ArgName::Short('b') },
        ]
    );
}

#[test]
fn validating_parse_rejects_unknown_long() {
    let ctx = ParserContext::from(vec![ArgDef::Long("foo".to_string())]);
    let err = argsparse::parser::parse_with_ctx(&toks(&["--bar"]), &ctx).unwrap_err();
    assert_eq!(err, ParseArgError::UnknownLong("bar".to_string()));
}

#[test]
fn validating_parse_rejects_unknown_long_with_inline_value() {
    let ctx = ParserContext::from(vec![ArgDef::Long("foo".to_string())]);
    let err = argsparse::parser::parse_with_ctx(&toks(&["--bar=1"]), &ctx).unwrap_err();
    assert_eq!(err, ParseArgError::UnknownLong("bar".to_string()));
}

#[test]
fn validating_parse_rejects_first_unknown_short() {
    let ctx = ParserContext::from(vec![ArgDef::Short('a')]);
    let err = argsparse::parser::parse_with_ctx(&toks(&["-abc"]), &ctx).unwrap_err();
    assert_eq!(err, ParseArgError::UnknownShort('b'));
}

#[test]
fn validating_parse_skips_registry_after_latch() {
    let ctx = ParserContext::new();
    let args = argsparse::parser::parse_with_ctx(&toks(&["--", "--foo"]), &ctx).unwrap();
    assert_eq!(args.0, vec![Argument::Positional { value: "--foo".to_string() }]);
}

#[test]
fn validating_parse_twice_is_identical() {
    let ctx = ParserContext::from(vec![
        ArgDef::Short('x'),
        ArgDef::Long("name".to_string()),
    ]);
    let input = toks(&["--name=1", "-x", "pos"]);
    let first = argsparse::parser::parse_with_ctx(&input, &ctx).unwrap();
    let second = argsparse::parser::parse_with_ctx(&input, &ctx).unwrap();
    assert_eq!(first.0, second.0);
}
