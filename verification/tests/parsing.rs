use argsparse::ArgName;
use argsparse::Argument;
use argsparse::ParseArgError;

fn toks(xs: &[&str]) -> Vec<String> {
    let mut v = Vec::new();
    for x in xs {
        v.push(x.to_string());
    }
    v
}

fn long(name: &str) -> ArgName {
    ArgName::Long(name.to_string())
}

#[test]
fn latch_makes_everything_positional() {
    let args = argsparse::parser::parse(&toks(&["--", "-x", "--foo"])).unwrap();
    assert_eq!(
        args.0,
        vec![
            Argument::Positional { value: "-x".to_string() },
            Argument::Positional { value: "--foo".to_string() },
        ]
    );
}

#[test]
fn latch_is_one_way() {
    let args = argsparse::parser::parse(&toks(&["--", "--", "-a"])).unwrap();
    assert_eq!(
        args.0,
        vec![
            Argument::Positional { value: "--".to_string() },
            Argument::Positional { value: "-a".to_string() },
        ]
    );
}

#[test]
fn long_with_inline_value() {
    let args = argsparse::parser::parse(&toks(&["--name=value"])).unwrap();
    assert_eq!(
        args.0,
        vec![Argument::Option { name: long("name"), value: "value".to_string() }]
    );
}

#[test]
fn long_with_empty_inline_value() {
    let args = argsparse::parser::parse(&toks(&["--name="])).unwrap();
    assert_eq!(args.0, vec![Argument::Option { name: long("name"), value: String::new() }]);
}

#[test]
fn long_splits_at_first_equals_only() {
    let args = argsparse::parser::parse(&toks(&["--name=a=b"])).unwrap();
    assert_eq!(
        args.0,
        vec![Argument::Option { name: long("name"), value: "a=b".to_string() }]
    );
}

#[test]
fn long_consumes_lookahead_value() {
    let args = argsparse::parser::parse(&toks(&["--output", "result.txt"])).unwrap();
    assert_eq!(
        args.0,
        vec![Argument::Option { name: long("output"), value: "result.txt".to_string() }]
    );
}

#[test]
fn long_consumes_empty_lookahead_value() {
    let args = argsparse::parser::parse(&toks(&["--foo", ""])).unwrap();
    assert_eq!(args.0, vec![Argument::Option { name: long("foo"), value: String::new() }]);
}

#[test]
fn two_longs_are_flags() {
    let args = argsparse::parser::parse(&toks(&["--foo", "--bar"])).unwrap();
    assert_eq!(
        args.0,
        vec![Argument::Flag { name: long("foo") }, Argument::Flag { name: long("bar") }]
    );
}

#[test]
fn trailing_long_is_flag() {
    let args = argsparse::parser::parse(&toks(&["--verbose"])).unwrap();
    assert_eq!(args.0, vec![Argument::Flag { name: long("verbose") }]);
}

#[test]
fn cluster_shares_lookahead_value() {
    let args = argsparse::parser::parse(&toks(&["-abc", "val"])).unwrap();
    assert_eq!(
        args.0,
        vec![
            Argument::Option { name: ArgName::Short('a'), value: "val".to_string() },
            Argument::Option { name: ArgName::Short('b'), value: "val".to_string() },
            Argument::Option { name: ArgName::Short('c'), value: "val".to_string() },
        ]
    );
}

#[test]
fn cluster_before_dash_token_gives_flags() {
    let args = argsparse::parser::parse(&toks(&["-abc", "-d"])).unwrap();
    assert_eq!(
        args.0,
        vec![
            Argument::Flag { name: ArgName::Short('a') },
            Argument::Flag { name: ArgName::Short('b') },
            Argument::Flag { name: ArgName::Short('c') },
            Argument::Flag { name: ArgName::Short('d') },
        ]
    );
}

#[test]
fn cluster_with_inline_value() {
    let args = argsparse::parser::parse(&toks(&["-ab=v"])).unwrap();
    assert_eq!(
        args.0,
        vec![
            Argument::Option { name: ArgName::Short('a'), value: "v".to_string() },
            Argument::Option { name: ArgName::Short('b'), value: "v".to_string() },
        ]
    );
}

#[test]
fn empty_cluster_before_equals_gives_no_entries() {
    let args = argsparse::parser::parse(&toks(&["-=v"])).unwrap();
    assert_eq!(args.0, vec![]);
}

#[test]
fn plain_tokens_are_positional() {
    let args = argsparse::parser::parse(&toks(&["input.txt", "", "x"])).unwrap();
    assert_eq!(
        args.0,
        vec![
            Argument::Positional { value: "input.txt".to_string() },
            Argument::Positional { value: String::new() },
            Argument::Positional { value: "x".to_string() },
        ]
    );
}

#[test]
fn bare_dash_is_malformed() {
    let err = argsparse::parser::parse(&toks(&["-"])).unwrap_err();
    assert_eq!(err, ParseArgError::MalformedArg("-".to_string()));
}

#[test]
fn error_aborts_whole_parse() {
    let err = argsparse::parser::parse(&toks(&["ok", "-", "more"])).unwrap_err();
    assert_eq!(err, ParseArgError::MalformedArg("-".to_string()));
}

#[test]
fn negative_number_lookahead_is_not_consumed() {
    let args = argsparse::parser::parse(&toks(&["--level", "-1"])).unwrap();
    assert_eq!(
        args.0,
        vec![Argument::Flag { name: long("level") }, Argument::Flag { name: ArgName::Short('1') }]
    );
}

#[test]
fn mixed_sequence() {
    let args =
        argsparse::parser::parse(&toks(&["testing", "--some", "args", "-xy", "--", "--end"]))
            .unwrap();
    assert_eq!(
        args.0,
        vec![
            Argument::Positional { value: "testing".to_string() },
            Argument::Option { name: long("some"), value: "args".to_string() },
            Argument::Flag { name: ArgName::Short('x') },
            Argument::Flag { name: ArgName::Short('y') },
            Argument::Positional { value: "--end".to_string() },
        ]
    );
}

#[test]
fn parsing_twice_is_identical() {
    let input = toks(&["a", "--b=c", "-de", "f", "--", "-g"]);
    let first = argsparse::parser::parse(&input).unwrap();
    let second = argsparse::parser::parse(&input).unwrap();
    assert_eq!(first.0, second.0);
}

#[test]
fn empty_long_name_with_inline_value() {
    let args = argsparse::parser::parse(&toks(&["--=v"])).unwrap();
    assert_eq!(args.0, vec![Argument::Option { name: long(""), value: "v".to_string() }]);
}

#[test]
fn single_short_with_lookahead_value() {
    let args = argsparse::parser::parse(&toks(&["-o", "out.txt"])).unwrap();
    assert_eq!(
        args.0,
        vec![Argument::Option { name: ArgName::Short('o'), value: "out.txt".to_string() }]
    );
}

#[test]
fn cluster_may_contain_dash_characters() {
    let args = argsparse::parser::parse(&toks(&["-a-b"])).unwrap();
    assert_eq!(
        args.0,
        vec![
            Argument::Flag { name: ArgName::Short('a') },
            Argument::Flag { name: ArgName::Short('-') },
            Argument::Flag { name: ArgName::Short('b') },
        ]
    );
}

#[test]
fn latch_at_end_emits_nothing() {
    let args = argsparse::parser::parse(&toks(&["a", "--"])).unwrap();
    assert_eq!(args.0, vec![Argument::Positional { value: "a".to_string() }]);
}

#[test]
fn empty_input_parses_to_no_entries() {
    let args = argsparse::parser::parse(&toks(&[])).unwrap();
    assert_eq!(args.0, vec![]);
}
