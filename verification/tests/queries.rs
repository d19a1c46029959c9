use argsparse::ArgDef;
use argsparse::ArgName;
use argsparse::Args;
use argsparse::Argument;
use argsparse::FlagArg;
use argsparse::FromArgument;
use argsparse::OptionArg;
use argsparse::PositionalArg;

fn toks(xs: &[&str]) -> Vec<String> {
    let mut v = Vec::new();
    for x in xs {
        v.push(x.to_string());
    }
    v
}

#[test]
fn def_matches_names() {
    let def = ArgDef::Short('v');
    assert!(def.matches(&ArgName::Short('v')));
    assert!(!def.matches(&ArgName::Short('w')));
    assert!(!def.matches(&ArgName::Long("v".to_string())));

    let def = ArgDef::Long("help".to_string());
    assert!(def.matches(&ArgName::Long("help".to_string())));
    assert!(!def.matches(&ArgName::Long("hel".to_string())));
    assert!(!def.matches(&ArgName::Short('h')));

    let def = ArgDef::ShortAndLong { short: 'o', long: "output".to_string() };
    assert!(def.matches(&ArgName::Short('o')));
    assert!(def.matches(&ArgName::Long("output".to_string())));
    assert!(!def.matches(&ArgName::Long("o".to_string())));
}

#[test]
fn argument_name_of_each_shape() {
    let arg = Argument::Flag { name: ArgName::Short('v') };
    assert_eq!(arg.name(), Some(ArgName::Short('v')));
    let arg = Argument::Option { name: ArgName::Long("o".to_string()), value: "x".to_string() };
    assert_eq!(arg.name(), Some(ArgName::Long("o".to_string())));
    let arg = Argument::Positional { value: "x".to_string() };
    assert_eq!(arg.name(), None);
}

#[test]
fn from_argument_converts_matching_shapes() {
    let pos = Argument::Positional { value: "file".to_string() };
    let flag = Argument::Flag { name: ArgName::Short('v') };
    let opt = Argument::Option { name: ArgName::Long("o".to_string()), value: "x".to_string() };

    assert_eq!(
        PositionalArg::from_argument(&pos),
        Some(PositionalArg { value: "file".to_string() })
    );
    assert_eq!(PositionalArg::from_argument(&flag), None);
    assert_eq!(FlagArg::from_argument(&flag), Some(FlagArg { name: ArgName::Short('v') }));
    assert_eq!(FlagArg::from_argument(&opt), None);
    assert_eq!(
        OptionArg::from_argument(&opt),
        Some(OptionArg { name: ArgName::Long("o".to_string()), value: "x".to_string() })
    );
    assert_eq!(OptionArg::from_argument(&pos), None);
}

#[test]
fn find_all_collects_matching_entries() {
    let args = Args::parse(&toks(&["testing", "--some", "args", "-h", "--", "--end"])).unwrap();
    let options: Vec<OptionArg> = args.find_all();
    assert_eq!(
        options,
        vec![OptionArg { name: ArgName::Long("some".to_string()), value: "args".to_string() }]
    );
    let positionals: Vec<PositionalArg> = args.find_all();
    assert_eq!(
        positionals,
        vec![
            PositionalArg { value: "testing".to_string() },
            PositionalArg { value: "--end".to_string() },
        ]
    );
    let flags: Vec<FlagArg> = args.find_all();
    assert_eq!(flags, vec![FlagArg { name: ArgName::Short('h') }]);
}

#[test]
fn iter_all_keeps_entry_order() {
    let args = Args::parse(&toks(&["a", "--", "b", "-c"])).unwrap();
    let positionals: Vec<PositionalArg> = args.iter_all();
    assert_eq!(
        positionals,
        vec![
            PositionalArg { value: "a".to_string() },
            PositionalArg { value: "b".to_string() },
            PositionalArg { value: "-c".to_string() },
        ]
    );
}

#[test]
fn find_returns_first_match() {
    let args = Args::parse(&toks(&["--foo", "bar"])).unwrap();
    let opt: Option<OptionArg> = args.find(ArgDef::Long("foo".to_string()));
    assert_eq!(
        opt,
        Some(OptionArg { name: ArgName::Long("foo".to_string()), value: "bar".to_string() })
    );
}

#[test]
fn find_fails_on_wrong_target_shape() {
    let args = Args::parse(&toks(&["--foo", "bar"])).unwrap();
    // The first match is an option, so asking for a flag yields nothing.
    let flag: Option<FlagArg> = args.find(ArgDef::Long("foo".to_string()));
    assert_eq!(flag, None);
}

#[test]
fn find_fails_when_nothing_matches() {
    let args = Args::parse(&toks(&["--foo", "bar"])).unwrap();
    let opt: Option<OptionArg> = args.find(ArgDef::Long("baz".to_string()));
    assert_eq!(opt, None);
}

#[test]
fn has_sees_flags_and_options() {
    let args = Args::parse(&toks(&["--debug", "-v", "--out=x", "pos"])).unwrap();
    assert!(args.has(ArgDef::Long("debug".to_string())));
    assert!(args.has(ArgDef::Short('v')));
    assert!(args.has(ArgDef::Long("out".to_string())));
    assert!(args.has(ArgDef::ShortAndLong { short: 'q', long: "debug".to_string() }));
    assert!(!args.has(ArgDef::Long("pos".to_string())));
    assert!(!args.has(ArgDef::Short('x')));
}

#[test]
fn args_parse_matches_free_parse() {
    let input = toks(&["--help", "-v", "input.txt"]);
    let a = Args::parse(&input).unwrap();
    let b = argsparse::parser::parse(&input).unwrap();
    assert_eq!(a.0, b.0);
}
