use kotlin_lsp::cli::{
    build_hover_subcommand, build_subcommand, effective_mode, finish_cli_args, first_positional, is_subcommand,
    parse_first_argument, parse_position_arg, parse_u32, CliArg, FirstArgument, FlagStep, Mode, ModeDecision,
    OutputFmt, ParsedCliFlags, Subcommand,
};

#[test]
fn subcommand_names() {
    for name in ["find", "refs", "hover", "index", "tokens", "tree"] {
        assert!(is_subcommand(name));
    }
    assert!(is_subcommand("sources"));
    assert!(is_subcommand("extract-sources"));
    assert!(!is_subcommand("source"));
    assert!(!is_subcommand("--find"));
}

#[test]
fn first_argument_decisions() {
    assert!(matches!(parse_first_argument(None), FirstArgument::NoSubcommand));
    assert!(matches!(parse_first_argument(Some(CliArg::Value("find".into()))), FirstArgument::Subcommand(s) if s == "find"));
    assert!(matches!(parse_first_argument(Some(CliArg::Value("x.kt".into()))), FirstArgument::NoSubcommand));
    assert!(matches!(parse_first_argument(Some(CliArg::Short('h'))), FirstArgument::PrintHelp));
    assert!(matches!(parse_first_argument(Some(CliArg::Long("version".into()))), FirstArgument::PrintVersion));
    match parse_first_argument(Some(CliArg::Long("refs".into()))) {
        FirstArgument::Error(m) => assert_eq!(m, "'refs' is a subcommand, not a flag — use `kotlin-lsp refs` (without --)"),
        other => panic!("unexpected {other:?}"),
    }
}

#[test]
fn flags_accumulate() {
    let mut p = ParsedCliFlags::new();
    assert_eq!(p.step(Some(CliArg::Long("json".into()))), FlagStep::Continue);
    assert_eq!(p.step(Some(CliArg::Long("fast".into()))), FlagStep::Continue);
    assert_eq!(p.step(Some(CliArg::Short('v'))), FlagStep::Continue);
    assert_eq!(p.step(Some(CliArg::Value("Foo".into()))), FlagStep::Continue);
    assert_eq!(p.step(Some(CliArg::Long("root".into()))), FlagStep::NeedRootValue);
    p.set_root("/tmp/w".into());
    assert_eq!(p.step(Some(CliArg::Long("bogus".into()))), FlagStep::Error("Unknown flag: --bogus".into()));
    assert_eq!(p.step(Some(CliArg::Short('q'))), FlagStep::Error("Unknown short flag: -q".into()));
    assert_eq!(p.step(None), FlagStep::Finished);
    assert_eq!(p.mode, Mode::Fast);
    assert_eq!(p.fmt, OutputFmt::Json);
    assert!(p.verbose);
    assert_eq!(p.root.as_deref(), Some("/tmp/w"));
    assert_eq!(p.positionals, vec!["Foo".to_string()]);
    let args = finish_cli_args("find", p).unwrap();
    assert!(matches!(args.subcommand, Subcommand::Find { ref name } if name == "Foo"));
}

#[test]
fn positional_and_position_arguments() {
    assert_eq!(first_positional(vec!["a".into(), "b".into()], "missing"), Ok("a".into()));
    assert_eq!(first_positional(vec![], "missing"), Err("missing".into()));
    assert_eq!(parse_position_arg(Some("42".into()), "m", "i"), Ok(42));
    assert_eq!(parse_position_arg(Some("-1".into()), "m", "i"), Err("i".into()));
    assert_eq!(parse_position_arg(Some("0".into()), "m", "i"), Err("i".into()));
    assert_eq!(parse_position_arg(Some("1".into()), "m", "i"), Ok(1));
    assert_eq!(parse_position_arg(None, "m", "i"), Err("m".into()));
    assert_eq!(parse_u32("+7"), Some(7));
    assert_eq!(parse_u32("4294967295"), Some(u32::MAX));
    assert_eq!(parse_u32("4294967296"), None);
    assert_eq!(parse_u32(""), None);
}

#[test]
fn hover_needs_file_line_and_col() {
    assert!(matches!(
        build_hover_subcommand(vec!["F.kt".into(), "3".into(), "9".into()]),
        Ok(Subcommand::Hover { ref file, line: 3, col: 9 }) if file == "F.kt"
    ));
    assert_eq!(build_hover_subcommand(vec![]).unwrap_err(), "hover requires FILE LINE COL arguments");
    assert_eq!(build_hover_subcommand(vec!["F.kt".into()]).unwrap_err(), "hover requires LINE argument");
    assert_eq!(build_hover_subcommand(vec!["F.kt".into(), "x".into()]).unwrap_err(), "LINE must be a positive integer");
    assert_eq!(build_hover_subcommand(vec!["F.kt".into(), "1".into()]).unwrap_err(), "hover requires COL argument");
}

#[test]
fn subcommands_take_their_arguments() {
    assert!(matches!(build_subcommand("index", vec![], false, false, false), Ok(Subcommand::Index)));
    assert!(matches!(build_subcommand("sources", vec![], false, false, false), Ok(Subcommand::Sources)));
    assert!(matches!(build_subcommand("extract-sources", vec![], false, false, false), Ok(Subcommand::ExtractSources)));
    assert_eq!(build_hover_subcommand(vec!["F.kt".into(), "0".into(), "3".into()]).unwrap_err(), "LINE must be a positive integer");
    assert!(matches!(
        build_subcommand("tokens", vec!["A.kt".into()], true, false, true),
        Ok(Subcommand::Tokens { ref file, cst_only: true, phases: false, show_tree: true }) if file == "A.kt"
    ));
    assert_eq!(build_subcommand("tree", vec![], false, false, false).unwrap_err(), "tree requires a FILE argument");
    assert_eq!(build_subcommand("refs", vec![], false, false, false).unwrap_err(), "refs requires a NAME argument");
}

#[test]
fn mode_decisions() {
    assert_eq!(effective_mode(Mode::Fast, true, "find"), ModeDecision::Run(Mode::Fast));
    assert_eq!(effective_mode(Mode::Smart, false, "find"), ModeDecision::Run(Mode::Smart));
    assert_eq!(effective_mode(Mode::Smart, true, "find"), ModeDecision::Run(Mode::Smart));
    assert_eq!(effective_mode(Mode::Auto, true, "find"), ModeDecision::Run(Mode::Smart));
    assert_eq!(effective_mode(Mode::Auto, false, "hover"), ModeDecision::Run(Mode::Smart));
    assert_eq!(effective_mode(Mode::Auto, false, "refs"), ModeDecision::FastWithoutCache);
}
