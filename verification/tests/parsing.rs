use clap::{App, Arg, ArgGroup, ArgMatches, Halt, Reason, SubCommand};

fn argv(items: &[&str]) -> Vec<String> {
    items.iter().map(|s| s.to_string()).collect()
}

fn reason(r: Result<ArgMatches, Halt>) -> Reason {
    match r {
        Err(Halt::Failure { reason, .. }) => reason,
        Err(_) => panic!("expected a failure, got a message"),
        Ok(_) => panic!("expected a failure, got matches"),
    }
}

fn entries(m: &ArgMatches) -> Vec<(String, u32, Option<Vec<String>>)> {
    m.args.iter().map(|e| (e.name.to_string(), e.occurrences, e.values.clone())).collect()
}

fn pair<'a>() -> App<'a, 'a, 'a, 'a, 'a, 'a> {
    App::new("prog")
        .arg(Arg::with_name("a").short("a").long("alpha").conflicts_with("b"))
        .arg(Arg::with_name("b").short("b").long("beta"))
}

#[test]
fn a_conflict_fails_in_either_order() {
    let first = reason(pair().get_matches(argv(&["prog", "-a", "-b"])));
    assert!(matches!(first, Reason::Conflict { .. }));
    assert_eq!(
        first.message(),
        "The argument -b cannot be used with one or more of the other specified arguments"
    );
    let second = reason(pair().get_matches(argv(&["prog", "-b", "-a"])));
    assert!(matches!(second, Reason::Conflict { .. }));
    assert_eq!(
        second.message(),
        "The argument --beta cannot be used with one or more of the other specified arguments"
    );
    assert!(pair().get_matches(argv(&["prog", "-a"])).is_ok());
    assert!(pair().get_matches(argv(&["prog", "-b"])).is_ok());
}

#[test]
fn a_conflict_with_an_option_or_a_positional_fails_in_either_order() {
    let app = || {
        App::new("prog")
            .arg(Arg::with_name("f").short("f").conflicts_with_all(vec!["o", "p"]))
            .arg(Arg::with_name("o").short("o").takes_value(true))
            .arg(Arg::with_name("p").index(1))
    };
    let r = reason(app().get_matches(argv(&["prog", "-o", "v", "-f"])));
    assert_eq!(
        r.message(),
        "The argument -o <o> cannot be used with one or more of the other specified arguments"
    );
    let r = reason(app().get_matches(argv(&["prog", "-f", "-o", "v"])));
    assert_eq!(
        r.message(),
        "The argument -o cannot be used with one or more of the other specified arguments"
    );
    let r = reason(app().get_matches(argv(&["prog", "val", "-f"])));
    assert_eq!(
        r.message(),
        "The argument [p] cannot be used with one or more of the other specified arguments"
    );
    let r = reason(app().get_matches(argv(&["prog", "-f", "val"])));
    assert_eq!(
        r.message(),
        "The argument [p] cannot be used with one or more of the other specified arguments"
    );
}

fn grouped<'a>(required: bool) -> App<'a, 'a, 'a, 'a, 'a, 'a> {
    App::new("prog")
        .arg(Arg::with_name("x").short("x"))
        .arg(Arg::with_name("y").short("y"))
        .arg(Arg::with_name("z").short("z"))
        .arg(Arg::with_name("w").short("w"))
        .arg_group(ArgGroup::with_name("g").add_all(vec!["x", "y", "z"]).required(required))
}

#[test]
fn any_two_members_of_a_group_fail_and_one_succeeds() {
    for two in [["-x", "-y"], ["-y", "-x"], ["-x", "-z"], ["-z", "-x"], ["-y", "-z"], ["-z", "-y"]] {
        let r = reason(grouped(false).get_matches(argv(&["prog", two[0], two[1]])));
        assert!(matches!(r, Reason::Conflict { .. }));
    }
    for one in ["-x", "-y", "-z"] {
        let m = grouped(false).get_matches(argv(&["prog", one, "-w"])).ok().unwrap();
        assert_eq!(m.args.len(), 2);
    }
    assert!(grouped(false).get_matches(argv(&["prog"])).is_ok());
}

#[test]
fn a_required_group_needs_exactly_one_member() {
    let none = reason(grouped(true).get_matches(argv(&["prog"])));
    assert!(matches!(none, Reason::MissingRequired));
    let other = reason(grouped(true).get_matches(argv(&["prog", "-w"])));
    assert!(matches!(other, Reason::MissingRequired));
    for one in ["-x", "-y", "-z"] {
        assert!(grouped(true).get_matches(argv(&["prog", one])).is_ok());
    }
    let two = reason(grouped(true).get_matches(argv(&["prog", "-x", "-z"])));
    assert!(matches!(two, Reason::Conflict { .. }));
}

#[test]
fn what_a_group_requires_and_conflicts_with_holds_for_its_members() {
    let app = || {
        App::new("prog")
            .arg(Arg::with_name("x").short("x"))
            .arg(Arg::with_name("r").short("r"))
            .arg(Arg::with_name("c").short("c"))
            .arg_group(ArgGroup::with_name("g").add("x").requires_arg("r").conflicts_with("c"))
    };
    assert!(app().get_matches(argv(&["prog", "-c"])).is_ok());
    assert!(matches!(reason(app().get_matches(argv(&["prog", "-x"]))), Reason::MissingRequired));
    assert!(app().get_matches(argv(&["prog", "-x", "-r"])).is_ok());
    assert!(matches!(
        reason(app().get_matches(argv(&["prog", "-x", "-r", "-c"]))),
        Reason::Conflict { .. }
    ));
    assert!(matches!(
        reason(app().get_matches(argv(&["prog", "-c", "-r", "-x"]))),
        Reason::Conflict { .. }
    ));
}

fn with_option<'a>() -> App<'a, 'a, 'a, 'a, 'a, 'a> {
    App::new("prog")
        .arg(Arg::with_name("opt").long("opt").short("o").takes_value(true))
        .arg(Arg::with_name("many").long("many").short("m").takes_value(true).multiple(true))
        .arg(Arg::with_name("flag").long("flag").short("f"))
}

#[test]
fn separate_and_inline_values_give_the_same_entries() {
    let a = with_option().get_matches(argv(&["prog", "--opt", "val"])).ok().unwrap();
    let b = with_option().get_matches(argv(&["prog", "--opt=val"])).ok().unwrap();
    assert_eq!(entries(&a), entries(&b));
    assert_eq!(entries(&a), vec![("opt".to_string(), 1, Some(vec!["val".to_string()]))]);
    let a = with_option().get_matches(argv(&["prog", "--many", "x", "--many", "y"])).ok().unwrap();
    let b = with_option().get_matches(argv(&["prog", "--many=x", "--many=y"])).ok().unwrap();
    let c = with_option().get_matches(argv(&["prog", "--many=x", "-m", "y"])).ok().unwrap();
    assert_eq!(entries(&a), entries(&b));
    assert_eq!(entries(&a), entries(&c));
    assert_eq!(
        entries(&a),
        vec![("many".to_string(), 2, Some(vec!["x".to_string(), "y".to_string()]))]
    );
}

#[test]
fn an_empty_inline_value_fails() {
    let r = reason(with_option().get_matches(argv(&["prog", "--opt="])));
    assert!(matches!(r, Reason::EmptyValue { .. }));
    assert_eq!(r.message(), "Argument --opt requires a value, but none was supplied");
}

#[test]
fn an_inline_value_ends_at_a_second_equals_sign() {
    let m = with_option().get_matches(argv(&["prog", "--opt=a=b"])).ok().unwrap();
    assert_eq!(m.value_of("opt"), Some("a"));
}

#[test]
fn an_option_takes_the_next_token_whatever_it_looks_like() {
    let m = with_option().get_matches(argv(&["prog", "--opt", "--flag"])).ok().unwrap();
    assert_eq!(m.value_of("opt"), Some("--flag"));
    assert!(!m.is_present("flag"));
    let m = with_option().get_matches(argv(&["prog", "-o", "--"])).ok().unwrap();
    assert_eq!(m.value_of("opt"), Some("--"));
}

#[test]
fn an_option_without_its_value_fails() {
    let r = reason(with_option().get_matches(argv(&["prog", "--opt"])));
    assert!(matches!(r, Reason::MissingValue { .. }));
    assert_eq!(r.message(), "Argument \"opt\" requires a value but none was supplied");
    let r = reason(with_option().get_matches(argv(&["prog", "-f", "-o"])));
    assert_eq!(r.message(), "Argument \"opt\" requires a value but none was supplied");
}

#[test]
fn an_argument_that_may_occur_once_cannot_be_repeated() {
    let r = reason(with_option().get_matches(argv(&["prog", "--opt", "a", "--opt", "b"])));
    assert!(matches!(r, Reason::Repeated { .. }));
    assert_eq!(
        r.message(),
        "Argument --opt was supplied more than once, but does not support multiple values"
    );
    let r = reason(with_option().get_matches(argv(&["prog", "-o", "a", "-o", "b"])));
    assert_eq!(
        r.message(),
        "Argument -o was supplied more than once, but does not support multiple values"
    );
    let r = reason(with_option().get_matches(argv(&["prog", "-f", "--flag"])));
    assert_eq!(
        r.message(),
        "Argument --flag was supplied more than once, but does not support multiple values"
    );
    let r = reason(with_option().get_matches(argv(&["prog", "-ff"])));
    assert_eq!(
        r.message(),
        "Argument -f was supplied more than once, but does not support multiple values"
    );
}

#[test]
fn unknown_arguments_fail() {
    let r = reason(with_option().get_matches(argv(&["prog", "--nope"])));
    assert!(matches!(r, Reason::UnknownLong { .. }));
    assert_eq!(r.message(), "Argument --nope isn't valid");
    let r = reason(with_option().get_matches(argv(&["prog", "-x"])));
    assert!(matches!(r, Reason::UnknownShort { .. }));
    assert_eq!(r.message(), "Argument -x isn't valid");
    let r = reason(with_option().get_matches(argv(&["prog", "-fx"])));
    assert_eq!(r.message(), "Argument -fx isn't valid");
    let r = reason(with_option().get_matches(argv(&["prog", "word"])));
    assert!(matches!(r, Reason::UnknownArgument { .. }));
    assert_eq!(r.message(), "Argument \"word\" isn't a valid option for prog");
    let one = App::new("prog").arg(Arg::with_name("p"));
    let r = reason(one.get_matches(argv(&["/usr/bin/prog", "a", "b"])));
    assert_eq!(r.message(), "Argument \"b\" isn't a valid argument for prog");
}

fn flags<'a>() -> App<'a, 'a, 'a, 'a, 'a, 'a> {
    App::new("prog")
        .arg(Arg::with_name("a").short("a"))
        .arg(Arg::with_name("b").short("b").multiple(true))
        .arg(Arg::with_name("c").short("c"))
        .arg(Arg::with_name("o").short("o").takes_value(true))
}

#[test]
fn a_cluster_is_the_same_as_its_flags_written_apart() {
    let a = flags().get_matches(argv(&["prog", "-abc"])).ok().unwrap();
    let b = flags().get_matches(argv(&["prog", "-a", "-b", "-c"])).ok().unwrap();
    assert_eq!(entries(&a), entries(&b));
    assert_eq!(
        entries(&a),
        vec![("a".to_string(), 1, None), ("b".to_string(), 1, None), ("c".to_string(), 1, None)]
    );
    let a = flags().get_matches(argv(&["prog", "-bab"])).ok().unwrap();
    let b = flags().get_matches(argv(&["prog", "-b", "-a", "-b"])).ok().unwrap();
    assert_eq!(entries(&a), entries(&b));
    assert_eq!(a.occurrences_of("b"), 2);
}

#[test]
fn a_cluster_with_an_option_fails() {
    let r = reason(flags().get_matches(argv(&["prog", "-aoc"])));
    assert!(matches!(r, Reason::UnknownShort { .. }));
    assert_eq!(r.message(), "Argument -aoc isn't valid");
    let r = reason(flags().get_matches(argv(&["prog", "-oa"])));
    assert_eq!(r.message(), "Argument -oa isn't valid");
    assert!(flags().get_matches(argv(&["prog", "-a", "-o", "c"])).is_ok());
}

fn rest<'a>() -> App<'a, 'a, 'a, 'a, 'a, 'a> {
    App::new("prog")
        .arg(Arg::with_name("v").short("v").long("verbose"))
        .arg(Arg::with_name("first").index(1))
        .arg(Arg::with_name("rest").index(2).multiple(true))
}

#[test]
fn tokens_after_the_end_of_options_are_positionals() {
    let m = rest().get_matches(argv(&["prog", "--", "-v", "--verbose", "--", "x"])).ok().unwrap();
    assert!(!m.is_present("v"));
    assert_eq!(m.value_of("first"), Some("-v"));
    assert_eq!(
        m.values_of("rest").unwrap(),
        &vec!["--verbose".to_string(), "--".to_string(), "x".to_string()]
    );
    let m = rest().get_matches(argv(&["prog", "-v", "--", "-v"])).ok().unwrap();
    assert_eq!(m.occurrences_of("v"), 1);
    assert_eq!(m.value_of("first"), Some("-v"));
}

#[test]
fn a_lone_dash_is_a_positional() {
    let m = rest().get_matches(argv(&["prog", "-"])).ok().unwrap();
    assert_eq!(m.value_of("first"), Some("-"));
}

#[test]
fn a_multiple_positional_collects_all_that_follows() {
    let m = rest().get_matches(argv(&["prog", "a", "b", "-v", "c", "d"])).ok().unwrap();
    assert_eq!(m.value_of("first"), Some("a"));
    assert_eq!(m.occurrences_of("first"), 1);
    assert_eq!(
        m.values_of("rest").unwrap(),
        &vec!["b".to_string(), "c".to_string(), "d".to_string()]
    );
    assert_eq!(m.occurrences_of("rest"), 3);
    assert_eq!(m.value_of("rest"), Some("b"));
    assert!(m.is_present("v"));
}

#[test]
fn help_comes_before_the_check_of_what_is_required() {
    let app = || {
        App::new("prog")
            .arg(Arg::with_name("d").short("d"))
            .arg(Arg::with_name("input").required(true).index(1))
    };
    for args in [vec!["prog", "--help"], vec!["prog", "-d", "--help"], vec!["prog", "-h"], vec!["prog", "-dh"]] {
        match app().get_matches(argv(&args)) {
            Err(h) => {
                assert!(matches!(h, Halt::Help(_)));
                assert_eq!(h.exit_code(), 0);
            }
            Ok(_) => panic!("expected the help message"),
        }
    }
    match app().get_matches(argv(&["prog", "-d", "--nope", "--help"])) {
        Err(h) => assert_eq!(h.exit_code(), 1),
        Ok(_) => panic!("expected a failure"),
    }
    match app().get_matches(argv(&["prog", "--", "--help"])) {
        Ok(m) => assert_eq!(m.value_of("input"), Some("--help")),
        Err(_) => panic!("expected matches"),
    }
}

#[test]
fn version_is_asked_for_by_its_flags() {
    let app = || App::new("prog").version("1.2.3").arg(Arg::with_name("input").required(true));
    for args in [vec!["/bin/prog", "--version"], vec!["/bin/prog", "-v"]] {
        match app().get_matches(argv(&args)) {
            Err(h) => {
                assert!(matches!(h, Halt::Version(_)));
                assert_eq!(h.exit_code(), 0);
                assert_eq!(h.output(), "prog 1.2.3\n");
            }
            Ok(_) => panic!("expected the version message"),
        }
    }
}

#[test]
fn a_command_can_take_the_automatic_forms_for_itself() {
    let app = || {
        App::new("prog")
            .arg(Arg::with_name("host").short("h").takes_value(true))
            .arg(Arg::with_name("verbose").short("v").multiple(true))
            .arg(Arg::with_name("helpme").long("help"))
            .arg(Arg::with_name("ver").long("version"))
    };
    let m = app().get_matches(argv(&["prog", "-h", "example.org", "-vv", "--help", "--version"])).ok().unwrap();
    assert_eq!(m.value_of("host"), Some("example.org"));
    assert_eq!(m.occurrences_of("verbose"), 2);
    assert!(m.is_present("helpme"));
    assert!(m.is_present("ver"));
    assert_eq!(m.usage(), Some("USAGE:\n    prog [FLAGS] [OPTIONS]"));
}

#[test]
fn the_automatic_help_subcommand() {
    let app = || App::new("prog").subcommand(SubCommand::new("run"));
    match app().get_matches(argv(&["prog", "help"])) {
        Err(h) => assert!(matches!(h, Halt::Help(_))),
        Ok(_) => panic!("expected the help message"),
    }
    let own = App::new("prog").subcommand(SubCommand::new("help").arg(Arg::with_name("topic")));
    let m = own.get_matches(argv(&["prog", "help", "me"])).ok().unwrap();
    assert_eq!(m.subcommand_name(), Some("help"));
    assert_eq!(m.subcommand_matches("help").unwrap().value_of("topic"), Some("me"));
    let none = App::new("prog").arg(Arg::with_name("word"));
    let m = none.get_matches(argv(&["prog", "help"])).ok().unwrap();
    assert_eq!(m.value_of("word"), Some("help"));
}

#[test]
fn what_an_argument_requires_becomes_required() {
    let app = || {
        App::new("prog")
            .arg(Arg::with_name("a").short("a").requires_arg("b"))
            .arg(Arg::with_name("b").short("b"))
    };
    assert!(app().get_matches(argv(&["prog"])).is_ok());
    assert!(app().get_matches(argv(&["prog", "-b"])).is_ok());
    assert!(matches!(reason(app().get_matches(argv(&["prog", "-a"]))), Reason::MissingRequired));
    assert!(app().get_matches(argv(&["prog", "-a", "-b"])).is_ok());
    assert!(app().get_matches(argv(&["prog", "-b", "-a"])).is_ok());
}

#[test]
fn a_matched_conflict_lifts_a_requirement() {
    let app = || {
        App::new("prog")
            .arg(Arg::with_name("cfg").short("c").takes_value(true).required(true).conflicts_with("d"))
            .arg(Arg::with_name("d").short("d"))
            .arg(Arg::with_name("e").short("e"))
    };
    assert!(matches!(reason(app().get_matches(argv(&["prog"]))), Reason::MissingRequired));
    assert!(matches!(reason(app().get_matches(argv(&["prog", "-e"]))), Reason::MissingRequired));
    assert!(app().get_matches(argv(&["prog", "-c", "x"])).is_ok());
    assert!(app().get_matches(argv(&["prog", "-d"])).is_ok());
    assert!(app().get_matches(argv(&["prog", "-d", "-c", "x"])).is_err());
}

#[test]
fn each_required_name_is_judged_by_itself() {
    let app = || {
        App::new("prog")
            .arg(Arg::with_name("one").short("o").takes_value(true).required(true).conflicts_with("d"))
            .arg(Arg::with_name("two").short("t").takes_value(true).required(true))
            .arg(Arg::with_name("d").short("d"))
    };
    assert!(matches!(reason(app().get_matches(argv(&["prog", "-d"]))), Reason::MissingRequired));
    assert!(app().get_matches(argv(&["prog", "-d", "-t", "x"])).is_ok());
}

#[test]
fn possible_values_restrict_options_and_positionals() {
    let app = || {
        App::new("prog")
            .arg(Arg::with_name("mode").short("m").long("mode").takes_value(true).possible_values(vec!["slow", "fast"]))
            .arg(Arg::with_name("kind").index(1).possible_values(vec!["b", "a"]))
    };
    let m = app().get_matches(argv(&["prog", "--mode", "fast", "a"])).ok().unwrap();
    assert_eq!(m.value_of("mode"), Some("fast"));
    assert_eq!(m.value_of("kind"), Some("a"));
    let r = reason(app().get_matches(argv(&["prog", "--mode", "medium"])));
    assert!(matches!(r, Reason::InvalidValue { .. }));
    assert_eq!(r.message(), "\"medium\" isn't a valid value for --mode\n    [valid values: fast slow]");
    let r = reason(app().get_matches(argv(&["prog", "-m", "medium"])));
    assert_eq!(r.message(), "\"medium\" isn't a valid value for --mode\n    [valid values: fast slow]");
    let r = reason(app().get_matches(argv(&["prog", "c"])));
    assert_eq!(r.message(), "\"c\" isn't a valid value for [kind]\n\t[valid values: a b]");
}

#[test]
fn subcommands_nest_and_qualify_their_names() {
    let app = App::new("git").subcommand(
        SubCommand::new("remote")
            .arg(Arg::with_name("verbose").short("v"))
            .subcommand(SubCommand::new("add").arg(Arg::with_name("name").required(true)).arg(Arg::with_name("url"))),
    );
    let m = app.get_matches(argv(&["/usr/bin/git", "remote", "-v", "add", "origin", "u"])).ok().unwrap();
    assert_eq!(m.subcommand_name(), Some("remote"));
    assert!(m.args.is_empty());
    let remote = m.subcommand_matches("remote").unwrap();
    assert!(remote.is_present("verbose"));
    assert_eq!(remote.usage(), Some("USAGE:\n    git remote [FLAGS] [SUBCOMMANDS]"));
    let add = remote.subcommand_matches("add").unwrap();
    assert_eq!(add.value_of("name"), Some("origin"));
    assert_eq!(add.value_of("url"), Some("u"));
    assert_eq!(add.usage(), Some("USAGE:\n    git remote add [FLAGS] [POSITIONAL] <name> "));
    assert!(add.subcommand_name().is_none());
}

#[test]
fn the_command_is_judged_before_its_subcommand() {
    let app = || {
        App::new("prog")
            .arg(Arg::with_name("must").short("m").takes_value(true).required(true))
            .subcommand(SubCommand::new("run").arg(Arg::with_name("x").required(true)))
    };
    let r = app().get_matches(argv(&["prog", "run"]));
    match r {
        Err(Halt::Failure { reason, usage }) => {
            assert!(matches!(reason, Reason::MissingRequired));
            assert_eq!(usage, "USAGE:\n    prog [FLAGS] -m <must>  [SUBCOMMANDS]");
        }
        _ => panic!("expected a failure"),
    }
    let r = app().get_matches(argv(&["prog", "-m", "1", "run"]));
    match r {
        Err(Halt::Failure { reason, usage }) => {
            assert!(matches!(reason, Reason::MissingRequired));
            assert_eq!(usage, "USAGE:\n    prog run [FLAGS] <x> ");
        }
        _ => panic!("expected a failure"),
    }
}

#[test]
fn parsing_from_a_given_place_under_a_given_name() {
    let app = App::new("prog").arg(Arg::with_name("a").short("a")).arg(Arg::with_name("p"));
    let args = argv(&["skipped", "-x", "-a", "v"]);
    let m = app.get_matches_from(Some("tool".to_string()), &args, 2).ok().unwrap();
    assert!(m.is_present("a"));
    assert_eq!(m.value_of("p"), Some("v"));
    assert_eq!(m.usage(), Some("USAGE:\n    tool [FLAGS] [POSITIONAL]"));
    let none = App::new("prog").get_matches_from(None, &args, 4).ok().unwrap();
    assert!(none.args.is_empty());
    assert_eq!(none.usage(), Some("USAGE:\n    prog [FLAGS]"));
    let empty = App::new("prog").get_matches(Vec::new()).ok().unwrap();
    assert_eq!(empty.usage(), Some("USAGE:\n    prog [FLAGS]"));
}

#[test]
fn getters_of_what_was_not_matched() {
    let m = flags().get_matches(argv(&["prog", "-a"])).ok().unwrap();
    assert!(!m.is_present("b"));
    assert_eq!(m.occurrences_of("b"), 0);
    assert!(m.values_of("b").is_none());
    assert!(m.value_of("b").is_none());
    assert!(m.value_of("a").is_none());
    assert!(m.subcommand_name().is_none());
    assert!(m.subcommand_matches("x").is_none());
}
