use clap::{App, Arg, ArgGroup, SchemaError, SubCommand};

fn argv(items: &[&str]) -> Vec<String> {
    items.iter().map(|s| s.to_string()).collect()
}

#[test]
fn a_name_can_be_used_once() {
    let app = App::new("prog").arg(Arg::with_name("a").short("a"));
    assert_eq!(app.check_arg(&Arg::with_name("a").short("b")), Err(SchemaError::DuplicateName));
    assert_eq!(app.check_arg(&Arg::with_name("a")), Err(SchemaError::DuplicateName));
    assert_eq!(app.check_arg(&Arg::with_name("b").short("b")), Ok(()));
}

#[test]
fn a_short_can_be_used_once() {
    let app = App::new("prog").arg(Arg::with_name("a").short("x"));
    assert_eq!(app.check_arg(&Arg::with_name("b").short("x")), Err(SchemaError::DuplicateShort));
    assert_eq!(
        app.check_arg(&Arg::with_name("b").short("x").takes_value(true)),
        Err(SchemaError::DuplicateShort)
    );
    assert_eq!(app.check_arg(&Arg::with_name("b").short("y")), Ok(()));
}

#[test]
fn a_long_can_be_used_once() {
    let app = App::new("prog").arg(Arg::with_name("a").long("all").takes_value(true));
    assert_eq!(app.check_arg(&Arg::with_name("b").long("all")), Err(SchemaError::DuplicateLong));
    assert_eq!(app.check_arg(&Arg::with_name("b").long("--all")), Err(SchemaError::DuplicateLong));
    assert_eq!(app.check_arg(&Arg::with_name("b").long("any")), Ok(()));
}

#[test]
fn contradictions_are_refused() {
    let app = App::new("prog").arg(Arg::with_name("first").index(1));
    assert_eq!(
        app.check_arg(&Arg::with_name("p").index(2).short("p")),
        Err(SchemaError::PositionalWithSwitch)
    );
    assert_eq!(
        app.check_arg(&Arg::with_name("p").index(2).long("pp")),
        Err(SchemaError::PositionalWithSwitch)
    );
    assert_eq!(app.check_arg(&Arg::with_name("p").index(1)), Err(SchemaError::DuplicateIndex));
    assert_eq!(
        app.check_arg(&Arg::with_name("p").index(2).takes_value(true)),
        Err(SchemaError::PositionalTakesValue)
    );
    assert_eq!(
        app.check_arg(&Arg::with_name("p").takes_value(true)),
        Err(SchemaError::PositionalTakesValue)
    );
    assert_eq!(
        app.check_arg(&Arg::with_name("f").short("f").required(true)),
        Err(SchemaError::RequiredFlag)
    );
    assert_eq!(
        app.check_arg(&Arg::with_name("f").short("f").possible_values(vec!["a"])),
        Err(SchemaError::FlagWithValues)
    );
    assert_eq!(
        app.check_arg(&Arg::with_name("o").short("o").takes_value(true).required(true).possible_values(vec!["a"])),
        Ok(())
    );
    assert_eq!(app.check_arg(&Arg::with_name("p").index(2).required(true)), Ok(()));
}

#[test]
fn no_position_is_left_after_255_positionals() {
    let names: Vec<String> = (0..255).map(|i| format!("p{}", i)).collect();
    let mut app = App::new("prog");
    for n in names.iter() {
        assert_eq!(app.check_arg(&Arg::with_name(n)), Ok(()));
        app = app.arg(Arg::with_name(n));
    }
    assert_eq!(app.check_arg(&Arg::with_name("more")), Err(SchemaError::NoFreeIndex));
    assert_eq!(app.check_arg(&Arg::with_name("more").index(7)), Err(SchemaError::DuplicateIndex));
}

#[test]
fn try_arg_registers_or_tells_why_not() {
    let app = App::new("prog").arg(Arg::with_name("a").short("a"));
    let app = app.try_arg(Arg::with_name("b").short("b")).ok().unwrap();
    assert!(app.has_name("b"));
    assert!(app.has_short('b'));
    assert!(!app.has_long("b"));
    match app.try_arg(Arg::with_name("b")) {
        Err(e) => assert_eq!(e, SchemaError::DuplicateName),
        Ok(_) => panic!("expected a refusal"),
    }
}

#[test]
fn positionals_without_index_take_the_next_position() {
    let app = App::new("prog")
        .arg(Arg::with_name("one"))
        .arg(Arg::with_name("two"))
        .arg(Arg::with_name("three"));
    assert_eq!(app.verify_positionals(), Ok(()));
    let m = app.get_matches(argv(&["prog", "a", "b", "c"])).ok().unwrap();
    assert_eq!(m.value_of("one"), Some("a"));
    assert_eq!(m.value_of("two"), Some("b"));
    assert_eq!(m.value_of("three"), Some("c"));
}

#[test]
fn positionals_are_kept_by_index_whatever_the_order_of_registration() {
    let app = App::new("prog")
        .arg(Arg::with_name("second").index(2))
        .arg(Arg::with_name("first").index(1));
    assert_eq!(app.verify_positionals(), Ok(()));
    let m = app.get_matches(argv(&["prog", "a", "b"])).ok().unwrap();
    assert_eq!(m.value_of("first"), Some("a"));
    assert_eq!(m.value_of("second"), Some("b"));
}

#[test]
fn a_gap_in_the_positions_is_refused() {
    let app = App::new("prog")
        .arg(Arg::with_name("one").index(1))
        .arg(Arg::with_name("three").index(3));
    assert_eq!(app.verify_positionals(), Err(SchemaError::PositionalGap));
    let zero = App::new("prog").arg(Arg::with_name("zero").index(0));
    assert_eq!(zero.verify_positionals(), Err(SchemaError::PositionalGap));
    let late = App::new("prog").arg(Arg::with_name("two").index(2));
    assert_eq!(late.verify_positionals(), Err(SchemaError::PositionalGap));
    let fine = App::new("prog").arg(Arg::with_name("one").index(1)).arg(Arg::with_name("two").index(2));
    assert_eq!(fine.verify_positionals(), Ok(()));
    assert_eq!(App::new("prog").verify_positionals(), Ok(()));
}

#[test]
fn only_the_last_positional_may_collect_values() {
    let app = App::new("prog")
        .arg(Arg::with_name("many").index(1).multiple(true))
        .arg(Arg::with_name("last").index(2));
    assert_eq!(app.verify_positionals(), Err(SchemaError::MultipleNotLast));
    let fine = App::new("prog")
        .arg(Arg::with_name("first").index(1))
        .arg(Arg::with_name("many").index(2).multiple(true));
    assert_eq!(fine.verify_positionals(), Ok(()));
}

#[test]
fn the_positionals_of_subcommands_are_checked_too() {
    let app = App::new("prog").subcommand(
        SubCommand::new("outer").subcommand(SubCommand::new("inner").arg(Arg::with_name("x").index(2))),
    );
    assert_eq!(app.verify_positionals(), Err(SchemaError::PositionalGap));
}

#[test]
fn a_required_positional_makes_those_before_it_required() {
    let app = || {
        App::new("prog")
            .arg(Arg::with_name("one").index(1))
            .arg(Arg::with_name("two").index(2).required(true))
            .arg(Arg::with_name("three").index(3))
    };
    assert!(app().get_matches(argv(&["prog"])).is_err());
    assert!(app().get_matches(argv(&["prog", "a"])).is_err());
    let m = app().get_matches(argv(&["prog", "a", "b"])).ok().unwrap();
    assert_eq!(m.value_of("one"), Some("a"));
    assert_eq!(m.value_of("two"), Some("b"));
    assert!(!m.is_present("three"));
    assert_eq!(m.usage(), Some("USAGE:\n    prog [FLAGS] [POSITIONAL] <one> <two> "));
}

#[test]
fn args_registers_each_declaration() {
    let app = App::new("prog").args(vec![
        Arg::with_name("a").short("a"),
        Arg::with_name("o").short("o").takes_value(true),
        Arg::with_name("p"),
    ]);
    assert!(app.has_name("a"));
    assert!(app.has_name("o"));
    assert!(app.has_name("p"));
    assert!(!app.has_name("q"));
    let m = app.get_matches(argv(&["prog", "-a", "-o", "v", "w"])).ok().unwrap();
    assert!(m.is_present("a"));
    assert_eq!(m.value_of("o"), Some("v"));
    assert_eq!(m.value_of("p"), Some("w"));
}

#[test]
fn arguments_from_usage_lines() {
    let app = App::new("prog").args_from_usage(
        "-c --conf=[config] 'Sets a configuration file to use'
         [debug]... -d 'Sets the debugging level'
         <input> 'The input file to use'",
    );
    let m = app.get_matches(argv(&["prog", "-dd", "--conf", "x.toml", "in.txt"])).ok().unwrap();
    assert_eq!(m.occurrences_of("debug"), 2);
    assert_eq!(m.value_of("config"), Some("x.toml"));
    assert!(!m.is_present("conf"));
    assert_eq!(m.value_of("input"), Some("in.txt"));
}

#[test]
fn usage_lines_that_cannot_be_registered_are_told() {
    let twice = App::new("prog").try_args_from_usage("-a --all\n-b --all");
    assert!(matches!(twice, Err(SchemaError::DuplicateName)));
    let long = App::new("prog").try_args_from_usage("[x] -a --all\n[y] -b --all");
    assert!(matches!(long, Err(SchemaError::DuplicateLong)));
    let short = App::new("prog").try_args_from_usage("[x] -a --all\n[y] -a --any");
    assert!(matches!(short, Err(SchemaError::DuplicateShort)));
    let blank = App::new("prog").try_args_from_usage("-a --all\n\n-b --ball");
    assert!(matches!(blank, Err(SchemaError::EmptyUsage)));
    let unnamed = App::new("prog").try_arg_from_usage("-a");
    assert!(matches!(unnamed, Err(SchemaError::UnnamedUsage)));
    let fine = App::new("prog").try_args_from_usage("-a --all\n-b --ball");
    assert!(fine.is_ok());
    let one = App::new("prog").arg_from_usage("-c --conf=<config> 'Sets a configuration file to use'");
    assert!(one.has_long("conf"));
    assert!(one.has_short('c'));
    assert!(one.has_name("config"));
}

#[test]
fn a_group_joins_the_members_of_both_declarations() {
    let app = App::new("prog")
        .arg(Arg::with_name("a").short("a").group("g"))
        .arg(Arg::with_name("b").short("b"))
        .arg(Arg::with_name("c").short("c"))
        .arg_group(ArgGroup::with_name("g").add("b"));
    let both = app.get_matches(argv(&["prog", "-a", "-b"]));
    assert!(both.is_err());
    let app = App::new("prog")
        .arg(Arg::with_name("a").short("a").group("g"))
        .arg(Arg::with_name("b").short("b"))
        .arg(Arg::with_name("c").short("c"))
        .arg_group(ArgGroup::with_name("g").add("b"));
    let other = app.get_matches(argv(&["prog", "-a", "-c"]));
    assert!(other.is_ok());
}

#[test]
fn arg_groups_adds_each_group() {
    let app = || {
        App::new("prog")
            .arg(Arg::with_name("a").short("a"))
            .arg(Arg::with_name("b").short("b"))
            .arg(Arg::with_name("c").short("c"))
            .arg(Arg::with_name("d").short("d"))
            .arg_groups(vec![
                ArgGroup::with_name("ab").add_all(vec!["a", "b"]),
                ArgGroup::with_name("cd").add("c").add("d").required(true),
            ])
    };
    assert!(app().get_matches(argv(&["prog", "-a", "-c"])).is_ok());
    assert!(app().get_matches(argv(&["prog", "-a", "-b", "-c"])).is_err());
    assert!(app().get_matches(argv(&["prog", "-a"])).is_err());
    assert!(app().get_matches(argv(&["prog", "-c", "-d"])).is_err());
    assert!(app().get_matches(argv(&["prog", "-d"])).is_ok());
}

#[test]
fn group_builders_keep_sets() {
    let g = ArgGroup::with_name("g")
        .add("a")
        .add("a")
        .add_all(vec!["b", "a", "c"])
        .required(true)
        .requires_arg("r")
        .requires_all(vec!["r", "s"])
        .conflicts_with("x")
        .conflicts_with_all(vec!["y", "x"]);
    assert_eq!(g.name, "g");
    assert_eq!(g.args, vec!["a", "b", "c"]);
    assert!(g.required);
    assert_eq!(g.requires, vec!["r", "s"]);
    assert_eq!(g.conflicts, vec!["x", "y"]);
}

#[test]
fn a_later_subcommand_takes_the_place_of_one_with_its_name() {
    let app = App::new("prog")
        .subcommand(SubCommand::new("run").arg(Arg::with_name("old")))
        .subcommands(vec![SubCommand::new("build"), SubCommand::new("run").arg(Arg::with_name("new"))]);
    let m = app.get_matches(argv(&["prog", "run", "x"])).ok().unwrap();
    let sub = m.subcommand_matches("run").unwrap();
    assert_eq!(sub.value_of("new"), Some("x"));
    assert!(!sub.is_present("old"));
    assert!(m.subcommand_matches("build").is_none());
}
