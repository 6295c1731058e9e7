use clap::{App, Arg, ArgGroup, Halt, Reason};

fn argv(items: &[&str]) -> Vec<String> {
    items.iter().map(|s| s.to_string()).collect()
}

fn basic<'a>() -> App<'a, 'a, 'a, 'a, 'a, 'a> {
    App::new("prog")
        .arg(Arg::with_name("d").short("d"))
        .arg(Arg::with_name("c").short("c").takes_value(true))
        .arg(Arg::with_name("input").required(true).index(1))
}

#[test]
fn flag_option_and_positional_are_matched() {
    let m = basic().get_matches(argv(&["prog", "-d", "-c", "a.conf", "in.txt"])).ok().unwrap();
    assert_eq!(m.occurrences_of("d"), 1);
    assert!(m.values_of("d").is_none());
    assert_eq!(m.occurrences_of("c"), 1);
    assert_eq!(m.values_of("c").unwrap(), &vec!["a.conf".to_string()]);
    assert_eq!(m.occurrences_of("input"), 1);
    assert_eq!(m.values_of("input").unwrap(), &vec!["in.txt".to_string()]);
    assert_eq!(m.value_of("input"), Some("in.txt"));
    assert!(m.subcommand_name().is_none());
}

#[test]
fn missing_required_positional_fails() {
    let r = basic().get_matches(argv(&["prog", "-d"]));
    match r {
        Err(h) => {
            assert_eq!(h.exit_code(), 1);
            match &h {
                Halt::Failure { reason, .. } => {
                    assert!(matches!(reason, Reason::MissingRequired));
                    assert_eq!(reason.message(), "One or more required arguments were not supplied");
                }
                _ => panic!("expected a failure"),
            }
        }
        Ok(_) => panic!("expected a failure"),
    }
}

#[test]
fn two_members_of_a_required_group_conflict() {
    let app = App::new("prog")
        .arg(Arg::with_name("major").long("major"))
        .arg(Arg::with_name("minor").long("minor"))
        .arg(Arg::with_name("patch").long("patch"))
        .arg_group(ArgGroup::with_name("vers").add_all(vec!["major", "minor", "patch"]).required(true));
    let r = app.get_matches(argv(&["prog", "--major", "--minor"]));
    match r {
        Err(Halt::Failure { reason, .. }) => {
            assert!(matches!(reason, Reason::Conflict { .. }));
            assert_eq!(
                reason.message(),
                "The argument --minor cannot be used with one or more of the other specified arguments"
            );
        }
        _ => panic!("expected a conflict"),
    }
}

#[test]
fn clustered_multiple_flag_counts_occurrences() {
    let app = App::new("prog").arg(Arg::with_name("v").short("v").multiple(true));
    let m = app.get_matches(argv(&["prog", "-vvv"])).ok().unwrap();
    assert_eq!(m.occurrences_of("v"), 3);
}

#[test]
fn value_outside_possible_values_fails() {
    let app = App::new("prog")
        .arg(Arg::with_name("mode").long("mode").takes_value(true).possible_values(vec!["fast", "slow"]));
    let r = app.get_matches(argv(&["prog", "--mode=medium"]));
    match r {
        Err(h) => {
            assert_eq!(h.exit_code(), 1);
            match &h {
                Halt::Failure { reason, .. } => {
                    assert_eq!(
                        reason.message(),
                        "\"medium\" isn't a valid value for --mode\n    [valid values: fast slow]"
                    );
                }
                _ => panic!("expected a failure"),
            }
        }
        Ok(_) => panic!("expected a failure"),
    }
}

#[test]
fn subcommand_gets_its_own_matches_and_usage() {
    let app = App::new("prog")
        .subcommand(App::new("config").arg(Arg::with_name("file").required(true).index(1)));
    let m = app.get_matches(argv(&["prog", "config", "app.toml"])).ok().unwrap();
    assert_eq!(m.subcommand_name(), Some("config"));
    let sub = m.subcommand_matches("config").unwrap();
    assert_eq!(sub.values_of("file").unwrap(), &vec!["app.toml".to_string()]);
    let usage = sub.usage().unwrap();
    assert!(usage.starts_with("USAGE:\n    prog config"));
    assert_eq!(usage, "USAGE:\n    prog config [FLAGS] <file> ");
    assert_eq!(m.usage().unwrap(), "USAGE:\n    prog [FLAGS] [SUBCOMMANDS]");
}
