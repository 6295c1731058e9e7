use clap::{Arg, SchemaError};

#[test]
fn with_name_sets_only_the_name() {
    let a = Arg::with_name("config");
    assert_eq!(a.name, "config");
    assert_eq!(a.short, None);
    assert_eq!(a.long, None);
    assert_eq!(a.help, None);
    assert!(!a.required);
    assert!(!a.takes_value);
    assert!(!a.multiple);
    assert_eq!(a.index, None);
    assert!(a.blacklist.is_none());
    assert!(a.possible_vals.is_none());
    assert!(a.requires.is_none());
    assert_eq!(a.group, None);
}

#[test]
fn new_is_the_same_as_with_name() {
    let a = Arg::new("config");
    assert_eq!(a.name, "config");
    assert_eq!(a.short, None);
    assert_eq!(a.long, None);
    assert!(!a.required);
    assert!(a.blacklist.is_none());
}

#[test]
fn short_and_long_strip_leading_dashes() {
    let a = Arg::with_name("config").short("-c").long("--config");
    assert_eq!(a.short, Some('c'));
    assert_eq!(a.long, Some("config"));
    let b = Arg::with_name("x").short("--").long("plain");
    assert_eq!(b.short, None);
    assert_eq!(b.long, Some("plain"));
    let c = Arg::with_name("x").short("xyz").long("---a-b");
    assert_eq!(c.short, Some('x'));
    assert_eq!(c.long, Some("a-b"));
}

#[test]
fn scalar_setters_set_their_field() {
    let a = Arg::with_name("in")
        .help("the input")
        .required(true)
        .takes_value(true)
        .index(3)
        .multiple(true)
        .group("io");
    assert_eq!(a.help, Some("the input"));
    assert!(a.required);
    assert!(a.takes_value);
    assert_eq!(a.index, Some(3));
    assert!(a.multiple);
    assert_eq!(a.group, Some("io"));
    assert_eq!(a.name, "in");
}

#[test]
fn list_setters_append_in_order() {
    let a = Arg::with_name("a")
        .conflicts_with("x")
        .conflicts_with_all(vec!["y", "z"])
        .mutually_excludes("x")
        .mutually_excludes_all(vec!["w"]);
    assert_eq!(a.blacklist, Some(vec!["x", "y", "z", "x", "w"]));
    let b = Arg::with_name("b").conflicts_with_all(vec!["p", "q"]);
    assert_eq!(b.blacklist, Some(vec!["p", "q"]));
    let c = Arg::with_name("c").requires_arg("m").requires_all(vec!["n", "o"]);
    assert_eq!(c.requires, Some(vec!["m", "n", "o"]));
    let d = Arg::with_name("d").requires_all(vec!["n"]).requires_arg("m");
    assert_eq!(d.requires, Some(vec!["n", "m"]));
    let e = Arg::with_name("e").possible_values(vec!["fast", "slow"]).possible_values(vec!["mid"]);
    assert_eq!(e.possible_vals, Some(vec!["fast", "slow", "mid"]));
}

#[test]
fn usage_with_short_long_and_value() {
    let a = Arg::from_usage("-i --input=[input] 'Provides an input file to the program'");
    assert_eq!(a.name, "input");
    assert_eq!(a.short, Some('i'));
    assert_eq!(a.long, Some("input"));
    assert_eq!(a.help, Some("Provides an input file to the program"));
    assert!(a.takes_value);
    assert!(!a.required);
    assert!(!a.multiple);
    assert_eq!(a.index, None);
}

#[test]
fn usage_of_a_required_positional() {
    let a = Arg::from_usage("<input> 'the input file to use'");
    assert_eq!(a.name, "input");
    assert!(a.required);
    assert!(!a.takes_value);
    assert_eq!(a.short, None);
    assert_eq!(a.long, None);
    assert_eq!(a.help, Some("the input file to use"));
}

#[test]
fn usage_of_a_multiple_flag() {
    let a = Arg::from_usage("-d --debug... 'turns on debugging information");
    assert_eq!(a.name, "debug");
    assert_eq!(a.short, Some('d'));
    assert_eq!(a.long, Some("debug"));
    assert!(a.multiple);
    assert!(!a.takes_value);
    assert_eq!(a.help, Some("turns on debugging information"));
}

#[test]
fn usage_first_name_wins_over_a_later_one() {
    let a = Arg::from_usage("[conf] --config=[c] 'a file for the configuration'");
    assert_eq!(a.name, "conf");
    assert_eq!(a.long, Some("config"));
    assert!(a.takes_value);
    assert!(!a.required);
}

#[test]
fn usage_name_after_long_replaces_the_name_taken_from_the_long() {
    let a = Arg::from_usage("--config <file>");
    assert_eq!(a.name, "file");
    assert_eq!(a.long, Some("config"));
    assert!(a.takes_value);
    assert!(a.required);
}

#[test]
fn usage_name_before_switch_makes_a_flag() {
    let a = Arg::from_usage("[debug]... -d 'Sets the debugging level'");
    assert_eq!(a.name, "debug");
    assert_eq!(a.short, Some('d'));
    assert!(!a.takes_value);
    assert!(a.multiple);
}

#[test]
fn usage_without_text_or_name_is_refused() {
    assert!(matches!(Arg::try_from_usage(""), Err(SchemaError::EmptyUsage)));
    assert!(matches!(Arg::try_from_usage("-c 'only a short'"), Err(SchemaError::UnnamedUsage)));
    assert!(matches!(Arg::try_from_usage("'only help'"), Err(SchemaError::UnnamedUsage)));
    assert!(Arg::try_from_usage("--long").is_ok());
}
