use clap::{App, Arg, ArgGroup, Halt, Reason, SubCommand};

fn argv(items: &[&str]) -> Vec<String> {
    items.iter().map(|s| s.to_string()).collect()
}

fn help_of(app: App, args: &[&str]) -> String {
    match app.get_matches(argv(args)) {
        Err(Halt::Help(text)) => text,
        _ => panic!("expected the help message"),
    }
}

fn usage_of(app: App, args: &[&str]) -> String {
    match app.get_matches(argv(args)) {
        Ok(m) => m.usage().unwrap().to_string(),
        Err(Halt::Failure { usage, .. }) => usage,
        Err(_) => panic!("expected matches or a failure"),
    }
}

#[test]
fn the_help_message_of_a_full_command() {
    let app = App::new("myprog")
        .version("1.0")
        .author("Me")
        .about("Does things")
        .arg(Arg::with_name("debug").short("d").long("debug").help("Debug mode"))
        .arg(Arg::with_name("cfg").short("c").long("config").takes_value(true).help("Config"))
        .arg(Arg::with_name("input").required(true).help("Input file"))
        .subcommand(SubCommand::new("test").about("Runs tests"));
    let expected = "myprog 1.0\n\
Me\n\
Does things\n\
\n\
USAGE:\n    myprog [FLAGS] [OPTIONS] <input>  [SUBCOMMANDS]\n\
\n\
FLAGS:\n    -d, --debug      Debug mode\n    -h, --help       Prints help information\n    -v, --version    Prints version information\n\
\n\
OPTIONS:\n    -c, --config <cfg>    Config\n\
\n\
POSITIONAL ARGUMENTS:\n    input    Input file\n\
\n\
SUBCOMMANDS:\n    help    Prints this message\n    test    Runs tests\n";
    assert_eq!(help_of(app, &["/opt/bin/myprog", "--help"]), expected);
}

#[test]
fn the_help_message_aligns_and_marks_what_may_repeat() {
    let app = App::new("p")
        .after_help("See the manual.")
        .arg(Arg::with_name("x").short("x"))
        .arg(Arg::with_name("long-only").long("long-only").multiple(true).help("L"))
        .arg(Arg::with_name("o").short("o").takes_value(true).multiple(true).help("O").possible_values(vec!["b", "a"]))
        .arg(Arg::with_name("files").multiple(true).help("F"))
        .arg(Arg::with_name("help").long("help"))
        .arg(Arg::with_name("version").long("version"));
    let expected = [
        "p ",
        "",
        "USAGE:",
        "    p [FLAGS] [OPTIONS] [POSITIONAL]",
        "",
        "FLAGS:",
        "        --help             ",
        "        --long-only    L",
        "        --version          ",
        "    -x                     ",
        "",
        "OPTIONS:",
        "    -o <o>...       O [values: a b]",
        "",
        "POSITIONAL ARGUMENTS:",
        "    files...    F",
        "",
        "See the manual.",
        "",
    ]
    .join("\n");
    assert_eq!(help_of(app, &["p", "-h"]), expected);
}

#[test]
fn gaps_are_at_most_29_columns_wide() {
    let app = App::new("p");
    assert_eq!(app.get_spaces(0), "");
    assert_eq!(app.get_spaces(1), " ");
    assert_eq!(app.get_spaces(7), "       ");
    assert_eq!(app.get_spaces(28).len(), 28);
    assert_eq!(app.get_spaces(29).len(), 29);
    assert_eq!(app.get_spaces(30).len(), 29);
    assert_eq!(app.get_spaces(1000).len(), 29);
    for n in 0..29 {
        assert_eq!(app.get_spaces(n), " ".repeat(n));
    }
}

#[test]
fn the_usage_line_writes_out_what_is_required() {
    let app = || {
        App::new("prog")
            .arg(Arg::with_name("f").short("f"))
            .arg(Arg::with_name("a").short("a").takes_value(true).required(true))
            .arg(Arg::with_name("b").long("bee").takes_value(true).multiple(true))
            .arg(Arg::with_name("in").required(true))
            .arg(Arg::with_name("out"))
    };
    assert_eq!(
        usage_of(app(), &["prog", "-a", "1", "x"]),
        "USAGE:\n    prog [FLAGS] [OPTIONS] -a <a>  [POSITIONAL] <in> "
    );
    let all = App::new("prog")
        .arg(Arg::with_name("a").short("a").takes_value(true).required(true))
        .arg(Arg::with_name("in").required(true).multiple(true));
    assert_eq!(usage_of(all, &["prog"]), "USAGE:\n    prog [FLAGS] -a <a>  <in>... ");
}

#[test]
fn the_usage_line_writes_out_what_a_match_asks_for() {
    let app = || {
        App::new("prog")
            .arg(Arg::with_name("f").short("f").requires_all(vec!["o", "second"]))
            .arg(Arg::with_name("o").short("o").takes_value(true))
            .arg(Arg::with_name("first"))
            .arg(Arg::with_name("second"))
            .arg(Arg::with_name("third"))
    };
    assert_eq!(usage_of(app(), &["prog"]), "USAGE:\n    prog [FLAGS] [OPTIONS] [POSITIONAL]");
    assert_eq!(
        usage_of(app(), &["prog", "-f"]),
        "USAGE:\n    prog [FLAGS] -o <o>  [POSITIONAL] [first] [second] "
    );
}

#[test]
fn the_usage_line_lists_the_members_of_required_groups() {
    let app = App::new("prog")
        .arg(Arg::with_name("major").long("major"))
        .arg(Arg::with_name("ver").long("set-ver").takes_value(true))
        .arg(Arg::with_name("file"))
        .arg_group(ArgGroup::with_name("vers").add_all(vec!["ver", "major", "file", "ghost"]).required(true))
        .arg_group(ArgGroup::with_name("other").add("major"));
    assert_eq!(
        usage_of(app, &["prog"]),
        "USAGE:\n    prog [FLAGS] [OPTIONS] [POSITIONAL] [--set-ver <ver>|--major|[file]|ghost]"
    );
}

#[test]
fn a_usage_line_of_ones_own_replaces_the_generated_one() {
    let app = App::new("prog").usage("prog [-clDas] <some_file>").arg(Arg::with_name("f").short("f"));
    assert_eq!(usage_of(app, &["prog", "-f"]), "USAGE:\n    prog [-clDas] <some_file>");
}

#[test]
fn the_version_line_has_hyphens_for_spaces() {
    let app = App::new("git").version("2.0").subcommand(SubCommand::new("remote").version("0.1"));
    match app.get_matches(argv(&["git", "remote", "--version"])) {
        Err(Halt::Version(text)) => assert_eq!(text, "git-remote 0.1\n"),
        _ => panic!("expected the version message"),
    }
    let app = App::new("my prog");
    assert_eq!(app.version_text(), "my-prog \n");
}

#[test]
fn a_failure_shows_its_reason_the_usage_and_a_hint() {
    let app = App::new("prog").arg(Arg::with_name("f").short("f"));
    match app.get_matches(argv(&["prog", "--nope"])) {
        Err(h) => {
            assert_eq!(h.exit_code(), 1);
            assert_eq!(
                h.output(),
                "Argument --nope isn't valid\nUSAGE:\n    prog [FLAGS]\nFor more information try --help\n"
            );
        }
        Ok(_) => panic!("expected a failure"),
    }
}

#[test]
fn each_reason_has_its_sentence() {
    let s = |t: &str| t.to_string();
    assert_eq!(
        Reason::InvalidValue { value: s("v"), arg: s("--o"), valid: vec![s("a"), s("b")], positional: false }.message(),
        "\"v\" isn't a valid value for --o\n    [valid values: a b]"
    );
    assert_eq!(
        Reason::InvalidValue { value: s("v"), arg: s("<p>"), valid: vec![], positional: true }.message(),
        "\"v\" isn't a valid value for <p>\n\t[valid values:]"
    );
    assert_eq!(
        Reason::UnknownArgument { token: s("t"), bin: s("b"), no_positionals: true }.message(),
        "Argument \"t\" isn't a valid option for b"
    );
    assert_eq!(
        Reason::UnknownArgument { token: s("t"), bin: s("b"), no_positionals: false }.message(),
        "Argument \"t\" isn't a valid argument for b"
    );
    assert_eq!(
        Reason::Conflict { arg: s("-c") }.message(),
        "The argument -c cannot be used with one or more of the other specified arguments"
    );
    assert_eq!(
        Reason::MissingValue { name: s("n") }.message(),
        "Argument \"n\" requires a value but none was supplied"
    );
    assert_eq!(
        Reason::EmptyValue { long: s("l") }.message(),
        "Argument --l requires a value, but none was supplied"
    );
    assert_eq!(
        Reason::Repeated { arg: s("-r") }.message(),
        "Argument -r was supplied more than once, but does not support multiple values"
    );
    assert_eq!(Reason::UnknownLong { long: s("l") }.message(), "Argument --l isn't valid");
    assert_eq!(Reason::UnknownShort { short: s("xyz") }.message(), "Argument -xyz isn't valid");
    assert_eq!(Reason::MissingRequired.message(), "One or more required arguments were not supplied");
    assert_eq!(Halt::Help(s("h")).output(), "h");
    assert_eq!(Halt::Help(s("h")).exit_code(), 0);
    assert_eq!(Halt::Version(s("v")).output(), "v");
    assert_eq!(Halt::Version(s("v")).exit_code(), 0);
}
