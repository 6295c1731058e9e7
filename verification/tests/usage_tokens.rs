use clap::usageparser::{split_usage, tokenize, UsageToken};

fn show(u: &str) -> Vec<String> {
    tokenize(u)
        .iter()
        .map(|t| match t {
            UsageToken::Name(n, r) => format!("Name({},{})", n, r),
            UsageToken::Short(c) => format!("Short({})", c),
            UsageToken::Long(l) => format!("Long({})", l),
            UsageToken::Help(h) => format!("Help({})", h),
            UsageToken::Multiple => format!("Multiple"),
        })
        .collect()
}

#[test]
fn tokens_of_a_full_line() {
    assert_eq!(
        show("-c --config=[file]... 'Sets the configuration'"),
        vec!["Short(c)", "Long(config)", "Name(file,false)", "Multiple", "Help(Sets the configuration)"]
    );
}

#[test]
fn tokens_of_names() {
    assert_eq!(show("<input>"), vec!["Name(input,true)"]);
    assert_eq!(show("[input]"), vec!["Name(input,false)"]);
    assert_eq!(show("<input"), vec!["Name(input,true)"]);
    assert_eq!(show("<a> [b]"), vec!["Name(a,true)", "Name(b,false)"]);
}

#[test]
fn help_runs_to_the_end_of_the_line() {
    assert_eq!(show("'it's here'"), vec!["Help(it's here)"]);
    assert_eq!(show("'no closing quote"), vec!["Help(no closing quote)"]);
    assert_eq!(show("'"), vec!["Help()"]);
    assert_eq!(show("-a 'x' -b"), vec!["Short(a)", "Help(x' -b)"]);
}

#[test]
fn long_forms_end_at_blank_equals_or_dot() {
    assert_eq!(show("--name value"), vec!["Long(name)"]);
    assert_eq!(show("--name=<v>"), vec!["Long(name)", "Name(v,true)"]);
    assert_eq!(show("--name..."), vec!["Long(name)", "Multiple"]);
    assert_eq!(show("--"), Vec::<String>::new());
    assert_eq!(show("-- x"), Vec::<String>::new());
}

#[test]
fn malformed_input_ends_the_tokens() {
    assert_eq!(show(""), Vec::<String>::new());
    assert_eq!(show("-"), Vec::<String>::new());
    assert_eq!(show("- x"), Vec::<String>::new());
    assert_eq!(show("-a .. -b"), vec!["Short(a)"]);
    assert_eq!(show("-a word -b"), vec!["Short(a)"]);
    assert_eq!(show("-a\t-b"), vec!["Short(a)", "Short(b)"]);
}

#[test]
fn usage_is_split_into_trimmed_lines() {
    assert_eq!(split_usage("a\n  b  \n\tc\r\n"), vec!["a", "b", "c"]);
    assert_eq!(split_usage(""), Vec::<&str>::new());
    assert_eq!(split_usage("one"), vec!["one"]);
    assert_eq!(split_usage("\n"), vec![""]);
    assert_eq!(split_usage("a\n\nb"), vec!["a", "", "b"]);
    assert_eq!(split_usage("   "), vec![""]);
    assert_eq!(split_usage(" x y "), vec!["x y"]);
}
