use epithet::config::Execution;
use epithet::expansions::Expansion;
use epithet::expansions::lookup_expansion;
use epithet::expansions::merge_expansions;
use epithet::substitution::parse_placeholder;
use epithet::substitution::resolve_arguments;

fn strs(v: &[&str]) -> Vec<String> {
    v.iter().map(|s| s.to_string()).collect()
}

fn exp(key: &str, value: &str) -> Expansion {
    Expansion { key: key.to_string(), value: value.to_string() }
}

#[test]
fn positional_substitution_consumes_argument() {
    let e = Execution::Command(String::new());
    let out = e.get_arguments("yarn workspace {0} build", &strs(&["app"]), &[]);
    assert_eq!(out, strs(&["yarn", "workspace", "app", "build"]));
}

#[test]
fn leftover_arguments_are_appended() {
    let e = Execution::Command(String::new());
    let out = e.get_arguments("yarn test", &strs(&["--watch"]), &[]);
    assert_eq!(out, strs(&["yarn", "test", "--watch"]));
}

#[test]
fn expansion_value_is_retokenized() {
    let table = vec![exp("x", "foo bar")];
    let out = resolve_arguments(&strs(&["@x"]), &table);
    assert_eq!(out, strs(&["foo", "bar"]));
}

#[test]
fn unknown_expansion_key_stays_literal() {
    let table = vec![exp("x", "foo bar")];
    let out = resolve_arguments(&strs(&["@missing"]), &table);
    assert_eq!(out, strs(&["@missing"]));
}

#[test]
fn expansion_inside_full_substitution() {
    let e = Execution::Command(String::new());
    let table = vec![exp("x", "foo bar")];
    let out = e.get_arguments("run {0}", &strs(&["@x", "tail"]), &table);
    assert_eq!(out, strs(&["run", "foo", "bar", "tail"]));
}

#[test]
fn out_of_range_placeholder_stays_literal() {
    let e = Execution::Command(String::new());
    let out = e.get_arguments("echo {1}", &strs(&["a"]), &[]);
    assert_eq!(out, strs(&["echo", "{1}", "a"]));
}

#[test]
fn repeated_placeholder_consumes_once() {
    let e = Execution::Command(String::new());
    let out = e.get_arguments("echo {0} {0}", &strs(&["a", "b"]), &[]);
    assert_eq!(out, strs(&["echo", "a", "a", "b"]));
}

#[test]
fn malformed_placeholders_pass_through() {
    let e = Execution::Command(String::new());
    let out = e.get_arguments("echo {} {x} {0", &strs(&[]), &[]);
    assert_eq!(out, strs(&["echo", "{}", "{x}", "{0"]));
}

#[test]
fn parse_placeholder_reads_decimal_indices() {
    assert_eq!(parse_placeholder("{0}", 10), Some(0));
    assert_eq!(parse_placeholder("{7}", 10), Some(7));
    assert_eq!(parse_placeholder("{12}", 100), Some(12));
    assert_eq!(parse_placeholder("{12}", 12), None);
    assert_eq!(parse_placeholder("{-1}", 10), None);
    assert_eq!(parse_placeholder("{}", 10), None);
    assert_eq!(parse_placeholder("word", 10), None);
    assert_eq!(parse_placeholder("{99999999999999999999999999}", 10), None);
}

#[test]
fn local_expansion_overrides_global() {
    let merged = merge_expansions(&[exp("x", "global")], &[exp("x", "local")]);
    let got = lookup_expansion(&merged, "x");
    assert_eq!(got, Some("local".to_string()));
}

#[test]
fn global_expansion_survives_merge() {
    let merged = merge_expansions(&[exp("g", "kept")], &[exp("x", "local")]);
    assert_eq!(lookup_expansion(&merged, "g"), Some("kept".to_string()));
    assert_eq!(lookup_expansion(&merged, "absent"), None);
}
