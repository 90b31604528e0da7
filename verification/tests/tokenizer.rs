use epithet::tokenize_string;

fn strs(v: &[&str]) -> Vec<String> {
    v.iter().map(|s| s.to_string()).collect()
}

#[test]
fn quoted_group_is_one_token() {
    assert_eq!(tokenize_string("echo \"Hello, world!\""), strs(&["echo", "Hello, world!"]));
}

#[test]
fn unquoted_words_split() {
    assert_eq!(tokenize_string("echo Hello, world!"), strs(&["echo", "Hello,", "world!"]));
}

#[test]
fn escaped_quotes_kept_inside_quotes() {
    assert_eq!(
        tokenize_string("echo \"Hello, \\\"world!\\\"\""),
        strs(&["echo", "Hello, \"world!\""])
    );
}

#[test]
fn plain_text_splits_like_whitespace() {
    let input = "  yarn   workspace\tapp \n build ";
    let expected: Vec<String> = input.split_whitespace().map(|s| s.to_string()).collect();
    assert_eq!(tokenize_string(input), expected);
}

#[test]
fn empty_input_yields_no_tokens() {
    assert_eq!(tokenize_string(""), Vec::<String>::new());
    assert_eq!(tokenize_string("   \t  "), Vec::<String>::new());
}

#[test]
fn unterminated_quote_is_tolerated() {
    assert_eq!(tokenize_string("echo \"half done"), strs(&["echo", "half done"]));
}

#[test]
fn trailing_escape_is_tolerated() {
    assert_eq!(tokenize_string("echo x\\"), strs(&["echo", "x"]));
}

#[test]
fn escaped_space_joins_tokens() {
    assert_eq!(tokenize_string("a\\ b c"), strs(&["a b", "c"]));
}

#[test]
fn escaped_backslash_is_literal() {
    assert_eq!(tokenize_string("a\\\\b"), strs(&["a\\b"]));
}

#[test]
fn empty_quotes_yield_no_token() {
    assert_eq!(tokenize_string("\"\""), Vec::<String>::new());
}
