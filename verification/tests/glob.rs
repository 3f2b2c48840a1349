use lantern::commands::glob::{glob_matches, glob_matches_tokens, parse_glob, parse_glob_pattern};

#[test]
fn glob_matches_star_spans_any_length() {
    let tokens = parse_glob_pattern("git*hub");
    assert!(glob_matches_tokens(&tokens, "GitHub"));
    assert!(glob_matches_tokens(&tokens, "git-awesome-hub"));
    assert!(!glob_matches_tokens(&tokens, "gitlab"));
}

#[test]
fn glob_matches_question_as_single_character() {
    let tokens = parse_glob_pattern("v?.json");
    assert!(glob_matches_tokens(&tokens, "v1.json"));
    assert!(glob_matches_tokens(&tokens, "vA.json"));
    assert!(!glob_matches_tokens(&tokens, "v10.json"));
}

#[test]
fn glob_honors_escape_sequences() {
    let tokens = parse_glob_pattern(r"file\?.txt");
    assert!(glob_matches_tokens(&tokens, "file?.txt"));
    assert!(!glob_matches_tokens(&tokens, "file1.txt"));
}

#[test]
fn glob_star_question_mark_and_escapes() {
    let star = parse_glob("git*hub");
    assert!(glob_matches(&star, "GitHub"));
    assert!(glob_matches(&star, "git-awesome-hub"));
    assert!(!glob_matches(&star, "gitlab"));

    let one = parse_glob("v?.json");
    assert!(glob_matches(&one, "v1.json"));
    assert!(!glob_matches(&one, "v10.json"));

    let escaped = parse_glob(r"file\?.txt");
    assert!(glob_matches(&escaped, "file?.txt"));
    assert!(!glob_matches(&escaped, "file1.txt"));
}

#[test]
fn glob_is_case_insensitive() {
    let tokens = parse_glob_pattern("*mozilla*");
    assert!(glob_matches_tokens(&tokens, "MOZILLA Developer Network"));
}

#[test]
fn glob_consecutive_stars_collapse_and_trailing_backslash_is_literal() {
    let tokens = parse_glob_pattern("a**b");
    assert_eq!(tokens.len(), 3);
    assert!(glob_matches_tokens(&tokens, "ab"));
    assert!(glob_matches_tokens(&tokens, "axxb"));
    let trailing = parse_glob_pattern("ab\\");
    assert!(glob_matches_tokens(&trailing, "ab\\"));
    assert!(!glob_matches_tokens(&trailing, "ab"));
}

#[test]
fn glob_empty_pattern_matches_only_empty_text() {
    let tokens = parse_glob_pattern("");
    assert!(glob_matches_tokens(&tokens, ""));
    assert!(!glob_matches_tokens(&tokens, "a"));
    let star = parse_glob_pattern("*");
    assert!(glob_matches_tokens(&star, ""));
    assert!(glob_matches_tokens(&star, "anything"));
}
