use lunar_bundler::minify::{collapse_whitespace, minify_lua, strip_comments};

#[test]
fn test_strip_line_comment() {
    assert_eq!(strip_comments("x = 1 -- this is a comment\ny = 2"), "x = 1 \ny = 2");
}

#[test]
fn test_strip_block_comment() {
    assert_eq!(strip_comments("x = 1 --[[ block\ncomment ]]\ny = 2"), "x = 1 \ny = 2");
}

#[test]
fn test_comment_not_stripped_in_string() {
    assert_eq!(strip_comments(r#"s = "-- not a comment""#), r#"s = "-- not a comment""#);
}

#[test]
fn test_long_string_preserved() {
    assert_eq!(
        strip_comments("s = [[hello -- not a comment\nworld]]"),
        "s = [[hello -- not a comment\nworld]]"
    );
}

#[test]
fn test_collapse_whitespace() {
    let input = "  hello  \n\n\nworld\n\n  ";
    assert_eq!(collapse_whitespace(input), "  hello\n\nworld\n");
}

#[test]
fn test_minify_full() {
    let input = "-- header comment\nlocal x = 1 -- inline\n\n\nlocal y = 2\n--[[ block ]]\n";
    let result = minify_lua(input);
    assert!(!result.contains("header comment"));
    assert!(!result.contains("inline"));
    assert!(!result.contains("block"));
    assert!(result.contains("local x = 1"));
    assert!(result.contains("local y = 2"));
    // No repeated blank lines
    let lines: Vec<_> = result.lines().collect();
    assert!(lines.len() <= 3);
}

#[test]
fn test_no_false_positives() {
    let input = r#"print("hello -- world")"#;
    assert_eq!(strip_comments(input), input);
}

#[test]
fn strip_single_quoted_string_with_escape() {
    assert_eq!(strip_comments("s = 'it\\'s -- x' -- c"), "s = 'it\\'s -- x' ");
}

#[test]
fn block_comment_ends_at_first_double_bracket() {
    // `--[[` opens a block comment, which runs to the first `]]`
    assert_eq!(strip_comments("a --[[ x ]] y ]]b"), "a  y ]]b");
}

#[test]
fn single_bracket_comment_is_a_line_comment() {
    assert_eq!(strip_comments("x = 1 --[x\ny = 2"), "x = 1 \ny = 2");
    assert_eq!(strip_comments("a --[==[ x ]] y\nb"), "a \nb");
}

#[test]
fn unclosed_block_comment_runs_to_the_end() {
    assert_eq!(strip_comments("x = 1 --[[ never closed"), "x = 1 ");
    assert_eq!(strip_comments("x = 1 --[[ab"), "x = 1 ");
}

#[test]
fn minify_exact_output() {
    assert_eq!(minify_lua("-- c\nlocal a = 1  \n\n\n\nreturn a -- r\n"), "local a = 1\n\nreturn a");
}

#[test]
fn collapse_whitespace_empty_input() {
    assert_eq!(collapse_whitespace(""), "");
}

#[test]
fn minify_is_idempotent_on_example() {
    let once = minify_lua("local a = 1 -- x\n\n\nlocal b = 2\n");
    assert_eq!(minify_lua(&once), once);
}
