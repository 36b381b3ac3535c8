use shell_core::arg_parser::{is_space_char, string_from_chars, SplitArgs};

#[test]
fn test_basic_splitting() {
    let input = "echo hello world";
    let words: Vec<String> = SplitArgs::new(input).collect();
    assert_eq!(words, vec!["echo", "hello", "world"]);
}

#[test]
fn test_quotes() {
    let input = r#"echo "hello world" 'test case'"#;
    let words: Vec<String> = SplitArgs::new(input).collect();
    assert_eq!(words, vec!["echo", "hello world", "test case"]);
}

#[test]
fn test_mixed_spaces() {
    let input = "  echo   'hello   world'  \"test\"  ";
    let words: Vec<String> = SplitArgs::new(input).collect();
    assert_eq!(words, vec!["echo", "hello   world", "test"]);
}

#[test]
fn test_nested_quotes() {
    let input = r#"echo "it's a test" 'Rust "rocks"'"#;
    let words: Vec<String> = SplitArgs::new(input).collect();
    assert_eq!(words, vec!["echo", "it's a test", r#"Rust "rocks""#]);
}

#[test]
fn test_empty_input() {
    let input = "    ";
    let words: Vec<String> = SplitArgs::new(input).collect();
    assert_eq!(words, Vec::<String>::new());
}

#[test]
fn test_no_quotes() {
    let input = "ls -l /home/user";
    let words: Vec<String> = SplitArgs::new(input).collect();
    assert_eq!(words, vec!["ls", "-l", "/home/user"]);
}

#[test]
fn test_backslash_in_double_quotes() {
    let input = r#"echo "Hello \"world\" Backslash \\ test""#;
    let words: Vec<String> = SplitArgs::new(input).collect();
    assert_eq!(words, vec!["echo", "Hello \"world\" Backslash \\ test"]);
}

#[test]
fn test_backslash_outside_quotes() {
    let input = r#"echo \hello world"#;
    let words: Vec<String> = SplitArgs::new(input).collect();
    assert_eq!(words, vec!["echo", "hello", "world"]);
}

#[test]
fn test_escape_quotes_inside_quotes() {
    let input = r#"echo \"test\""#;
    let words: Vec<String> = SplitArgs::new(input).collect();
    assert_eq!(words, vec!["echo", "\"test\""]);
}

#[test]
fn test_mixed_escaped_and_unescaped_quotes() {
    let input = r#"echo "hello\"world""#;
    let words: Vec<String> = SplitArgs::new(input).collect();
    assert_eq!(words, vec!["echo", "hello\"world"]);
}

fn words(input: &str) -> Vec<String> {
    SplitArgs::new(input).collect()
}

#[test]
fn whitespace_only_lines_have_no_words() {
    assert_eq!(words(""), Vec::<String>::new());
    assert_eq!(words(" \t \n "), Vec::<String>::new());
    assert_eq!(words("\u{a0}\u{3000}"), Vec::<String>::new());
}

#[test]
fn quoted_words_keep_inner_spaces() {
    assert_eq!(words(r#""a b" 'c d' e"#), vec!["a b", "c d", "e"]);
}

#[test]
fn escaped_quotes_outside_quotes_are_literal() {
    assert_eq!(words(r#"\"test\""#), vec!["\"test\""]);
}

#[test]
fn double_quote_escape_set() {
    assert_eq!(words(r#""a\"b\\c""#), vec!["a\"b\\c"]);
    assert_eq!(words(r#""a\nb""#), vec!["a\\nb"]);
}

#[test]
fn backslash_in_single_quotes_is_literal() {
    assert_eq!(words(r#"'a\"b'"#), vec!["a\\\"b"]);
}

#[test]
fn escaped_space_joins_words() {
    assert_eq!(words(r#"a\ b c"#), vec!["a b", "c"]);
}

#[test]
fn trailing_backslash_is_dropped() {
    assert_eq!(words("ab\\"), vec!["ab"]);
}

#[test]
fn redirection_operators_split_words() {
    assert_eq!(words("echo hi > out.txt"), vec!["echo", "hi", ">", "out.txt"]);
    assert_eq!(words("echo hi>out.txt"), vec!["echo", "hi", ">", "out.txt"]);
    assert_eq!(words("ls 2>>err 1>out"), vec!["ls", "2>>", "err", "1>", "out"]);
    assert_eq!(words("a>>b"), vec!["a", ">>", "b"]);
    assert_eq!(words("x2>y"), vec!["x", "2>", "y"]);
}

#[test]
fn quoted_operator_is_a_plain_word() {
    assert_eq!(words("echo 'a>b'"), vec!["echo", "a>b"]);
}

#[test]
fn empty_quotes_yield_no_word() {
    assert_eq!(words("echo '' x"), vec!["echo", "x"]);
}

#[test]
fn next_hands_out_words_one_by_one() {
    let mut it = SplitArgs::new("  one two ");
    assert_eq!(it.next(), Some("one".to_string()));
    assert_eq!(it.next(), Some("two".to_string()));
    assert_eq!(it.next(), None);
    assert_eq!(it.next(), None);
}

#[test]
fn whitespace_test_matches_std() {
    for c in [' ', '\t', '\n', '\r', '\u{b}', '\u{c}', '\u{85}', '\u{a0}', '\u{2003}', '\u{3000}', 'a', '>', '\u{200b}'] {
        assert_eq!(is_space_char(c), c.is_whitespace());
    }
}

#[test]
fn text_from_characters() {
    assert_eq!(string_from_chars(&vec!['h', 'é', '!']), "hé!");
    assert_eq!(string_from_chars(&Vec::new()), "");
}

#[test]
fn non_ascii_words() {
    assert_eq!(words("héllo 'wörld x'"), vec!["héllo", "wörld x"]);
}

#[test]
fn tokens_report_their_kind() {
    let mut it = SplitArgs::new(r#"a '>' \>> ">>" 2>> b"#);
    assert_eq!(it.next_token(), Some(("a".to_string(), false)));
    assert_eq!(it.next_token(), Some((">".to_string(), false)));
    assert_eq!(it.next_token(), Some((">".to_string(), false)));
    assert_eq!(it.next_token(), Some((">".to_string(), true)));
    assert_eq!(it.next_token(), Some((">>".to_string(), false)));
    assert_eq!(it.next_token(), Some(("2>>".to_string(), true)));
    assert_eq!(it.next_token(), Some(("b".to_string(), false)));
    assert_eq!(it.next_token(), None);
}
