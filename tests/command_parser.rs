use shell_core::command_parser::{parse_i32_exec, word_is, CommandParser};
use shell_core::shell_command::ShellCommandType;

#[test]
fn blank_line_gives_no_command() {
    assert!(CommandParser::parse_type("   ").is_none());
    assert!(CommandParser::parse_command(" \t ").is_none());
}

#[test]
fn builtins_are_recognised() {
    assert!(matches!(CommandParser::parse_type("pwd"), Some(ShellCommandType::Pwd)));
    assert!(matches!(CommandParser::parse_type("echo a"), Some(ShellCommandType::Echo(_))));
    assert!(matches!(CommandParser::parse_type("type ls"), Some(ShellCommandType::Type(_))));
    assert!(matches!(CommandParser::parse_type("cd /tmp"), Some(ShellCommandType::Cd(_))));
}

#[test]
fn external_command_keeps_its_name_and_arguments() {
    match CommandParser::parse_type("ls -l /tmp") {
        Some(ShellCommandType::External(name, parts)) => {
            assert_eq!(name, "ls");
            assert_eq!(parts.collect(), vec!["-l", "/tmp"]);
        }
        _ => panic!("expected an external command"),
    }
}

#[test]
fn echo_keeps_remaining_words() {
    match CommandParser::parse_type("echo a 'b c'") {
        Some(ShellCommandType::Echo(parts)) => assert_eq!(parts.collect(), vec!["a", "b c"]),
        _ => panic!("expected echo"),
    }
}

#[test]
fn exit_codes() {
    assert!(matches!(CommandParser::parse_type("exit 3"), Some(ShellCommandType::Exit(Some(3)))));
    assert!(matches!(CommandParser::parse_type("exit -7"), Some(ShellCommandType::Exit(Some(-7)))));
    assert!(matches!(CommandParser::parse_type("exit"), Some(ShellCommandType::Exit(None))));
    assert!(matches!(CommandParser::parse_type("exit x"), Some(ShellCommandType::Exit(None))));
}

#[test]
fn integer_parsing() {
    let p = |s: &str| parse_i32_exec(&s.to_string());
    assert_eq!(p("0"), Some(0));
    assert_eq!(p("+42"), Some(42));
    assert_eq!(p("-2147483648"), Some(i32::MIN));
    assert_eq!(p("2147483647"), Some(i32::MAX));
    assert_eq!(p("2147483648"), None);
    assert_eq!(p("-2147483649"), None);
    assert_eq!(p("99999999999999999999"), None);
    assert_eq!(p(""), None);
    assert_eq!(p("-"), None);
    assert_eq!(p("1a"), None);
    assert_eq!(p("+-1"), None);
}

#[test]
fn stdout_truncate_redirection() {
    let c = CommandParser::parse_command("echo hi > out.txt").unwrap();
    assert!(matches!(c.command, ShellCommandType::Echo(_)));
    assert_eq!(c.redirect_file, Some("out.txt".to_string()));
    assert!(!c.redirect_stderr);
    assert!(!c.append);
}

#[test]
fn stderr_append_redirection() {
    let c = CommandParser::parse_command("ls nope 2>> err.log").unwrap();
    assert_eq!(c.redirect_file, Some("err.log".to_string()));
    assert!(c.redirect_stderr);
    assert!(c.append);
}

#[test]
fn explicit_stdout_operators() {
    let c = CommandParser::parse_command("echo x 1>> a").unwrap();
    assert_eq!(c.redirect_file, Some("a".to_string()));
    assert!(!c.redirect_stderr);
    assert!(c.append);
    let d = CommandParser::parse_command("echo x 2> b").unwrap();
    assert!(d.redirect_stderr);
    assert!(!d.append);
}

#[test]
fn only_first_operator_counts() {
    let c = CommandParser::parse_command("echo x > a 2>> b").unwrap();
    assert_eq!(c.redirect_file, Some("a".to_string()));
    assert!(!c.redirect_stderr);
    assert!(!c.append);
}

#[test]
fn operator_without_target_means_no_redirection() {
    let c = CommandParser::parse_command("echo x >").unwrap();
    assert_eq!(c.redirect_file, None);
    let d = CommandParser::parse_command("echo x").unwrap();
    assert_eq!(d.redirect_file, None);
    assert!(!d.redirect_stderr);
    assert!(!d.append);
}

#[test]
fn classification_is_stable_across_passes() {
    let line = "type echo > out";
    let a = CommandParser::parse_type(line);
    let b = CommandParser::parse_command(line).map(|c| c.command);
    assert!(matches!(a, Some(ShellCommandType::Type(_))));
    assert!(matches!(b, Some(ShellCommandType::Type(_))));
}

#[test]
fn quoted_operator_sets_up_no_redirection() {
    let c = CommandParser::parse_command("echo '>' x").unwrap();
    assert_eq!(c.redirect_file, None);
    assert!(!c.redirect_stderr);
    assert!(!c.append);
    let d = CommandParser::parse_command(r"echo \> x").unwrap();
    assert_eq!(d.redirect_file, None);
}

#[test]
fn first_unquoted_operator_decides() {
    let c = CommandParser::parse_command("echo \"2>>\" a 2> b").unwrap();
    assert_eq!(c.redirect_file, Some("b".to_string()));
    assert!(c.redirect_stderr);
    assert!(!c.append);
}

#[test]
fn exact_word_match() {
    assert!(word_is(&"echo".to_string(), "echo"));
    assert!(!word_is(&"echo".to_string(), "ech"));
}
