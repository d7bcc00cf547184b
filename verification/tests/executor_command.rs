use aster::executor::command::{parse_command, quote_argument, quote_command_argument, ParsedCommand};

#[test]
fn parses_quoted_arguments_and_environment() {
    assert_eq!(
        parse_command("MODE='hello world' tool --name \"two words\"").unwrap(),
        ParsedCommand {
            program: "tool".to_string(),
            args: vec!["--name".to_string(), "two words".to_string()],
            env: vec![("MODE".to_string(), "hello world".to_string())],
        }
    );
}

#[test]
fn rejects_invalid_quoting() {
    let error = parse_command("tool 'unfinished").unwrap_err();
    assert!(error.to_string().contains("invalid command quoting"));
}

#[test]
fn rejects_environment_without_program() {
    let error = parse_command("MODE=test").unwrap_err();
    assert!(error.to_string().contains("only environment variables"));
}

#[test]
fn quotes_round_trip() {
    let value = "tests/a file's name.py";
    let command = format!("tool {}", quote_argument(value));
    let parsed = parse_command(&command).unwrap();
    assert_eq!(parsed.args, vec![value]);
}

#[test]
fn every_argument_is_read_back() {
    for value in ["", "plain", "two words", "it's", "\"q\"", "a\\b", "A=b", "#x", "line\nend", "'\n'"] {
        let parsed = parse_command(&format!("tool {}", quote_command_argument(value))).unwrap();
        assert_eq!(parsed.program, "tool");
        assert_eq!(parsed.args, vec![value]);
        assert!(parsed.env.is_empty());
    }
    let parsed = parse_command("tool").unwrap();
    assert_eq!(parsed.program, "tool");
    assert!(parsed.args.is_empty());
}
