use crust::parse::{parse_input, parse_line, parse_failure_line, Input};
use crust::run::Builtins;

#[test]
fn test_ls() {
    let inputs: Vec<Input> = parse_input("ls -a -l");
    assert_eq!(inputs.len(), 1);
    let input: &Input = &inputs[0];
    assert_eq!(input.command, "ls");
    assert_eq!(input.args, ["-a", "-l"]);
    assert_eq!(input.bg, false);
    assert_eq!(input.builtin, Builtins::External);
}

#[test]
fn test_bg() {
    let inputs: Vec<Input> = parse_input("ls -a -l&");
    assert_eq!(inputs.len(), 1);
    let input: &Input = &inputs[0];
    assert_eq!(input.command, "ls");
    assert_eq!(input.args, ["-a", "-l"]);
    assert_eq!(input.bg, true);
    assert_eq!(input.builtin, Builtins::External);
}

#[test]
fn test_chaining() {
    let inputs: Vec<Input> = parse_input("ls -a -l; cat README.md; cowsay Hello World");
    assert_eq!(inputs.len(), 3);
    let mut input: &Input = &inputs[0];
    assert_eq!(input.command, "ls");
    assert_eq!(input.args, ["-a", "-l"]);
    assert_eq!(input.bg, false);
    assert_eq!(input.builtin, Builtins::External);

    input = &inputs[1];
    assert_eq!(input.command, "cat");
    assert_eq!(input.args, ["README.md"]);
    assert_eq!(input.bg, false);
    assert_eq!(input.builtin, Builtins::External);

    input = &inputs[2];
    assert_eq!(input.command, "cowsay");
    assert_eq!(input.args, ["Hello", "World"]);
    assert_eq!(input.bg, false);
    assert_eq!(input.builtin, Builtins::External);
}

#[test]
fn test_empty_and_blank_lines() {
    assert_eq!(parse_input("").len(), 0);
    assert_eq!(parse_input("   \t ").len(), 0);
    assert_eq!(parse_input("; ;\n;").len(), 0);
}

#[test]
fn test_name_alone() {
    let inputs = parse_input("pwd");
    assert_eq!(inputs.len(), 1);
    assert_eq!(inputs[0].command, "pwd");
    assert_eq!(inputs[0].args.len(), 0);
    assert_eq!(inputs[0].bg, false);
}

#[test]
fn test_quoted_argument_keeps_spaces() {
    let inputs = parse_input("echo 'Hello World'");
    assert_eq!(inputs.len(), 1);
    assert_eq!(inputs[0].command, "echo");
    assert_eq!(inputs[0].args, ["Hello World"]);
    assert_eq!(inputs[0].builtin, Builtins::Echo);
}

#[test]
fn test_builtin_classification() {
    assert_eq!(parse_input("exit")[0].builtin, Builtins::Exit);
    assert_eq!(parse_input("cd /tmp")[0].builtin, Builtins::CD);
    assert_eq!(parse_input("echo hi")[0].builtin, Builtins::Echo);
    assert_eq!(parse_input("alias x")[0].builtin, Builtins::Alias);
    assert_eq!(parse_input("cat x")[0].builtin, Builtins::External);
}

#[test]
fn test_newline_separates_statements() {
    let inputs = parse_input("ls\ncat x");
    assert_eq!(inputs.len(), 2);
    assert_eq!(inputs[0].command, "ls");
    assert_eq!(inputs[1].command, "cat");
}

#[test]
fn test_unterminated_quote_fails_whole_line() {
    assert_eq!(parse_input("echo 'oops").len(), 0);
    let r = parse_line("echo 'oops");
    assert_eq!(r.err(), Some(5));
}

#[test]
fn test_background_marker_must_close_statement() {
    // a word after `&` in the same statement is malformed
    assert_eq!(parse_input("ls & cat").len(), 0);
    let r = parse_line("ls & cat");
    assert_eq!(r.err(), Some(5));
}

#[test]
fn test_background_then_next_statement() {
    let inputs = parse_input("sleep 5&; echo done");
    assert_eq!(inputs.len(), 2);
    assert_eq!(inputs[0].command, "sleep");
    assert_eq!(inputs[0].bg, true);
    assert_eq!(inputs[1].command, "echo");
    assert_eq!(inputs[1].bg, false);
}

#[test]
fn test_parse_failure_line_names_symbol() {
    let line = parse_failure_line("ls & cat", 5);
    assert_eq!(line, "command parsing failed - unexpected symbol \"c\"");
}

#[test]
fn test_reparse_of_serialized_form() {
    // serializing a parsed list (names and args joined by spaces, `; `
    // between commands) and parsing again gives an equivalent list
    let first = parse_input("ls -a -l; cowsay Hello World");
    let mut rendered = String::new();
    for (k, input) in first.iter().enumerate() {
        if k > 0 {
            rendered.push_str("; ");
        }
        rendered.push_str(&input.command);
        for a in input.args.iter() {
            rendered.push(' ');
            rendered.push_str(a);
        }
        if input.bg {
            rendered.push('&');
        }
    }
    assert_eq!(rendered, "ls -a -l; cowsay Hello World");
    let second = parse_input(&rendered);
    assert_eq!(first.len(), second.len());
    for (a, b) in first.iter().zip(second.iter()) {
        assert_eq!(a.command, b.command);
        assert_eq!(a.args, b.args);
        assert_eq!(a.bg, b.bg);
        assert_eq!(a.builtin, b.builtin);
    }
}
