use crust::cli::{plan_invocation, Cli, InvocationPlan};
use crust::errors::{get_error_message, Errors};
use crust::run::{
    cd_failure_line, cd_home_failure_line, dispatch, echo_line, shell_cycle, spawn_failure_line,
    CdPlan, Directive,
};

const COMMAND_NOT_FOUND_CHOICES: [&str; 3] = [
    "Rodeo! Couldn't find that command.",
    "Hold on partner, I don't recognize that command.",
    "Whoopsie, it seems that command done got away.",
];

#[test]
fn test_echo_line_joins_with_spaces() {
    let args = vec!["Hello".to_string(), "World".to_string()];
    assert_eq!(echo_line(&args), "Hello World");
    assert_eq!(echo_line(&Vec::new()), "");
    assert_eq!(echo_line(&vec!["one".to_string()]), "one");
}

#[test]
fn test_echo_writes_args_joined() {
    // `echo Hello World` prints exactly "Hello World" plus the closing
    // newline that the printing caller appends
    let ds = shell_cycle("echo Hello World");
    assert_eq!(ds.len(), 1);
    assert_eq!(
        ds[0],
        Directive::PrintLine {
            line: "Hello World".to_string()
        }
    );
}

#[test]
fn test_exit_directive() {
    let ds = shell_cycle("exit");
    assert_eq!(ds, vec![Directive::ExitShell]);
}

#[test]
fn test_alias_has_no_effect() {
    let ds = shell_cycle("alias x");
    assert_eq!(ds, vec![Directive::Nothing]);
}

#[test]
fn test_cd_no_args_goes_home() {
    let ds = shell_cycle("cd");
    assert_eq!(ds, vec![Directive::ChangeDir { plan: CdPlan::Home }]);
}

#[test]
fn test_cd_one_arg() {
    let ds = shell_cycle("cd /tmp");
    assert_eq!(
        ds,
        vec![Directive::ChangeDir {
            plan: CdPlan::To("/tmp".to_string())
        }]
    );
}

#[test]
fn test_cd_two_args_is_invalid_argument() {
    // two arguments: an invalid-argument report, and no directory change
    // is even attempted
    let ds = shell_cycle("cd a b");
    assert_eq!(
        ds,
        vec![Directive::PrintLine {
            line: "-crust: cd: too many arguments".to_string()
        }]
    );
}

#[test]
fn test_external_spawn_directive() {
    let ds = shell_cycle("ls -a -l&");
    assert_eq!(
        ds,
        vec![Directive::Spawn {
            name: "ls".to_string(),
            args: vec!["-a".to_string(), "-l".to_string()],
            background: true,
        }]
    );
}

#[test]
fn test_failed_command_does_not_stop_batch() {
    // the dispatcher hands out a directive for every command of the batch;
    // a spawn failure of the first leaves the second to run
    let ds = shell_cycle("no-such-command-zzz; echo hi");
    assert_eq!(ds.len(), 2);
    assert_eq!(
        ds[0],
        Directive::Spawn {
            name: "no-such-command-zzz".to_string(),
            args: Vec::new(),
            background: false,
        }
    );
    assert_eq!(
        ds[1],
        Directive::PrintLine {
            line: "hi".to_string()
        }
    );
}

#[test]
fn test_parse_failure_yields_one_report() {
    let ds = shell_cycle("echo 'oops");
    assert_eq!(ds.len(), 1);
    assert_eq!(
        ds[0],
        Directive::PrintLine {
            line: "command parsing failed - unexpected symbol \"'\"".to_string()
        }
    );
}

#[test]
fn test_dispatch_mirrors_shell_cycle() {
    let inputs = crust::parse::parse_input("echo a b");
    let d = dispatch(&inputs[0]);
    assert_eq!(
        d,
        Directive::PrintLine {
            line: "a b".to_string()
        }
    );
}

#[test]
fn test_spawn_failure_line_kind() {
    let line = spawn_failure_line("nosuch");
    let rest = line
        .strip_prefix("nosuch: ")
        .expect("report starts with the command name");
    assert!(COMMAND_NOT_FOUND_CHOICES.contains(&rest));
}

#[test]
fn test_cd_failure_line_kind() {
    let line = cd_failure_line("/nowhere");
    assert!(line.starts_with("-crust: cd: /nowhere: "));
}

#[test]
fn test_cd_home_failure_line() {
    assert_eq!(cd_home_failure_line(), "-crust: cd: home not set");
}

#[test]
fn test_error_message_is_from_its_kind() {
    for _ in 0..8 {
        let msg = get_error_message(Errors::CommandNotFound);
        assert!(COMMAND_NOT_FOUND_CHOICES.contains(&msg.as_str()));
    }
    let msg = get_error_message(Errors::InvalidArgument);
    assert!([
        "Uh oh, that argument won't work. Time to try a different trail.",
        "invalid argument. You need to check your input, partner.",
        "Oops! That argument is invalid. Try a different one.",
    ]
    .contains(&msg.as_str()));
}

#[test]
fn test_plan_invocation() {
    let quit = Cli {
        input_file: None,
        command: Some(String::new()),
    };
    assert_eq!(plan_invocation(&quit), InvocationPlan::Quit);

    let run = Cli {
        input_file: None,
        command: Some("echo hi".to_string()),
    };
    assert_eq!(
        plan_invocation(&run),
        InvocationPlan::RunCommand("echo hi".to_string())
    );

    let script = Cli {
        input_file: Some("setup.sh".to_string()),
        command: None,
    };
    assert_eq!(
        plan_invocation(&script),
        InvocationPlan::RunScript("setup.sh".to_string())
    );

    let interactive = Cli {
        input_file: None,
        command: None,
    };
    assert_eq!(plan_invocation(&interactive), InvocationPlan::Interactive);
}
