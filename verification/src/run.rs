//! The execution dispatcher: decides, for each parsed command, what should
//! happen — run a builtin, or spawn an external process.  The decisions are
//! returned as `Directive` values; performing them (spawning, changing the
//! working directory, printing) is the caller's part.

use vstd::prelude::*;
use vstd::string::StrSliceExecFns;
use vstd::string::StringExecFns;

use crate::errors::Errors;
use crate::errors::error_choice;
use crate::errors::error_choice_count;
use crate::errors::get_error_message;
use crate::parse::CmdModel;
use crate::parse::Input;
use crate::parse::parse_line;
use crate::parse::parse_spec;
use crate::text::clone_strings;
use crate::text::str_eq;

verus! {

/// The builtin a command name resolves to, or `External` for a command that
/// is dispatched as an external process.
#[derive(Clone, Copy, Debug, PartialEq, Eq, Structural, Default)]
pub enum Builtins {
    #[default]
    External,
    Exit,
    CD,
    Echo,
    Alias,
}

/// The builtin keyword a command name matches exactly, if any.
pub open spec fn classify_name(name: Seq<char>) -> Builtins {
    if name == "exit"@ {
        Builtins::Exit
    } else if name == "cd"@ {
        Builtins::CD
    } else if name == "echo"@ {
        Builtins::Echo
    } else if name == "alias"@ {
        Builtins::Alias
    } else {
        Builtins::External
    }
}

/// Resolves a command name to its builtin by exact literal match.
pub fn classify_builtin(name: &str) -> (b: Builtins)
    ensures
        b == classify_name(name@),
{
    if str_eq(name, "exit") {
        Builtins::Exit
    } else if str_eq(name, "cd") {
        Builtins::CD
    } else if str_eq(name, "echo") {
        Builtins::Echo
    } else if str_eq(name, "alias") {
        Builtins::Alias
    } else {
        Builtins::External
    }
}

/// The arguments from position `i` on, joined by single spaces.
pub open spec fn join_spaces_from(args: Seq<Seq<char>>, i: int) -> Seq<char>
    decreases args.len() - i,
    when 0 <= i <= args.len()
{
    if i >= args.len() {
        Seq::empty()
    } else if i == args.len() - 1 {
        args[i]
    } else {
        args[i] + seq![' '] + join_spaces_from(args, i + 1)
    }
}

/// All arguments joined by single spaces.
pub open spec fn join_spaces(args: Seq<Seq<char>>) -> Seq<char> {
    join_spaces_from(args, 0)
}

fn join_from(args: &Vec<String>, i: usize) -> (r: String)
    requires
        i <= args@.len(),
    ensures
        r@ == join_spaces_from(args.deep_view(), i as int),
    decreases args@.len() - i,
{
    if i >= args.len() {
        String::new()
    } else if i == args.len() - 1 {
        args[i].clone()
    } else {
        let mut r = args[i].clone();
        r.append(" ");
        let rest = join_from(args, i + 1);
        r.append(rest.as_str());
        proof {
            reveal_strlit(" ");
            assert(" "@ =~= seq![' ']);
        }
        r
    }
}

/// What the `echo` builtin prints (before the closing newline): its
/// arguments joined by single spaces.
pub fn echo_line(args: &Vec<String>) -> (r: String)
    ensures
        r@ == join_spaces(args.deep_view()),
{
    join_from(args, 0)
}

/// How the working directory should change for a `cd` command.
#[derive(Clone, Debug, PartialEq)]
pub enum CdPlan {
    /// No argument: go to the user's home directory.
    Home,
    /// One argument: go to this path, resolved against the working
    /// directory.
    To(String),
}

/// The mathematical shape of a `CdPlan`.
pub enum CdPlanModel {
    Home,
    To(Seq<char>),
}

impl View for CdPlan {
    type V = CdPlanModel;

    open spec fn view(&self) -> CdPlanModel {
        match self {
            CdPlan::Home => CdPlanModel::Home,
            CdPlan::To(p) => CdPlanModel::To(p@),
        }
    }
}

/// What the dispatcher decides for one command.  The caller performs it:
/// spawning, printing and changing directory are its part.
#[derive(Clone, Debug, PartialEq)]
pub enum Directive {
    /// Spawn an external process and, unless `background` holds, wait for
    /// it.
    Spawn { name: String, args: Vec<String>, background: bool },
    /// Print this line, followed by a newline, to standard output.
    PrintLine { line: String },
    /// Change the working directory.
    ChangeDir { plan: CdPlan },
    /// Leave the shell with exit code 0; nothing after this runs.
    ExitShell,
    /// Nothing to do (the `alias` builtin is accepted but has no effect).
    Nothing,
}

/// The mathematical shape of a `Directive`.
pub enum DirectiveModel {
    Spawn { name: Seq<char>, args: Seq<Seq<char>>, background: bool },
    PrintLine { line: Seq<char> },
    ChangeDir { plan: CdPlanModel },
    ExitShell,
    Nothing,
}

impl View for Directive {
    type V = DirectiveModel;

    open spec fn view(&self) -> DirectiveModel {
        match self {
            Directive::Spawn { name, args, background } => DirectiveModel::Spawn {
                name: name@,
                args: args.deep_view(),
                background: *background,
            },
            Directive::PrintLine { line } => DirectiveModel::PrintLine { line: line@ },
            Directive::ChangeDir { plan } => DirectiveModel::ChangeDir { plan: plan@ },
            Directive::ExitShell => DirectiveModel::ExitShell,
            Directive::Nothing => DirectiveModel::Nothing,
        }
    }
}

/// The directive a parsed command calls for: builtins by their rules —
/// `exit` ends the shell, `echo` prints its arguments joined by spaces,
/// `alias` does nothing, `cd` goes home without an argument, to the given
/// path with one argument, and is an error with more — and anything else
/// is spawned as an external process.
pub open spec fn directive_of(c: CmdModel) -> DirectiveModel {
    match c.builtin {
        Builtins::External => DirectiveModel::Spawn { name: c.name, args: c.args, background: c.bg },
        Builtins::Exit => DirectiveModel::ExitShell,
        Builtins::Echo => DirectiveModel::PrintLine { line: join_spaces(c.args) },
        Builtins::Alias => DirectiveModel::Nothing,
        Builtins::CD => if c.args.len() == 0 {
            DirectiveModel::ChangeDir { plan: CdPlanModel::Home }
        } else if c.args.len() == 1 {
            DirectiveModel::ChangeDir { plan: CdPlanModel::To(c.args[0]) }
        } else {
            DirectiveModel::PrintLine { line: "-crust: cd: too many arguments"@ }
        },
    }
}

/// Decides what one parsed command should do.
pub fn dispatch(input: &Input) -> (d: Directive)
    ensures
        d@ == directive_of(input@),
{
    match input.builtin {
        Builtins::External => Directive::Spawn {
            name: input.command.clone(),
            args: clone_strings(&input.args),
            background: input.bg,
        },
        Builtins::Exit => Directive::ExitShell,
        Builtins::Echo => Directive::PrintLine { line: echo_line(&input.args) },
        Builtins::Alias => Directive::Nothing,
        Builtins::CD => {
            if input.args.len() == 0 {
                Directive::ChangeDir { plan: CdPlan::Home }
            } else if input.args.len() == 1 {
                Directive::ChangeDir { plan: CdPlan::To(input.args[0].clone()) }
            } else {
                Directive::PrintLine { line: String::from_str("-crust: cd: too many arguments") }
            }
        },
    }
}

/// The directive sequence a vector of directives stands for.
pub open spec fn directives_view(v: Seq<Directive>) -> Seq<DirectiveModel> {
    v.map_values(|d: Directive| d@)
}

/// One full pass over a submitted line: parse it and decide, in order, what
/// each command should do.  A line that fails to parse yields one directive:
/// print the failure report for the offending character.
pub fn shell_cycle(raw_input: &str) -> (ds: Vec<Directive>)
    ensures
        match parse_spec(raw_input@) {
            Ok(cs) => directives_view(ds@) == cs.map_values(|c: CmdModel| directive_of(c)),
            Err(p) => ds@.len() == 1 && ds@[0]@ == (DirectiveModel::PrintLine {
                line: crate::parse::parse_fail_msg(raw_input@, p),
            }),
        },
{
    match parse_line(raw_input) {
        Ok(inputs) => {
            let mut ds: Vec<Directive> = Vec::new();
            let mut i: usize = 0;
            while i < inputs.len()
                invariant
                    0 <= i <= inputs@.len(),
                    ds@.len() == i,
                    forall|k: int| 0 <= k < i ==> ds@[k]@ == directive_of(inputs@[k]@),
                decreases inputs@.len() - i,
            {
                let d = dispatch(&inputs[i]);
                ds.push(d);
                i = i + 1;
            }
            proof {
                assert(directives_view(ds@) =~= crate::parse::cmds_view(inputs@).map_values(
                    |c: CmdModel| directive_of(c),
                ));
            }
            ds
        },
        Err(p) => {
            let line = crate::parse::parse_failure_line(raw_input, p);
            let mut ds: Vec<Directive> = Vec::new();
            ds.push(Directive::PrintLine { line });
            ds
        },
    }
}

/// The report for an external command that could not be spawned: its name,
/// then one of the messages for the command-not-found kind.
pub fn spawn_failure_line(name: &str) -> (r: String)
    ensures
        exists|i: int|
            0 <= i < error_choice_count(Errors::CommandNotFound) && r@ == name@ + ": "@
                + error_choice(Errors::CommandNotFound, i),
{
    let mut r = name.to_owned();
    r.append(": ");
    let msg = get_error_message(Errors::CommandNotFound);
    r.append(msg.as_str());
    proof {
        let i = choose|i: int|
            0 <= i < error_choice_count(Errors::CommandNotFound) && msg@ == error_choice(
                Errors::CommandNotFound,
                i,
            );
        assert(r@ == name@ + ": "@ + error_choice(Errors::CommandNotFound, i));
    }
    r
}

/// The report for a `cd` whose target could not be entered: the shell's
/// prefix, the target, then one of the messages for the file-not-found
/// kind.
pub fn cd_failure_line(arg: &str) -> (r: String)
    ensures
        exists|i: int|
            0 <= i < error_choice_count(Errors::FileNotFound) && r@ == "-crust: cd: "@ + arg@
                + ": "@ + error_choice(Errors::FileNotFound, i),
{
    let mut r = String::from_str("-crust: cd: ");
    r.append(arg);
    r.append(": ");
    let msg = get_error_message(Errors::FileNotFound);
    r.append(msg.as_str());
    proof {
        let i = choose|i: int|
            0 <= i < error_choice_count(Errors::FileNotFound) && msg@ == error_choice(
                Errors::FileNotFound,
                i,
            );
        assert(r@ == "-crust: cd: "@ + arg@ + ": "@ + error_choice(Errors::FileNotFound, i));
    }
    r
}

/// The report for a `cd` without an argument when no home directory is
/// known.
pub fn cd_home_failure_line() -> (r: String)
    ensures
        r@ == "-crust: cd: home not set"@,
{
    String::from_str("-crust: cd: home not set")
}

} // verus!
