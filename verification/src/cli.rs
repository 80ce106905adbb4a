//! The shell's command-line surface: what the options handed to the shell
//! at start mean.  Reading them from the real command line, and reading a
//! script file, are the caller's part.

use vstd::prelude::*;

verus! {

/// The options the shell starts with.
pub struct Cli {
    /// Optional path of a script file to run non-interactively.
    pub input_file: Option<String>,
    /// Optional literal command string to run non-interactively.
    pub command: Option<String>,
}

/// The mathematical shape of a `Cli`.
#[verifier::ext_equal]
pub struct CliModel {
    pub input_file: Option<Seq<char>>,
    pub command: Option<Seq<char>>,
}

impl View for Cli {
    type V = CliModel;

    open spec fn view(&self) -> CliModel {
        CliModel {
            input_file: match &self.input_file {
                Option::Some(p) => Option::Some(p@),
                Option::None => Option::None,
            },
            command: match &self.command {
                Option::Some(c) => Option::Some(c@),
                Option::None => Option::None,
            },
        }
    }
}

/// What the shell should do for its options.
#[derive(Clone, Debug, PartialEq)]
pub enum InvocationPlan {
    /// An empty command string: leave at once with exit code 0.
    Quit,
    /// Run this literal command string, then leave.
    RunCommand(String),
    /// Read the script file at this path and run its contents; if it
    /// cannot be read, report a file-not-found error and leave with exit
    /// code 1.
    RunScript(String),
    /// Enter the interactive loop.
    Interactive,
}

/// The mathematical shape of an `InvocationPlan`.
pub enum InvocationPlanModel {
    Quit,
    RunCommand(Seq<char>),
    RunScript(Seq<char>),
    Interactive,
}

impl View for InvocationPlan {
    type V = InvocationPlanModel;

    open spec fn view(&self) -> InvocationPlanModel {
        match self {
            InvocationPlan::Quit => InvocationPlanModel::Quit,
            InvocationPlan::RunCommand(c) => InvocationPlanModel::RunCommand(c@),
            InvocationPlan::RunScript(p) => InvocationPlanModel::RunScript(p@),
            InvocationPlan::Interactive => InvocationPlanModel::Interactive,
        }
    }
}

/// What the options call for: a command string wins over a script file; an
/// empty command string means leave at once; with neither, the shell is
/// interactive.
pub open spec fn invocation_plan(c: CliModel) -> InvocationPlanModel {
    match c.command {
        Option::Some(cmd) => if cmd.len() == 0 {
            InvocationPlanModel::Quit
        } else {
            InvocationPlanModel::RunCommand(cmd)
        },
        Option::None => match c.input_file {
            Option::Some(path) => InvocationPlanModel::RunScript(path),
            Option::None => InvocationPlanModel::Interactive,
        },
    }
}

/// Decides what the shell should do for the options it started with.
pub fn plan_invocation(cli: &Cli) -> (p: InvocationPlan)
    ensures
        p@ == invocation_plan(cli@),
{
    match &cli.command {
        Option::Some(cmd) => {
            if cmd.as_str().is_empty() {
                InvocationPlan::Quit
            } else {
                InvocationPlan::RunCommand(cmd.clone())
            }
        },
        Option::None => match &cli.input_file {
            Option::Some(path) => InvocationPlan::RunScript(path.clone()),
            Option::None => InvocationPlan::Interactive,
        },
    }
}

} // verus!
