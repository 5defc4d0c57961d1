//! The command-line grammar: `init <path> [--compiler <name>]`,
//! `new <name>...`, `compile`. `run` turns an argument vector into the
//! command it asks for; the caller gathers the arguments and carries the
//! command out.

use vstd::prelude::*;

use crate::text::str_eq;

verus! {

/// One recognized command.
pub enum CliCommand {
    /// Initiate a project at `path`, compiled by `compiler`.
    Init { path: String, compiler: String },
    /// Create one contract stub per name.
    New { contract: Vec<String> },
    /// Compile every contract in the project.
    Compile,
}

/// Why an argument vector names no command.
#[derive(Clone, Copy, Debug, PartialEq, Eq, Structural)]
pub enum CliError {
    /// No arguments, or arguments that do not fit the command's form.
    Usage,
    /// The first argument is no known command.
    CommandNotFound,
}

/// Parse the arguments (the program name already dropped) into a command.
/// `init` takes a path and optionally `--compiler` with a value, with
/// `solc` as the default; `new` takes one or more names; `compile` takes
/// nothing; anything else is no known command.
pub fn run(args: &Vec<String>) -> (r: Result<CliCommand, CliError>)
    ensures
        args@.len() == 0 ==> r == Err::<CliCommand, CliError>(CliError::Usage),
        args@.len() > 0 && args@[0]@ == "init"@ && args@.len() == 2 ==> (r matches Ok(c) && c
            matches CliCommand::Init { path, compiler } && path@ == args@[1]@ && compiler@
            == "solc"@),
        args@.len() == 4 && args@[0]@ == "init"@ && args@[2]@ == "--compiler"@ ==> (r matches Ok(c)
            && c matches CliCommand::Init { path, compiler } && path@ == args@[1]@ && compiler@
            == args@[3]@),
        args@.len() > 0 && args@[0]@ == "init"@ && args@.len() != 2 && !(args@.len() == 4
            && args@[2]@ == "--compiler"@) ==> r == Err::<CliCommand, CliError>(CliError::Usage),
        args@.len() >= 2 && args@[0]@ == "new"@ ==> (r matches Ok(c) && c matches CliCommand::New {
            contract,
        } && contract@.len() == args@.len() - 1 && (forall|i: int|
            0 <= i < contract@.len() ==> (#[trigger] contract@[i])@ == args@[i + 1]@)),
        args@.len() == 1 && args@[0]@ == "new"@ ==> r == Err::<CliCommand, CliError>(
            CliError::Usage,
        ),
        args@.len() > 0 && args@[0]@ == "compile"@ ==> (if args@.len() == 1 {
            r matches Ok(c) && c is Compile
        } else {
            r == Err::<CliCommand, CliError>(CliError::Usage)
        }),
        args@.len() > 0 && args@[0]@ != "init"@ && args@[0]@ != "new"@ && args@[0]@ != "compile"@
            ==> r == Err::<CliCommand, CliError>(CliError::CommandNotFound),
{
    proof {
        reveal_strlit("init");
        reveal_strlit("new");
        reveal_strlit("compile");
        assert("init"@.len() == 4);
        assert("new"@.len() == 3);
        assert("compile"@.len() == 7);
    }
    if args.len() == 0 {
        return Err(CliError::Usage);
    }
    let cmd = args[0].as_str();
    if str_eq(cmd, "init") {
        if args.len() == 2 {
            return Ok(
                CliCommand::Init { path: args[1].clone(), compiler: String::from_str("solc") },
            );
        }
        if args.len() == 4 {
            if str_eq(args[2].as_str(), "--compiler") {
                return Ok(CliCommand::Init { path: args[1].clone(), compiler: args[3].clone() });
            }
        }
        return Err(CliError::Usage);
    }
    if str_eq(cmd, "new") {
        if args.len() < 2 {
            return Err(CliError::Usage);
        }
        let mut contract: Vec<String> = Vec::new();
        let mut i: usize = 1;
        while i < args.len()
            invariant
                1 <= i <= args@.len(),
                contract@.len() == i - 1,
                forall|k: int| 0 <= k < i - 1 ==> (#[trigger] contract@[k])@ == args@[k + 1]@,
            decreases args@.len() - i,
        {
            contract.push(args[i].clone());
            i = i + 1;
        }
        return Ok(CliCommand::New { contract });
    }
    if str_eq(cmd, "compile") {
        if args.len() == 1 {
            return Ok(CliCommand::Compile);
        }
        return Err(CliError::Usage);
    }
    Err(CliError::CommandNotFound)
}

} // verus!
