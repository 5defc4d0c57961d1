//! The three commands as pure planners.
//!
//! Each planner takes the answers of the probes the command depends on
//! (does the directory exist, what is in the configuration file) and
//! decides either the first error, or a plan: which directory to create,
//! which files to write, which compiler invocations to run. The caller
//! performs the probes and the plan; nothing here touches the machine.

use vstd::prelude::*;

use crate::solc::{solc_args, solc_args_chars};
use crate::templates::{
    config_decode, config_new, encode_config_chars, parse_config_chars, solidity_chars,
    solidity_new, upper_of, ConfigV,
};
use crate::text::contains_chars;
use crate::utils::{file_name_chars, join_chars, FsPath};

verus! {

/// Why a command cannot go ahead.
#[derive(Clone, Copy, Debug, PartialEq, Eq, Structural)]
pub enum ActionError {
    /// The compiler cannot be spawned.
    CompilerMissing,
    /// The compiler's version cannot be read.
    VersionUnavailable,
    /// The directory already holds a configuration file.
    AlreadyInitiated,
    /// The target directory has no usable name.
    NameUnavailable,
    /// No configuration file: not a project directory.
    ConfigNotFound,
    /// The configuration file does not parse.
    ConfigMalformed,
    /// There is no contracts directory.
    ContractsDirMissing,
    /// The contracts directory holds nothing.
    ContractsDirEmpty,
}

/// What carrying out `init` takes.
pub struct InitPlan {
    /// The target directory must be created first.
    pub create_dir: bool,
    /// Where the configuration file goes.
    pub config_path: FsPath,
    /// What the configuration file holds.
    pub config_text: String,
    /// The project's name, for reporting.
    pub project_name: String,
}

/// Decide the `init` command from its probes: the directory as given and
/// in absolute form, the compiler and license asked for, and whether the
/// directory, the compiler, its version and a configuration file are there.
pub fn init(
    path: &FsPath,
    abs_dir: &FsPath,
    compiler: &String,
    license: &String,
    dir_exists: bool,
    compiler_exists: bool,
    version: &Option<String>,
    config_exists: bool,
) -> (r: Result<InitPlan, ActionError>)
    ensures
        !compiler_exists ==> r == Err::<InitPlan, ActionError>(ActionError::CompilerMissing),
        compiler_exists && version is None ==> r == Err::<InitPlan, ActionError>(
            ActionError::VersionUnavailable,
        ),
        compiler_exists && version is Some && config_exists ==> r == Err::<InitPlan, ActionError>(
            ActionError::AlreadyInitiated,
        ),
        compiler_exists && version is Some && !config_exists && file_name_chars(abs_dir@) is None
            ==> r == Err::<InitPlan, ActionError>(ActionError::NameUnavailable),
        compiler_exists && version is Some && !config_exists && file_name_chars(abs_dir@) is Some
            ==> (r matches Ok(p) && p.create_dir == !dir_exists && p.config_path@ == join_chars(
            path@,
            "gloves.toml"@,
        ) && file_name_chars(abs_dir@) == Some(p.project_name@) && p.config_text@
            == encode_config_chars(
            ConfigV {
                name: p.project_name@,
                license: upper_of(license@),
                solc: compiler@,
                optimize: false,
                runs: 0,
            },
        )),
{
    if !compiler_exists {
        return Err(ActionError::CompilerMissing);
    }
    if version.is_none() {
        return Err(ActionError::VersionUnavailable);
    }
    if config_exists {
        return Err(ActionError::AlreadyInitiated);
    }
    let name = match abs_dir.file_name() {
        Some(n) => n,
        None => {
            return Err(ActionError::NameUnavailable);
        },
    };
    let config_text = config_new(name.as_str(), compiler.as_str(), license.as_str());
    Ok(
        InitPlan {
            create_dir: !dir_exists,
            config_path: path.join("gloves.toml"),
            config_text,
            project_name: name,
        },
    )
}

/// One file to write.
pub struct PlannedFile {
    pub path: FsPath,
    pub content: String,
}

/// What carrying out `new` takes.
pub struct NewPlan {
    /// The contracts directory must be created first.
    pub create_contracts_dir: bool,
    /// The contract stubs to write, in the order asked for.
    pub files: Vec<PlannedFile>,
}

/// Decide the `new` command: one contract stub under `./contracts` for
/// each requested name, using the configured license. `config_text` is the
/// configuration file's content, or `None` where there is no such file.
pub fn new(contract: &Vec<String>, config_text: &Option<String>, contracts_dir_exists: bool) -> (r:
    Result<NewPlan, ActionError>)
    ensures
        config_text is None ==> r == Err::<NewPlan, ActionError>(ActionError::ConfigNotFound),
        config_text is Some && parse_config_chars(config_text->Some_0@) is None ==> r == Err::<
            NewPlan,
            ActionError,
        >(ActionError::ConfigMalformed),
        config_text is Some && parse_config_chars(config_text->Some_0@) is Some ==> (r matches Ok(p)
            && p.create_contracts_dir == !contracts_dir_exists && p.files@.len() == contract@.len()
            && (forall|i: int|
            0 <= i < contract@.len() ==> (#[trigger] p.files@[i].path)@ == join_chars(
                "./contracts"@,
                contract@[i]@ + ".sol"@,
            )) && (forall|i: int|
            0 <= i < contract@.len() ==> (#[trigger] p.files@[i].content)@ == solidity_chars(
                contract@[i]@,
                parse_config_chars(config_text->Some_0@)->Some_0.license,
            ))),
{
    let text = match config_text {
        Some(t) => t,
        None => {
            return Err(ActionError::ConfigNotFound);
        },
    };
    let config = match config_decode(text.as_str()) {
        Ok(c) => c,
        Err(_) => {
            return Err(ActionError::ConfigMalformed);
        },
    };
    let dir = FsPath::from_text("./contracts");
    let mut files: Vec<PlannedFile> = Vec::new();
    let mut i: usize = 0;
    while i < contract.len()
        invariant
            i <= contract@.len(),
            dir@ == "./contracts"@,
            parse_config_chars(text@) == Some(config@),
            files@.len() == i,
            forall|k: int|
                0 <= k < i ==> (#[trigger] files@[k].path)@ == join_chars(
                    "./contracts"@,
                    contract@[k]@ + ".sol"@,
                ),
            forall|k: int|
                0 <= k < i ==> (#[trigger] files@[k].content)@ == solidity_chars(
                    contract@[k]@,
                    config@.license,
                ),
        decreases contract@.len() - i,
    {
        let content = solidity_new(contract[i].as_str(), config.info.license.as_str());
        let mut file_name = contract[i].clone();
        file_name.append(".sol");
        let path = dir.join(file_name.as_str());
        files.push(PlannedFile { path, content });
        i = i + 1;
    }
    Ok(NewPlan { create_contracts_dir: !contracts_dir_exists, files })
}

/// One directory entry, as the caller listed it.
pub struct DirEntry {
    /// The entry's full path.
    pub path: FsPath,
    /// Whether the entry is itself a directory.
    pub is_dir: bool,
}

/// The paths among `es` that name contract sources: entries that are not
/// directories and whose path mentions `.sol`, in order.
pub open spec fn sol_files(es: Seq<DirEntry>) -> Seq<Seq<char>>
    decreases es.len(),
{
    if es.len() == 0 {
        Seq::empty()
    } else {
        let rest = sol_files(es.drop_last());
        let e = es.last();
        if !e.is_dir && contains_chars(e.path@, ".sol"@) {
            rest.push(e.path@)
        } else {
            rest
        }
    }
}

/// One compiler run to make.
pub struct SolcInvocation {
    /// The compiler to spawn, from the configuration.
    pub compiler: String,
    /// Its full argument list.
    pub args: Vec<String>,
}

/// What carrying out `compile` takes.
pub struct CompilePlan {
    pub invocations: Vec<SolcInvocation>,
}

/// Decide the `compile` command: one compiler run into `./artifacts` for
/// every contract source in the contracts directory. `entries` is what the
/// caller found in that directory; it is ignored when the directory is
/// missing.
pub fn compile(config_text: &Option<String>, contracts_dir_exists: bool, entries: &Vec<DirEntry>)
    -> (r: Result<CompilePlan, ActionError>)
    ensures
        config_text is None ==> r == Err::<CompilePlan, ActionError>(ActionError::ConfigNotFound),
        config_text is Some && !contracts_dir_exists ==> r == Err::<CompilePlan, ActionError>(
            ActionError::ContractsDirMissing,
        ),
        config_text is Some && contracts_dir_exists && entries@.len() == 0 ==> r == Err::<
            CompilePlan,
            ActionError,
        >(ActionError::ContractsDirEmpty),
        (config_text is Some && contracts_dir_exists && entries@.len() > 0
            && parse_config_chars(config_text->Some_0@) is None) ==> r == Err::<CompilePlan, ActionError>(
            ActionError::ConfigMalformed,
        ),
        (config_text is Some && contracts_dir_exists && entries@.len() > 0
            && parse_config_chars(config_text->Some_0@) is Some) ==> (r matches Ok(p) && p.invocations@.len()
            == sol_files(entries@).len() && (forall|i: int|
            0 <= i < p.invocations@.len() ==> (#[trigger] p.invocations@[i].compiler)@
            == parse_config_chars(config_text->Some_0@)->Some_0.solc) && (forall|i: int|
            0 <= i < p.invocations@.len() ==> (#[trigger] p.invocations@[i].args)@.map_values(
                |s: String| s@,
            ) == solc_args_chars(
                sol_files(entries@)[i],
                "./artifacts"@,
                parse_config_chars(config_text->Some_0@)->Some_0,
            ))),
{
    let text = match config_text {
        Some(t) => t,
        None => {
            return Err(ActionError::ConfigNotFound);
        },
    };
    if !contracts_dir_exists {
        return Err(ActionError::ContractsDirMissing);
    }
    if entries.len() == 0 {
        return Err(ActionError::ContractsDirEmpty);
    }
    let config = match config_decode(text.as_str()) {
        Ok(c) => c,
        Err(_) => {
            return Err(ActionError::ConfigMalformed);
        },
    };
    let out = String::from_str("./artifacts");
    let mut invocations: Vec<SolcInvocation> = Vec::new();
    let mut i: usize = 0;
    while i < entries.len()
        invariant
            i <= entries@.len(),
            out@ == "./artifacts"@,
            parse_config_chars(text@) == Some(config@),
            invocations@.len() == sol_files(entries@.subrange(0, i as int)).len(),
            forall|k: int|
                0 <= k < invocations@.len() ==> (#[trigger] invocations@[k].compiler)@
                    == config@.solc,
            forall|k: int|
                0 <= k < invocations@.len() ==> (#[trigger] invocations@[k].args)@.map_values(
                    |s: String| s@,
                ) == solc_args_chars(
                    sol_files(entries@.subrange(0, i as int))[k],
                    "./artifacts"@,
                    config@,
                ),
        decreases entries@.len() - i,
    {
        let entry = &entries[i];
        proof {
            assert(entries@.subrange(0, i + 1).drop_last() =~= entries@.subrange(0, i as int));
            assert(entries@.subrange(0, i + 1).last() == entries@[i as int]);
        }
        if !entry.is_dir && entry.path.contains_text(".sol") {
            let args = solc_args(&entry.path.text(), &out, &config);
            invocations.push(SolcInvocation { compiler: config.compiler.solc.clone(), args });
        }
        i = i + 1;
    }
    proof {
        assert(entries@.subrange(0, entries@.len() as int) =~= entries@);
    }
    Ok(CompilePlan { invocations })
}

} // verus!
