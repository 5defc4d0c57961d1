use gloves::cli::{run, CliCommand, CliError};
use gloves::cliactions::{compile, init, new, ActionError, DirEntry};
use gloves::solc::{last_line, solc_args, stderr_class, CompileStatus};
use gloves::templates::{config_decode, Config, ConfigCompiler, ConfigInfo};
use gloves::utils::FsPath;

fn config(solc: &str, optimize: bool, runs: i64) -> Config {
    Config {
        info: ConfigInfo { name: "tok".to_string(), license: "MIT".to_string() },
        compiler: ConfigCompiler { solc: solc.to_string(), optimize, runs },
    }
}

#[test]
fn init_in_an_empty_directory_round_trips_the_config() {
    let path = FsPath::from_text("./mytoken");
    let abs = FsPath::from_text("/home/user/mytoken");
    let plan = init(
        &path,
        &abs,
        &"solc".to_string(),
        &"mit".to_string(),
        false,
        true,
        &Some("0.8.10".to_string()),
        false,
    )
    .unwrap();
    assert_eq!(plan.create_dir, true);
    assert_eq!(plan.config_path.text(), "./mytoken/gloves.toml");
    assert_eq!(plan.project_name, "mytoken");
    let back = config_decode(&plan.config_text).unwrap();
    assert_eq!(back.info.name, "mytoken");
    assert_eq!(back.info.license, "MIT");
    assert_eq!(back.compiler.solc, "solc");
    assert_eq!(back.compiler.optimize, false);
    assert_eq!(back.compiler.runs, 0);
}

#[test]
fn init_twice_fails_as_already_initiated() {
    let path = FsPath::from_text("./mytoken");
    let abs = FsPath::from_text("/home/user/mytoken");
    let second = init(
        &path,
        &abs,
        &"solc".to_string(),
        &"mit".to_string(),
        true,
        true,
        &Some("0.8.10".to_string()),
        true,
    );
    assert_eq!(second.err(), Some(ActionError::AlreadyInitiated));
}

#[test]
fn init_without_a_compiler_or_version_fails() {
    let path = FsPath::from_text("p");
    let abs = FsPath::from_text("/p");
    let no_compiler =
        init(&path, &abs, &"solc".to_string(), &"mit".to_string(), true, false, &None, false);
    assert_eq!(no_compiler.err(), Some(ActionError::CompilerMissing));
    let no_version =
        init(&path, &abs, &"solc".to_string(), &"mit".to_string(), true, true, &None, false);
    assert_eq!(no_version.err(), Some(ActionError::VersionUnavailable));
}

#[test]
fn init_with_a_rootlike_target_has_no_name() {
    let path = FsPath::from_text("/");
    let abs = FsPath::from_text("/");
    let r = init(
        &path,
        &abs,
        &"solc".to_string(),
        &"mit".to_string(),
        true,
        true,
        &Some("v".to_string()),
        false,
    );
    assert_eq!(r.err(), Some(ActionError::NameUnavailable));
}

#[test]
fn new_before_init_fails_with_config_not_found() {
    let r = new(&vec!["Foo".to_string()], &None, false);
    assert_eq!(r.err(), Some(ActionError::ConfigNotFound));
}

#[test]
fn new_after_init_plans_the_contract_stub() {
    let text = gloves::templates::config_new("mytoken", "solc", "mit");
    let plan = new(&vec!["Foo".to_string(), "Bar".to_string()], &Some(text), false).unwrap();
    assert_eq!(plan.create_contracts_dir, true);
    assert_eq!(plan.files.len(), 2);
    assert_eq!(plan.files[0].path.text(), "./contracts/Foo.sol");
    assert!(plan.files[0].content.contains("MIT"));
    assert!(plan.files[0].content.contains("Foo"));
    assert_eq!(plan.files[1].path.text(), "./contracts/Bar.sol");
}

#[test]
fn new_with_a_malformed_config_fails() {
    let r = new(&vec!["Foo".to_string()], &Some("not a config".to_string()), true);
    assert_eq!(r.err(), Some(ActionError::ConfigMalformed));
}

#[test]
fn compile_without_contracts_never_reaches_the_compiler() {
    let text = gloves::templates::config_new("mytoken", "solc", "mit");
    let missing = compile(&Some(text.clone()), false, &Vec::new());
    assert_eq!(missing.err(), Some(ActionError::ContractsDirMissing));
    let empty = compile(&Some(text), true, &Vec::new());
    assert_eq!(empty.err(), Some(ActionError::ContractsDirEmpty));
    let no_config = compile(&None, true, &Vec::new());
    assert_eq!(no_config.err(), Some(ActionError::ConfigNotFound));
    let entries = vec![DirEntry { path: FsPath::from_text("./contracts/Foo.sol"), is_dir: false }];
    let malformed = compile(&Some("junk".to_string()), true, &entries);
    assert_eq!(malformed.err(), Some(ActionError::ConfigMalformed));
}

#[test]
fn compile_plans_one_invocation_per_contract_source() {
    let text = gloves::templates::config_new("mytoken", "solcjs", "mit");
    let entries = vec![
        DirEntry { path: FsPath::from_text("./contracts/Foo.sol"), is_dir: false },
        DirEntry { path: FsPath::from_text("./contracts/notes.txt"), is_dir: false },
        DirEntry { path: FsPath::from_text("./contracts/sub.sol"), is_dir: true },
        DirEntry { path: FsPath::from_text("./contracts/Bar.sol"), is_dir: false },
    ];
    let plan = compile(&Some(text), true, &entries).unwrap();
    assert_eq!(plan.invocations.len(), 2);
    assert_eq!(plan.invocations[0].compiler, "solcjs");
    let args = &plan.invocations[0].args;
    assert_eq!(args.last().unwrap(), "./contracts/Foo.sol");
    assert!(args.contains(&"--output-dir".to_string()));
    assert!(args.contains(&"./artifacts".to_string()));
    assert_eq!(plan.invocations[1].args.last().unwrap(), "./contracts/Bar.sol");
}

#[test]
fn solc_args_carry_the_optimizer_flags_only_when_asked() {
    let plain = solc_args(
        &"./contracts/Foo.sol".to_string(),
        &"./artifacts".to_string(),
        &config("solc", false, 0),
    );
    let plain_view: Vec<&str> = plain.iter().map(|s| s.as_str()).collect();
    assert_eq!(
        plain_view,
        vec![
            "--bin",
            "--abi",
            "--base-path",
            "./contracts",
            "--include-path",
            "./libs",
            "--include-path",
            "./node_modules",
            "--output-dir",
            "./artifacts",
            "./contracts/Foo.sol",
        ]
    );
    let optimized = solc_args(
        &"f.sol".to_string(),
        &"./artifacts".to_string(),
        &config("solc", true, 200),
    );
    assert!(optimized.contains(&"--optimize".to_string()));
    assert!(optimized.contains(&"--optimize-runs".to_string()));
    assert!(optimized.contains(&"200".to_string()));
    assert_eq!(optimized.last().unwrap(), "f.sol");
}

#[test]
fn last_line_cuts_the_version_out_of_compiler_output() {
    assert_eq!(
        last_line("solc, the solidity compiler\nVersion: 0.8.10\n"),
        Some("Version: 0.8.10".to_string())
    );
    assert_eq!(last_line("one line, no break"), Some("one line, no break".to_string()));
    assert_eq!(last_line("a\r\nb\r\n"), Some("b".to_string()));
    assert_eq!(last_line("\n"), Some("".to_string()));
    assert_eq!(last_line(""), None);
}

#[test]
fn stderr_with_an_error_is_fatal_without_one_a_warning() {
    assert_eq!(stderr_class("Error: bad syntax"), CompileStatus::Failed);
    assert_eq!(stderr_class("some error below"), CompileStatus::Failed);
    assert_eq!(stderr_class("unused variable warning"), CompileStatus::Warned);
    assert_eq!(stderr_class(""), CompileStatus::Succeeded);
}

#[test]
fn run_parses_the_three_commands() {
    let init_cmd = run(&vec!["init".to_string(), "mytoken".to_string()]).unwrap();
    match init_cmd {
        CliCommand::Init { path, compiler } => {
            assert_eq!(path, "mytoken");
            assert_eq!(compiler, "solc");
        }
        _ => panic!("expected init"),
    }
    let with_compiler = run(&vec![
        "init".to_string(),
        "mytoken".to_string(),
        "--compiler".to_string(),
        "solcjs".to_string(),
    ])
    .unwrap();
    match with_compiler {
        CliCommand::Init { path, compiler } => {
            assert_eq!(path, "mytoken");
            assert_eq!(compiler, "solcjs");
        }
        _ => panic!("expected init"),
    }
    let new_cmd = run(&vec!["new".to_string(), "Foo".to_string(), "Bar".to_string()]).unwrap();
    match new_cmd {
        CliCommand::New { contract } => assert_eq!(contract, vec!["Foo", "Bar"]),
        _ => panic!("expected new"),
    }
    assert!(matches!(run(&vec!["compile".to_string()]), Ok(CliCommand::Compile)));
}

#[test]
fn run_rejects_unknown_and_malformed_commands() {
    assert_eq!(run(&vec!["frobnicate".to_string()]).err(), Some(CliError::CommandNotFound));
    assert_eq!(run(&Vec::new()).err(), Some(CliError::Usage));
    assert_eq!(run(&vec!["init".to_string()]).err(), Some(CliError::Usage));
    assert_eq!(run(&vec!["new".to_string()]).err(), Some(CliError::Usage));
    assert_eq!(
        run(&vec!["compile".to_string(), "extra".to_string()]).err(),
        Some(CliError::Usage)
    );
}
