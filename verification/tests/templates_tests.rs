use gloves::templates::{config_decode, config_encode, config_new, solidity_new, Config,
    ConfigCompiler, ConfigInfo, DecodeError};

fn config(name: &str, license: &str, solc: &str, optimize: bool, runs: i64) -> Config {
    Config {
        info: ConfigInfo { name: name.to_string(), license: license.to_string() },
        compiler: ConfigCompiler { solc: solc.to_string(), optimize, runs },
    }
}

#[test]
fn config_new_round_trips_with_license_uppercased() {
    let text = config_new("mytoken", "solc", "mit");
    let back = config_decode(&text).unwrap();
    assert_eq!(back.info.name, "mytoken");
    assert_eq!(back.info.license, "MIT");
    assert_eq!(back.compiler.solc, "solc");
    assert_eq!(back.compiler.optimize, false);
    assert_eq!(back.compiler.runs, 0);
}

#[test]
fn config_new_renders_the_expected_document() {
    let text = config_new("mytoken", "solc", "gpl-3.0");
    let expected = "[info]\nname = \"mytoken\"\nlicense = \"GPL-3.0\"\n\n[compiler]\nsolc = \"solc\"\noptimize = false\nruns = 0\n";
    assert_eq!(text, expected);
}

#[test]
fn encode_decode_round_trips_every_field() {
    let c = config("a b", "Apache-2.0", "/usr/bin/solc", true, 200);
    let back = config_decode(&config_encode(&c)).unwrap();
    assert_eq!(back.info.name, "a b");
    assert_eq!(back.info.license, "Apache-2.0");
    assert_eq!(back.compiler.solc, "/usr/bin/solc");
    assert_eq!(back.compiler.optimize, true);
    assert_eq!(back.compiler.runs, 200);
}

#[test]
fn encode_escapes_quotes_and_backslashes() {
    let c = config("quo\"te", "li\\cense", "solc", false, -7);
    let text = config_encode(&c);
    assert!(text.contains("quo\\\"te"));
    assert!(text.contains("li\\\\cense"));
    let back = config_decode(&text).unwrap();
    assert_eq!(back.info.name, "quo\"te");
    assert_eq!(back.info.license, "li\\cense");
    assert_eq!(back.compiler.runs, -7);
}

#[test]
fn round_trip_at_the_integer_limits() {
    for runs in [i64::MIN, i64::MIN + 1, -1, 0, 1, i64::MAX - 1, i64::MAX] {
        let c = config("n", "L", "s", true, runs);
        let back = config_decode(&config_encode(&c)).unwrap();
        assert_eq!(back.compiler.runs, runs);
    }
}

#[test]
fn decode_accepts_a_handwritten_document() {
    let text = "[info]\nname = \"tok\"\nlicense = \"MIT\"\n\n[compiler]\nsolc = \"solcjs\"\noptimize = true\nruns = 42\n";
    let back = config_decode(text).unwrap();
    assert_eq!(back.info.name, "tok");
    assert_eq!(back.compiler.solc, "solcjs");
    assert_eq!(back.compiler.optimize, true);
    assert_eq!(back.compiler.runs, 42);
}

#[test]
fn decode_rejects_malformed_documents() {
    assert_eq!(config_decode("").err(), Some(DecodeError::Malformed));
    assert_eq!(config_decode("[info]").err(), Some(DecodeError::Malformed));
    // unterminated string
    assert_eq!(config_decode("[info]\nname = \"tok\nlicense = \"MIT\"").err(), Some(DecodeError::Malformed));
    // missing the compiler table
    assert_eq!(
        config_decode("[info]\nname = \"tok\"\nlicense = \"MIT\"\n").err(),
        Some(DecodeError::Malformed)
    );
    // a word that is neither true nor false
    let bad_bool = "[info]\nname = \"t\"\nlicense = \"L\"\n\n[compiler]\nsolc = \"s\"\noptimize = maybe\nruns = 0\n";
    assert_eq!(config_decode(bad_bool).err(), Some(DecodeError::Malformed));
    // runs without digits
    let bad_runs = "[info]\nname = \"t\"\nlicense = \"L\"\n\n[compiler]\nsolc = \"s\"\noptimize = false\nruns = x\n";
    assert_eq!(config_decode(bad_runs).err(), Some(DecodeError::Malformed));
    // runs outside i64
    let huge = "[info]\nname = \"t\"\nlicense = \"L\"\n\n[compiler]\nsolc = \"s\"\noptimize = false\nruns = 99999999999999999999\n";
    assert_eq!(config_decode(huge).err(), Some(DecodeError::Malformed));
    // trailing text after the document
    let trailing = "[info]\nname = \"t\"\nlicense = \"L\"\n\n[compiler]\nsolc = \"s\"\noptimize = false\nruns = 0\nx";
    assert_eq!(config_decode(trailing).err(), Some(DecodeError::Malformed));
}

#[test]
fn decode_keeps_the_boundary_runs_values() {
    let min_doc = "[info]\nname = \"t\"\nlicense = \"L\"\n\n[compiler]\nsolc = \"s\"\noptimize = false\nruns = -9223372036854775808\n";
    assert_eq!(config_decode(min_doc).unwrap().compiler.runs, i64::MIN);
    let just_over = "[info]\nname = \"t\"\nlicense = \"L\"\n\n[compiler]\nsolc = \"s\"\noptimize = false\nruns = 9223372036854775808\n";
    assert_eq!(config_decode(just_over).err(), Some(DecodeError::Malformed));
}

#[test]
fn solidity_new_renders_the_stub() {
    let src = solidity_new("Foo", "MIT");
    let expected = "// SPDX-License-Identifier: MIT\n\npragma solidity ^0.8.10;\n\ncontract Foo {\n    constructor() {}\n}";
    assert_eq!(src, expected);
    assert!(src.contains("MIT"));
    assert!(src.contains("Foo"));
}
