use ossido_bench::version_cmd::{pin_cargo_version, quiet_failure, set_npm_version, NpmPinError};

#[test]
fn pins_first_ossido_dependency_line() {
    let src = "[package]\nname = \"ossido\"\n\n[dependencies]\n    ossido = \"0.1.7\"\nossido = \"0.0.1\"\nserde = \"1\"\n";
    let want = "[package]\nname = \"ossido\"\n\n[dependencies]\n    ossido = \"0.1.8\"\nossido = \"0.0.1\"\nserde = \"1\"\n";
    assert_eq!(pin_cargo_version(src, "0.1.8"), Some(want.to_string()));
}

#[test]
fn pin_keeps_missing_final_newline_and_drops_cr() {
    let src = "a = 1\r\nossido   =  \"x\"";
    assert_eq!(pin_cargo_version(src, "2"), Some("a = 1\nossido = \"2\"".to_string()));
}

#[test]
fn pin_ignores_table_dependencies_and_other_crates() {
    assert_eq!(pin_cargo_version("ossido = { version = \"1\" }\nossido-macros = \"1\"\n", "2"), None);
    assert_eq!(pin_cargo_version("", "2"), None);
}

#[test]
fn npm_packages_pinned_in_place() {
    let pkg = r#"{"name":"x","dependencies":{"@ossido-labs/ossido":"0.1.7","react":"19"},"devDependencies":{"@ossido-labs/cli":"0.1.7"}}"#;
    let (text, n) = set_npm_version(pkg, "0.2.0").unwrap();
    assert_eq!(n, 2);
    let want = "{\n  \"name\": \"x\",\n  \"dependencies\": {\n    \"@ossido-labs/ossido\": \"0.2.0\",\n    \"react\": \"19\"\n  },\n  \"devDependencies\": {\n    \"@ossido-labs/cli\": \"0.2.0\"\n  }\n}\n";
    assert_eq!(text, want);
}

#[test]
fn npm_pin_errors() {
    assert_eq!(set_npm_version("{", "1").unwrap_err(), NpmPinError::Parse);
    assert_eq!(set_npm_version(r#"{"dependencies":{"react":"19"}}"#, "1").unwrap_err(), NpmPinError::NoPackages);
    assert_eq!(set_npm_version("[1,2]", "1").unwrap_err(), NpmPinError::NoPackages);
}

#[test]
fn npm_pin_keeps_numbers() {
    let pkg = r#"{"version":1.5,"n":[1,2],"dependencies":{"@ossido-labs/a":"1"}}"#;
    let (text, _) = set_npm_version(pkg, "3").unwrap();
    assert_eq!(text, "{\n  \"version\": 1.5,\n  \"n\": [\n    1,\n    2\n  ],\n  \"dependencies\": {\n    \"@ossido-labs/a\": \"3\"\n  }\n}\n");
}

#[test]
fn npm_pin_succeeds_whenever_packages_are_found() {
    let pkg = r#"{"a":-0.0,"b":1e300,"c":[18446744073709551615,-9223372036854775808,0.1],"devDependencies":{"@ossido-labs/x":{"v":2},"y":null}}"#;
    let (text, n) = set_npm_version(pkg, "9").unwrap();
    assert_eq!(n, 1);
    assert!(text.ends_with("}\n"));
    assert!(text.contains("\"@ossido-labs/x\": \"9\""));
    assert!(text.contains("\"y\": null"));
}

#[test]
fn npm_pin_prints_numbers_as_read() {
    let pkg = r#"{"f":[2.638344616030823e-256,0.30000000000000004,1.7976931348623157e308,5e-324,123456789.123456789,-2.5e-7],"dependencies":{"@ossido-labs/a":"1"}}"#;
    let (text, n) = set_npm_version(pkg, "2").unwrap();
    assert_eq!(n, 1);
    let mut v: serde_json::Value = serde_json::from_str(pkg).unwrap();
    v["dependencies"]["@ossido-labs/a"] = serde_json::Value::String("2".to_string());
    let mut want = serde_json::to_string_pretty(&v).unwrap();
    want.push('\n');
    assert_eq!(text, want);
}

#[test]
fn quiet_failure_prefers_stderr() {
    let args = vec!["build".to_string(), "--release".to_string()];
    assert_eq!(quiet_failure("cargo", &args, "boom\n", "out"), "`cargo build --release` failed:\nboom\n");
    assert_eq!(quiet_failure("cargo", &args, " \n\t", "out"), "`cargo build --release` failed:\nout");
}

#[test]
fn pinning_twice_changes_nothing_more() {
    for src in ["[dependencies]\n  ossido = \"0.1\"\n", "ossido=\"1\"\r\nserde = \"1\"", "x\n\nossido = \"2\"\n\n"] {
        let once = pin_cargo_version(src, "0.3.0").unwrap();
        assert_eq!(pin_cargo_version(&once, "0.3.0"), Some(once.clone()));
    }
}
