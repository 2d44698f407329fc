use std::io::Write;

use dotenv_plus::env::{DotEnv, Environment};
use dotenv_plus::var::{set_var, var, EnvTable};

#[test]
fn test_from_code() {
    assert_eq!(Environment::from_code("development"), Environment::Development);
    assert_eq!(Environment::from_code("test"), Environment::Test);
    assert_eq!(Environment::from_code("production"), Environment::Production);
    assert_eq!(
        Environment::from_code("staging"),
        Environment::Custom("staging".to_string())
    );
}

#[test]
fn test_as_code() {
    assert_eq!(Environment::Development.as_code(), "development");
    assert_eq!(Environment::Test.as_code(), "test");
    assert_eq!(Environment::Production.as_code(), "production");
    assert_eq!(Environment::Custom("staging".to_string()).as_code(), "staging");
}

#[test]
fn test_to_code() {
    assert_eq!(Environment::Development.to_code(), "development");
    assert_eq!(Environment::Test.to_code(), "test");
    assert_eq!(Environment::Production.to_code(), "production");
    assert_eq!(Environment::Custom("staging".to_string()).to_code(), "staging");
}

#[test]
fn test_code_roundtrip() {
    for code in ["development", "test", "production", "staging"] {
        assert_eq!(Environment::from_code(code).to_code(), code);
    }
}

#[test]
fn test_builder_aliases() {
    let dir = tempfile::tempdir().unwrap();
    let mut file = tempfile::Builder::new()
        .prefix(".env.custom")
        .rand_bytes(0)
        .tempfile_in(dir.path())
        .unwrap();
    file.write_all(b"FROM_FILE=yes\n").unwrap();
    file.flush().unwrap();
    let path = dir.path().to_str().unwrap();

    let mut table = EnvTable::new();
    DotEnv::new(&table).dir(path).env("custom").done(&mut table);
    assert_eq!(var(&table, "RUST_ENV"), "custom");
    assert_eq!(var(&table, "FROM_FILE"), "yes");

    let mut table2 = EnvTable::new();
    let config = DotEnv::from(DotEnv::new(&table2).directory(path).environment("custom"));
    config.done(&mut table2);
    assert_eq!(var(&table2, "RUST_ENV"), "custom");
    assert_eq!(var(&table2, "FROM_FILE"), "yes");
}

#[test]
fn test_default_configuration() {
    let dir = tempfile::tempdir().unwrap();
    let path = dir.path().to_str().unwrap();

    // with no marker set, the default environment is development
    let mut table = EnvTable::new();
    DotEnv::new(&table).directory(path).done(&mut table);
    assert_eq!(var(&table, "RUST_ENV"), "development");

    // a default-constructed pass inherits whatever the marker holds
    set_var(&mut table, "RUST_ENV", "staging");
    DotEnv::new(&table).directory(path).done(&mut table);
    assert_eq!(var(&table, "RUST_ENV"), "staging");
}
