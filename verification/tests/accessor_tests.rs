use dotenv_plus::var::{get_var, get_vars, set_var, set_vars, var, EnvTable, VarError};

#[test]
fn test_set_vars_get_var() {
    let mut table = EnvTable::new();
    set_vars(
        &mut table,
        vec![("__TEST_SET_VARS_1", "abc1"), ("__TEST_SET_VARS_2", "abc2")],
    );

    assert_eq!(get_var(&table, "__TEST_SET_VARS_1").unwrap(), "abc1");
    assert_eq!(var(&table, "__TEST_SET_VARS_1"), "abc1");

    assert_eq!(get_var(&table, "__TEST_SET_VARS_2").unwrap(), "abc2");
    assert_eq!(var(&table, "__TEST_SET_VARS_2"), "abc2");
}

#[test]
fn test_set_var_get_var() {
    let mut table = EnvTable::new();
    set_var(&mut table, "__TEST_SET_VAR", "abc");

    assert_eq!(get_var(&table, "__TEST_SET_VAR").unwrap(), "abc");
    assert_eq!(var(&table, "__TEST_SET_VAR"), "abc");
}

#[test]
fn test_get_var_error() {
    let table = EnvTable::new();
    if let Ok(_) = get_var(&table, "__TEST_GET_VAR_ERROR") {
        panic!();
    }
}

#[test]
fn test_get_var_error_variant() {
    let table = EnvTable::new();
    assert_eq!(get_var(&table, "__TEST_ABSENT"), Err(VarError::NotPresent));
}

#[test]
fn test_batch_write_order() {
    let mut table = EnvTable::new();
    set_vars(&mut table, vec![("K", "1"), ("K", "2")]);
    assert_eq!(get_var(&table, "K").unwrap(), "2");
}

#[test]
fn test_accessor_duality() {
    let mut table = EnvTable::new();
    assert_eq!(get_var(&table, "NAME"), Err(VarError::NotPresent));
    set_var(&mut table, "NAME", "V");
    assert_eq!(get_var(&table, "NAME").unwrap(), "V");
    assert_eq!(var(&table, "NAME"), "V");
}

#[test]
fn test_set_var_overrides() {
    let mut table = EnvTable::new();
    set_var(&mut table, "K", "first");
    assert_eq!(var(&table, "K"), "first");
    set_var(&mut table, "K", "second");
    assert_eq!(var(&table, "K"), "second");
}

#[test]
fn test_empty_name_passes_through() {
    let mut table = EnvTable::new();
    assert_eq!(get_var(&table, ""), Err(VarError::NotPresent));
    set_var(&mut table, "", "empty-name");
    assert_eq!(var(&table, ""), "empty-name");
}

#[test]
fn test_get_vars_snapshot() {
    let mut table = EnvTable::new();
    set_var(&mut table, "ONE", "1");
    set_var(&mut table, "TWO", "2");
    set_var(&mut table, "ONE", "uno");

    let vars = get_vars(&table);
    assert_eq!(vars.len(), 2);
    assert_eq!(
        vars.iter().filter(|p| p.0 == "ONE" && p.1 == "uno").count(),
        1
    );
    assert_eq!(vars.iter().filter(|p| p.0 == "TWO" && p.1 == "2").count(), 1);
}

#[test]
fn test_from_pairs_last_wins() {
    let table = EnvTable::from_pairs(vec![
        ("K".to_string(), "1".to_string()),
        ("K".to_string(), "2".to_string()),
        ("L".to_string(), "3".to_string()),
    ]);
    assert_eq!(var(&table, "K"), "2");
    assert_eq!(var(&table, "L"), "3");
    assert_eq!(get_vars(&table).len(), 2);
}
