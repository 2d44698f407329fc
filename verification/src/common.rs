use vstd::prelude::*;

use crate::env::{marker_name, Environment};
use crate::var::{var, EnvTable};

verus! {

/// The current environment code, read from the marker variable. The
/// marker must have been set, by a resolution pass or directly.
pub fn get_rust_env(table: &EnvTable) -> (r: String)
    requires
        table.wf(),
        table@.contains_key(marker_name()),
    ensures
        r@ == table@[marker_name()],
{
    var(table, "RUST_ENV")
}

/// Whether the current environment is `development`.
pub fn is_environment_development(table: &EnvTable) -> (r: bool)
    requires
        table.wf(),
        table@.contains_key(marker_name()),
    ensures
        r == (table@[marker_name()] == "development"@),
{
    let code = get_rust_env(table);
    code == Environment::Development.to_code()
}

/// Alias of [`is_environment_development`].
pub fn is_dev(table: &EnvTable) -> (r: bool)
    requires
        table.wf(),
        table@.contains_key(marker_name()),
    ensures
        r == (table@[marker_name()] == "development"@),
{
    is_environment_development(table)
}

/// Whether the current environment is `test`.
pub fn is_environment_test(table: &EnvTable) -> (r: bool)
    requires
        table.wf(),
        table@.contains_key(marker_name()),
    ensures
        r == (table@[marker_name()] == "test"@),
{
    let code = get_rust_env(table);
    code == Environment::Test.to_code()
}

/// Alias of [`is_environment_test`].
pub fn is_test(table: &EnvTable) -> (r: bool)
    requires
        table.wf(),
        table@.contains_key(marker_name()),
    ensures
        r == (table@[marker_name()] == "test"@),
{
    is_environment_test(table)
}

/// Whether the current environment is `production`.
pub fn is_environment_production(table: &EnvTable) -> (r: bool)
    requires
        table.wf(),
        table@.contains_key(marker_name()),
    ensures
        r == (table@[marker_name()] == "production"@),
{
    let code = get_rust_env(table);
    code == Environment::Production.to_code()
}

/// Alias of [`is_environment_production`].
pub fn is_prd(table: &EnvTable) -> (r: bool)
    requires
        table.wf(),
        table@.contains_key(marker_name()),
    ensures
        r == (table@[marker_name()] == "production"@),
{
    is_environment_production(table)
}

} // verus!
