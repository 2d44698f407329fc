//! Layered dotenv-style configuration.
//!
//! The crate models the process environment table as an explicit value,
//! [`var::EnvTable`], so that every rule of the loader — which candidate
//! files are read, in what order, and which value wins for a key — is
//! stated and proved.

/// Common functions: reading the marker variable and the environment
/// predicates derived from it.
pub mod common;

/// The environment identity, the `DotEnv` builder and the layered-file
/// resolution it performs.
pub mod env;

/// The environment table and its read/write accessors.
pub mod var;
