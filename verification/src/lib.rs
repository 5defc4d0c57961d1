//! Scaffolding for Ethereum contract projects: a project-configuration
//! codec, source-file templates, path helpers, and pure planners for the
//! `init`, `new` and `compile` commands. All filesystem and process work
//! is left to the caller; the functions here decide what that work is.

pub mod cli;
pub mod cliactions;
pub mod solc;
pub mod templates;
pub mod text;
pub mod utils;
