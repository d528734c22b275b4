//! A command-name-translation launcher library.
//!
//! The launcher takes a list of `called-name=actual-path` translation rules
//! followed by a residual command line.  It prepares a workspace directory of
//! symbolic links so that each called name resolves to the chosen executable,
//! composes a search path with that workspace in front, and runs the residual
//! command with the composed search path.
//!
//! This crate holds the verified logic: parsing arguments into rules, planning
//! the symlink installation, composing the search path, and mapping the child
//! process's termination back to an exit code.  The thin unverified shell
//! around it performs the actual filesystem and process operations.

pub mod args;
pub mod error;
pub mod launch;
pub mod setup;
