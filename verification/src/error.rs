//! The closed set of failures the launcher can report.

use vstd::prelude::*;

verus! {

/// Everything that can go wrong between parsing the arguments and the child
/// process exiting, as a closed enumeration.  Each variant carries the
/// contextual data its report needs.
#[derive(Debug, PartialEq, Eq)]
pub enum NsCmdError {
    /// No command was given after the translation rules.
    Usage,
    /// A rule's actual path does not exist or is not a regular file.
    Translation { path: String },
    /// Creating the workspace directory or a symlink failed; carries the
    /// underlying failure's description.
    Setup { detail: String },
    /// The residual command could not be located or started; carries the
    /// underlying failure's description.
    Spawn { detail: String },
    /// The child process was terminated by a signal instead of exiting.
    Signal,
}

impl NsCmdError {
    /// The human-readable report for this failure.
    pub fn message(&self) -> (r: String)
        ensures
            r@ == self.message_spec(),
    {
        match self {
            NsCmdError::Usage => "No command given".to_owned(),
            NsCmdError::Translation { path } => path.clone().concat(" does not exist"),
            NsCmdError::Setup { detail } => "Setup failed: ".to_owned().concat(detail.as_str()),
            NsCmdError::Spawn { detail } => "Cannot run command: ".to_owned().concat(
                detail.as_str(),
            ),
            NsCmdError::Signal => "Process terminated by signal".to_owned(),
        }
    }

    /// What `message` returns, as a sequence of characters.
    pub open spec fn message_spec(&self) -> Seq<char> {
        match self {
            NsCmdError::Usage => "No command given"@,
            NsCmdError::Translation { path } => path@ + " does not exist"@,
            NsCmdError::Setup { detail } => "Setup failed: "@ + detail@,
            NsCmdError::Spawn { detail } => "Cannot run command: "@ + detail@,
            NsCmdError::Signal => "Process terminated by signal"@,
        }
    }
}

} // verus!
