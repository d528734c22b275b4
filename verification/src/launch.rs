//! Composing the child's search path and interpreting its termination.
//!
//! The child's search path is the workspace directory, then the inherited
//! search path, separated by `:`; a parent without a search path hands the
//! child the workspace directory alone.  A child that exits with a code hands
//! that code on as this process's exit code; one terminated by a signal is a
//! distinct error, not a fabricated code.

use vstd::prelude::*;

use crate::error::NsCmdError;

verus! {

/// The residual command line, ready to spawn: the program to resolve through
/// the composed search path, and its arguments.
#[derive(Debug)]
pub struct Invocation {
    pub program: String,
    pub args: Vec<String>,
}

/// The search-path value the child receives: the workspace directory,
/// followed, when the parent has a search path at all, by `:` and that path.
pub open spec fn composed_path(workspace_dir: Seq<char>, parent: Option<Seq<char>>) -> Seq<char> {
    match parent {
        Some(p) => workspace_dir + ":"@ + p,
        None => workspace_dir,
    }
}

/// The composed search path always begins with the workspace directory, and
/// with no inherited search path it is the workspace directory alone.
pub proof fn lemma_composed_path_prefix(workspace_dir: Seq<char>, parent: Option<Seq<char>>)
    ensures
        composed_path(workspace_dir, parent).len() >= workspace_dir.len(),
        composed_path(workspace_dir, parent).subrange(0, workspace_dir.len() as int)
            =~= workspace_dir,
        parent is None ==> composed_path(workspace_dir, parent) == workspace_dir,
{
}

/// Build the child's search-path value from the workspace directory and the
/// parent's search path, if the parent has one.
pub fn compose_path(workspace_dir: &str, parent: &Option<String>) -> (r: String)
    ensures
        r@ == composed_path(workspace_dir@, parent.deep_view()),
{
    match parent {
        Some(p) => workspace_dir.to_owned().concat(":").concat(p.as_str()),
        None => workspace_dir.to_owned(),
    }
}

/// Decide what to spawn: the first element of the residual command line is
/// the program, the rest are its arguments.  An empty command line is a usage
/// error: there is nothing to launch.
pub fn invocation_of(command: &Vec<String>) -> (r: Result<Invocation, NsCmdError>)
    ensures
        r is Ok <==> command@.len() > 0,
        command@.len() == 0 ==> r == Err::<Invocation, NsCmdError>(NsCmdError::Usage),
        r matches Ok(inv) ==> inv.program@ == command.deep_view()[0] && inv.args.deep_view()
            =~= command.deep_view().subrange(1, command@.len() as int),
{
    if command.len() == 0 {
        return Err(NsCmdError::Usage);
    }
    let program = command[0].clone();
    let mut args: Vec<String> = Vec::new();
    let mut i: usize = 1;
    while i < command.len()
        invariant
            1 <= i <= command@.len(),
            args@.len() == i - 1,
            forall|j: int| 0 <= j < args@.len() ==> #[trigger] args@[j]@ == command.deep_view()[j
                + 1],
        decreases command@.len() - i,
    {
        args.push(command[i].clone());
        i = i + 1;
    }
    proof {
        assert(args.deep_view() =~= command.deep_view().subrange(1, command@.len() as int));
    }
    Ok(Invocation { program, args })
}

/// Map the child's termination to this process's outcome: a child that
/// exited with a code hands that code on verbatim; a child terminated by a
/// signal, which has no code, is a distinct error.
pub fn interpret_exit(code: Option<i32>) -> (r: Result<i32, NsCmdError>)
    ensures
        code matches Some(c) ==> r == Ok::<i32, NsCmdError>(c),
        code is None ==> r == Err::<i32, NsCmdError>(NsCmdError::Signal),
{
    match code {
        Some(c) => Ok(c),
        None => Err(NsCmdError::Signal),
    }
}

} // verus!
