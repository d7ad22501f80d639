//! Which branch is checked out, and which branch a pull request is made
//! from.

use crate::run_cmd::{Cmd, CmdView};
use crate::text::{same_text, trim, trimmed};
use vstd::prelude::*;
use vstd::string::*;

verus! {

/// The command `git rev-parse --abbrev-ref HEAD`, its output kept from the
/// terminal: it prints the branch that is checked out.
pub open spec fn current_branch_command() -> CmdView {
    CmdView {
        name: "git"@,
        args: seq!["rev-parse"@, "--abbrev-ref"@, "HEAD"@],
        current_dir: None,
        hide_stdout: true,
    }
}

/// The command `gh pr view <pr> --json headRefName -q .headRefName`, its
/// output kept from the terminal: it prints the branch of the pull request.
pub open spec fn pr_branch_command(pr: Seq<char>) -> CmdView {
    CmdView {
        name: "gh"@,
        args: seq!["pr"@, "view"@, pr, "--json"@, "headRefName"@, "-q"@, ".headRefName"@],
        current_dir: None,
        hide_stdout: true,
    }
}

/// The command that prints the branch that is checked out.
pub fn get_current_branch() -> (r: Cmd)
    ensures
        r@ == current_branch_command(),
{
    let args = ["rev-parse", "--abbrev-ref", "HEAD"];
    let mut cmd = Cmd::new("git", args.as_slice());
    proof {
        assert(cmd@.args =~= current_branch_command().args);
    }
    cmd.hide_stdout();
    cmd
}

/// The command that prints the branch of pull request `pr`.
pub fn get_pr_branch(pr: &str) -> (r: Cmd)
    ensures
        r@ == pr_branch_command(pr@),
{
    let args = ["pr", "view", pr, "--json", "headRefName", "-q", ".headRefName"];
    let mut cmd = Cmd::new("gh", args.as_slice());
    proof {
        assert(cmd@.args =~= pr_branch_command(pr@).args);
    }
    cmd.hide_stdout();
    cmd
}

/// Whether the branch that is checked out is the branch of the pull
/// request, given what [`get_current_branch`] and [`get_pr_branch`]
/// printed. The names are compared without the whitespace around them.
pub fn assert_current_branch_is_same_as_pr(current_branch: &str, pr_branch: &str) -> (r: bool)
    ensures
        r == (trimmed(current_branch@) == trimmed(pr_branch@)),
{
    same_text(trim(current_branch), trim(pr_branch))
}

} // verus!
