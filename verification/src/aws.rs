//! The commands that log in to and out of the cloud accounts.

use crate::run_cmd::{Cmd, CmdView};
use crate::text::same_text;
use vstd::prelude::*;
use vstd::string::*;

verus! {

/// The profile that is logged in to for the account in `account_dir`: the
/// account's own name, but for `root`, whose profile is `rust-root`.
pub open spec fn profile_of(account_dir: Seq<char>) -> Seq<char> {
    if account_dir == "root"@ {
        "rust-root"@
    } else {
        account_dir
    }
}

/// The command `aws sso login --profile <profile>`.
pub open spec fn sso_login_command(account_dir: Seq<char>) -> CmdView {
    CmdView {
        name: "aws"@,
        args: seq!["sso"@, "login"@, "--profile"@, profile_of(account_dir)],
        current_dir: None,
        hide_stdout: false,
    }
}

/// The command `aws sso logout`.
pub open spec fn sso_logout_command() -> CmdView {
    CmdView { name: "aws"@, args: seq!["sso"@, "logout"@], current_dir: None, hide_stdout: false }
}

/// The command `python3 ./aws-creds.py`, which prints the credentials of
/// the legacy account.
pub open spec fn legacy_login_command() -> CmdView {
    CmdView { name: "python3"@, args: seq!["./aws-creds.py"@], current_dir: None, hide_stdout: false }
}

/// The command that logs in to the account in `account_dir`, which must
/// not be the legacy account: that one has no single sign-on.
pub fn sso_login(account_dir: &str) -> (r: Cmd)
    requires
        account_dir@ != "legacy"@,
    ensures
        r@ == sso_login_command(account_dir@),
{
    let account = if same_text(account_dir, "root") {
        "rust-root"
    } else {
        account_dir
    };
    let args = ["sso", "login", "--profile", account];
    let r = Cmd::new("aws", args.as_slice());
    proof {
        assert(r@.args =~= sso_login_command(account_dir@).args);
    }
    r
}

/// The command that ends the current session.
pub fn sso_logout() -> (r: Cmd)
    ensures
        r@ == sso_logout_command(),
{
    let args = ["sso", "logout"];
    let r = Cmd::new("aws", args.as_slice());
    proof {
        assert(r@.args =~= sso_logout_command().args);
    }
    r
}

/// The command that prints the credentials of the legacy account.
pub fn legacy_login() -> (r: Cmd)
    ensures
        r@ == legacy_login_command(),
{
    let args = ["./aws-creds.py"];
    let r = Cmd::new("python3", args.as_slice());
    proof {
        assert(r@.args =~= legacy_login_command().args);
    }
    r
}

/// The command that logs in to the account in `account_dir`: the legacy
/// login for `legacy`, single sign-on for every other account.
pub fn login(account_dir: &str) -> (r: Cmd)
    ensures
        r@ == if account_dir@ == "legacy"@ {
            legacy_login_command()
        } else {
            sso_login_command(account_dir@)
        },
{
    if same_text(account_dir, "legacy") {
        legacy_login()
    } else {
        sso_login(account_dir)
    }
}

} // verus!
