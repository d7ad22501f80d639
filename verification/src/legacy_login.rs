//! Logging in to the legacy account.

use crate::aws::{legacy_login, legacy_login_command};
use crate::config::Config;
use crate::run_cmd::Cmd;
use vstd::prelude::*;

verus! {

/// The command that takes on the credentials of the legacy account. The
/// credentials script asks nothing of the configuration.
pub fn login_to_legacy_aws_account(config: &Config) -> (r: Cmd)
    ensures
        r@ == legacy_login_command(),
{
    legacy_login()
}

} // verus!
