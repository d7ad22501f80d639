//! What the command line asks for.

use vstd::prelude::*;

verus! {

/// The arguments of the program.
#[derive(Debug)]
pub struct CliArgs {
    pub command: Command,
}

/// What to do.
#[derive(Debug)]
pub enum Command {
    /// Upgrade terragrunt states or Terraform modules.
    Upgrade(UpgradeArgs),
    /// Given a PR, run terragrunt/terraform plan on every module that changed.
    PlanPr(PlanPr),
    /// Select a provider and upgrade all lockfiles.
    UpgradeProvider,
    /// Create default configuration and print its path.
    Config,
    /// Login to the AWS legacy account.
    LegacyLogin,
    /// Get the graph of the terraform modules to see how they depend on each other.
    Graph(GraphArgs),
}

/// What the upgrade asks for.
#[derive(Debug)]
pub struct UpgradeArgs {
    /// If true, copy the output to the clipboard.
    pub clipboard: bool,
}

/// What the planning of a pull request asks for.
#[derive(Debug)]
pub struct PlanPr {
    /// PR Number OR URL OR Branch.
    pub pr: String,
    /// If true, copy the output to the clipboard.
    pub clipboard: bool,
}

/// What the graph asks for.
#[derive(Debug)]
pub struct GraphArgs {
    /// If true, copy the graphviz output to the clipboard.
    pub clipboard: bool,
    /// Check for outdated providers and show them in the graph.
    pub outdated: bool,
}

} // verus!
