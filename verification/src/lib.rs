//! Planning core of a multi-account infrastructure toolkit: the module
//! dependency graph, the grouping of directories by engine and account, and
//! the ordered schedule of credentialed operations.

pub mod args;
pub mod aws;
pub mod clipboard;
pub mod cmd_runner;
pub mod config;
pub mod credentials;
pub mod dependency;
pub mod dir;
pub mod git;
pub mod graph;
pub mod graph_cmd;
pub mod graph_laws;
pub mod graph_store;
pub mod grouped_dirs;
pub mod grouping_laws;
pub mod legacy_login;
pub mod lockfile;
pub mod orchestrator;
pub mod order_laws;
pub mod path;
pub mod plan_pr;
pub mod provider;
pub mod provider_text;
pub mod run_cmd;
pub mod scan;
pub mod schedule_laws;
pub mod secret;
pub mod select;
pub mod session;
pub mod terragrunt;
pub mod text;
pub mod upgrade;
pub mod upgrade_provider;
pub mod version;
