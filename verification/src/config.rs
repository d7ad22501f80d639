//! The configuration of the tool.

use crate::path::{join, path_join};
use vstd::prelude::*;
use vstd::string::*;

verus! {

/// The name of the configuration file in the configuration directory.
pub const CONFIG_FILE: &'static str = "config.toml";

/// The configuration.
#[derive(Debug)]
pub struct Config {
    /// ITEM ID for 1Password aws legacy account
    pub op_legacy_item_id: Option<String>,
}

/// The mathematical value of a [`Config`].
pub ghost struct ConfigView {
    pub op_legacy_item_id: Option<Seq<char>>,
}

impl View for Config {
    type V = ConfigView;

    open spec fn view(&self) -> ConfigView {
        ConfigView {
            op_legacy_item_id: match self.op_legacy_item_id {
                Some(id) => Some(id@),
                None => None,
            },
        }
    }
}

impl Default for Config {
    fn default() -> (r: Config)
        ensures
            r@ == (ConfigView { op_legacy_item_id: None }),
    {
        Config { op_legacy_item_id: None }
    }
}

/// Why there is no configuration: the file at `file` could not be read as
/// one, for the reason in `cause`.
#[derive(Debug)]
pub struct ConfigError {
    pub file: String,
    pub cause: String,
}

/// The path of the configuration file in `config_dir`.
pub fn config_file(config_dir: &str) -> (r: String)
    ensures
        r@ == path_join(config_dir@, "config.toml"@),
{
    join(config_dir, CONFIG_FILE)
}

/// The configuration that is in force, given what came of reading the file
/// at `config_file`: `None` where there is no such file, else the
/// configuration read from it or the reason why it could not be read.
///
/// Without a file the default configuration is in force. A file that
/// cannot be read as a configuration is an error, which names the file.
pub fn parse_config(config_file: &str, loaded: Option<Result<Config, String>>) -> (r: Result<
    Config,
    ConfigError,
>)
    ensures
        match loaded {
            None => r is Ok && r->Ok_0@ == (ConfigView { op_legacy_item_id: None }),
            Some(Ok(config)) => r is Ok && r->Ok_0 == config,
            Some(Err(cause)) => r is Err && r->Err_0.file@ == config_file@ && r->Err_0.cause
                == cause,
        },
{
    match loaded {
        None => Ok(Config::default()),
        Some(Ok(config)) => Ok(config),
        Some(Err(cause)) => Err(ConfigError { file: String::from_str(config_file), cause }),
    }
}

/// The directory that holds the configuration, for the user whose home is
/// `home_dir`: `.config/infratk` under the home. The first path of the
/// pair is the directory above it, which may have to be made first.
pub fn create_config_dir(home_dir: &str) -> (r: (String, String))
    ensures
        r.0@ == path_join(home_dir@, ".config"@),
        r.1@ == path_join(path_join(home_dir@, ".config"@), "infratk"@),
{
    let config_dir = join(home_dir, ".config");
    let infratk_dir = join(config_dir.as_str(), "infratk");
    (config_dir, infratk_dir)
}

/// The configuration that a new configuration file starts with, or `None`
/// where the file is there already: an empty identifier to fill in.
pub fn create_default_config(file_exists: bool) -> (r: Option<Config>)
    ensures
        r.is_some() == !file_exists,
        r.is_some() ==> r.unwrap()@ == (ConfigView { op_legacy_item_id: Some(Seq::empty()) }),
{
    if file_exists {
        None
    } else {
        Some(Config { op_legacy_item_id: Some(String::new()) })
    }
}

} // verus!
