//! A dotfile backup engine: a content-addressed store, an index of what was
//! backed up, the reconciliation of the disk against it, and restore.
pub mod backup;
pub mod config;
pub mod index;
pub mod paths;
pub mod restore;
pub mod scanner;
pub mod status;
pub mod store;
pub mod tui;

use crate::config::{expand_spec, Config};
use crate::paths::{join_path, join_spec, opt_str, opt_string, opt_text};
use vstd::prelude::*;

verus! {

/// A directory that the system could not name.
#[derive(Clone, Copy, Debug, PartialEq, Eq, Structural)]
pub enum LocationError {
    NoConfigDir,
    NoDataDir,
    NoHomeDir,
}

/// The directories that the system names for this user, read once and then
/// handed to every call that needs them.
#[derive(Clone, Debug)]
pub struct Locations {
    pub home: Option<String>,
    /// The per-user configuration directory.
    pub config_base: Option<String>,
    /// The per-user local data directory.
    pub data_base: Option<String>,
}

/// Relies on dirs::home_dir: the user's home directory, where one is known.
#[verifier::external_body]
fn system_home_dir() -> (r: Option<String>) {
    dirs::home_dir().map(|p| p.to_string_lossy().into_owned())
}

/// Relies on dirs::config_dir: the user's configuration directory, where one is known.
#[verifier::external_body]
fn system_config_dir() -> (r: Option<String>) {
    dirs::config_dir().map(|p| p.to_string_lossy().into_owned())
}

/// Relies on dirs::data_local_dir: the user's local data directory, where one is known.
#[verifier::external_body]
fn system_data_local_dir() -> (r: Option<String>) {
    dirs::data_local_dir().map(|p| p.to_string_lossy().into_owned())
}

impl Locations {
    /// The directories as the system names them now.
    pub fn from_system() -> (r: Locations) {
        Locations {
            home: system_home_dir(),
            config_base: system_config_dir(),
            data_base: system_data_local_dir(),
        }
    }

    /// The home directory, borrowed.
    pub fn home(&self) -> (r: Option<&str>)
        ensures
            opt_text(r) == opt_string(self.home),
    {
        opt_str(&self.home)
    }
}

pub open spec fn app_dir_name() -> Seq<char> {
    "dotmatrix"@
}

pub open spec fn under_base(base: Option<String>, missing: LocationError) -> Result<
    Seq<char>,
    LocationError,
> {
    match base {
        Some(b) => Ok(join_spec(b@, app_dir_name())),
        None => Err(missing),
    }
}

pub open spec fn config_dir_spec(ctx: Locations) -> Result<Seq<char>, LocationError> {
    under_base(ctx.config_base, LocationError::NoConfigDir)
}

pub open spec fn default_data_dir_spec(ctx: Locations) -> Result<Seq<char>, LocationError> {
    under_base(ctx.data_base, LocationError::NoDataDir)
}

/// The data directory: the configured one, with `~` expanded, or the default.
pub open spec fn data_dir_spec(ctx: Locations, config: Option<Config>) -> Result<
    Seq<char>,
    LocationError,
> {
    match config {
        Some(c) => match c.data_dir {
            Some(d) => Ok(expand_spec(d@, opt_string(ctx.home))),
            None => default_data_dir_spec(ctx),
        },
        None => default_data_dir_spec(ctx),
    }
}

pub open spec fn child_spec(r: Result<Seq<char>, LocationError>, name: Seq<char>) -> Result<
    Seq<char>,
    LocationError,
> {
    match r {
        Ok(d) => Ok(join_spec(d, name)),
        Err(e) => Err(e),
    }
}

pub open spec fn res_text(r: Result<String, LocationError>) -> Result<Seq<char>, LocationError> {
    match r {
        Ok(s) => Ok(s@),
        Err(e) => Err(e),
    }
}

fn app_dir_under(base: &Option<String>, missing: LocationError) -> (r: Result<String, LocationError>)
    ensures
        res_text(r) == under_base(*base, missing),
{
    match base {
        Some(b) => {
            let r = join_path(b.as_str(), "dotmatrix");
            Ok(r)
        },
        None => Err(missing),
    }
}

fn child(r: Result<String, LocationError>, name: &str) -> (out: Result<String, LocationError>)
    ensures
        res_text(out) == child_spec(res_text(r), name@),
{
    match r {
        Ok(d) => Ok(join_path(d.as_str(), name)),
        Err(e) => Err(e),
    }
}

/// The configuration directory: `dotmatrix` under the user's configuration directory.
pub fn get_config_dir(ctx: &Locations) -> (r: Result<String, LocationError>)
    ensures
        res_text(r) == config_dir_spec(*ctx),
{
    app_dir_under(&ctx.config_base, LocationError::NoConfigDir)
}

/// The data directory used where the configuration names none.
pub fn get_default_data_dir(ctx: &Locations) -> (r: Result<String, LocationError>)
    ensures
        res_text(r) == default_data_dir_spec(*ctx),
{
    app_dir_under(&ctx.data_base, LocationError::NoDataDir)
}

/// The data directory, given the configuration as it was loaded from disk
/// (`None` where there is none, or it could not be read).
pub fn get_data_dir(ctx: &Locations, loaded: Option<&Config>) -> (r: Result<String, LocationError>)
    ensures
        res_text(r) == data_dir_spec(*ctx, match loaded {
            Some(c) => Some(*c),
            None => None,
        }),
{
    match loaded {
        Some(c) => get_data_dir_with_config(ctx, c),
        None => get_default_data_dir(ctx),
    }
}

/// The data directory that `config` chooses.
pub fn get_data_dir_with_config(ctx: &Locations, config: &Config) -> (r: Result<
    String,
    LocationError,
>)
    ensures
        res_text(r) == data_dir_spec(*ctx, Some(*config)),
{
    match config.get_data_dir(ctx.home()) {
        Some(d) => Ok(d),
        None => get_default_data_dir(ctx),
    }
}

/// The configuration file.
pub fn get_config_path(ctx: &Locations) -> (r: Result<String, LocationError>)
    ensures
        res_text(r) == child_spec(config_dir_spec(*ctx), "config.toml"@),
{
    child(get_config_dir(ctx), "config.toml")
}

/// The index file, given the configuration as loaded.
pub fn get_index_path(ctx: &Locations, loaded: Option<&Config>) -> (r: Result<String, LocationError>)
    ensures
        res_text(r) == child_spec(data_dir_spec(*ctx, match loaded {
            Some(c) => Some(*c),
            None => None,
        }), "index.json"@),
{
    child(get_data_dir(ctx, loaded), "index.json")
}

/// The index file that `config` chooses.
pub fn get_index_path_with_config(ctx: &Locations, config: &Config) -> (r: Result<
    String,
    LocationError,
>)
    ensures
        res_text(r) == child_spec(data_dir_spec(*ctx, Some(*config)), "index.json"@),
{
    child(get_data_dir_with_config(ctx, config), "index.json")
}

/// The content store's root, given the configuration as loaded.
pub fn get_storage_path(ctx: &Locations, loaded: Option<&Config>) -> (r: Result<
    String,
    LocationError,
>)
    ensures
        res_text(r) == child_spec(data_dir_spec(*ctx, match loaded {
            Some(c) => Some(*c),
            None => None,
        }), "storage"@),
{
    child(get_data_dir(ctx, loaded), "storage")
}

/// The content store's root that `config` chooses.
pub fn get_storage_path_with_config(ctx: &Locations, config: &Config) -> (r: Result<
    String,
    LocationError,
>)
    ensures
        res_text(r) == child_spec(data_dir_spec(*ctx, Some(*config)), "storage"@),
{
    child(get_data_dir_with_config(ctx, config), "storage")
}

/// The archives directory, given the configuration as loaded.
pub fn get_archives_path(ctx: &Locations, loaded: Option<&Config>) -> (r: Result<
    String,
    LocationError,
>)
    ensures
        res_text(r) == child_spec(data_dir_spec(*ctx, match loaded {
            Some(c) => Some(*c),
            None => None,
        }), "archives"@),
{
    child(get_data_dir(ctx, loaded), "archives")
}

/// The archives directory that `config` chooses.
pub fn get_archives_path_with_config(ctx: &Locations, config: &Config) -> (r: Result<
    String,
    LocationError,
>)
    ensures
        res_text(r) == child_spec(data_dir_spec(*ctx, Some(*config)), "archives"@),
{
    child(get_data_dir_with_config(ctx, config), "archives")
}

} // verus!
