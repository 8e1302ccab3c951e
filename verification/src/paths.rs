//! Filesystem paths. The library reads no path: it carries paths through and
//! extends them by a name, and speaks of an extended path by the name
//! `joined`.

use std::path::PathBuf;
use vstd::prelude::*;

verus! {

/// An owned filesystem path of the standard library.
#[verifier::external_type_specification]
#[verifier::external_body]
pub struct ExPathBuf(PathBuf);

/// Name of the directory that holds everything this tool keeps.
pub const HOME_DIR: &'static str = "rookup";

/// Name of the directory, inside the home, that holds the toolchains.
pub const TOOLCHAINS_DIR: &'static str = "toolchains";

/// Name of the configuration file inside the configuration home.
pub const CONFIG_FILE: &'static str = "config.toml";

/// The path `base` extended by `name`: what `PathBuf::push` makes of the
/// two.
pub uninterp spec fn joined(base: PathBuf, name: Seq<char>) -> PathBuf;

/// `PathBuf::push`: `base` extended by `name`, as `joined` names it.
#[verifier::external_body]
pub(crate) fn path_join(base: PathBuf, name: &str) -> (r: PathBuf)
    ensures
        r == joined(base, name@),
{
    let mut path = base;
    path.push(name);
    path
}

/// `PathBuf::clone`: a second copy of `path`.
pub assume_specification[ <PathBuf as Clone>::clone ](path: &PathBuf) -> (r: PathBuf)
    ensures
        r == *path,
;

/// The toolchain directory below the base directory `base`:
/// `<base>/rookup/toolchains`.
pub open spec fn toolchains_in(base: PathBuf) -> PathBuf {
    joined(joined(base, HOME_DIR@), TOOLCHAINS_DIR@)
}

/// The configuration file below the base directory `base`:
/// `<base>/rookup/config.toml`.
pub open spec fn config_file_in(base: PathBuf) -> PathBuf {
    joined(joined(base, HOME_DIR@), CONFIG_FILE@)
}

/// The base directory that is used: the explicit override if there is one,
/// the platform's directory otherwise.
pub open spec fn base_of(override_dir: Option<PathBuf>, platform_dir: Option<PathBuf>) -> Option<
    PathBuf,
> {
    match override_dir {
        Some(base) => Some(base),
        None => platform_dir,
    }
}

/// The home directory of this tool inside `parent_dir`.
pub fn home(parent_dir: PathBuf) -> (r: PathBuf)
    ensures
        r == joined(parent_dir, HOME_DIR@),
{
    path_join(parent_dir, HOME_DIR)
}

/// The configuration file inside the configuration home.
pub fn config_file_path(config_home: PathBuf) -> (r: PathBuf)
    ensures
        r == joined(config_home, CONFIG_FILE@),
{
    path_join(config_home, CONFIG_FILE)
}

/// The toolchain directory inside a home directory.
pub fn toolchain_home_path(home: PathBuf) -> (r: PathBuf)
    ensures
        r == joined(home, TOOLCHAINS_DIR@),
{
    path_join(home, TOOLCHAINS_DIR)
}

/// The directory `<base>/rookup/toolchains`, where `base` is the explicit
/// override if there is one and the platform's directory otherwise.
fn toolchains_below(override_dir: Option<PathBuf>, platform_dir: Option<PathBuf>) -> (r: Option<
    PathBuf,
>)
    ensures
        r == match base_of(override_dir, platform_dir) {
            Some(base) => Some(toolchains_in(base)),
            None => None,
        },
{
    match override_dir {
        Some(base) => Some(toolchain_home_path(home(base))),
        None => match platform_dir {
            Some(base) => Some(toolchain_home_path(home(base))),
            None => None,
        },
    }
}

/// The cached toolchain home: `<base>/rookup/toolchains`, where `base` is
/// the explicit override if there is one and the platform's cache directory
/// otherwise. `None` where neither is known.
pub fn toolchain_home(override_dir: Option<PathBuf>, cache_dir: Option<PathBuf>) -> (r: Option<
    PathBuf,
>)
    ensures
        r == match base_of(override_dir, cache_dir) {
            Some(base) => Some(toolchains_in(base)),
            None => None,
        },
{
    toolchains_below(override_dir, cache_dir)
}

/// The custom toolchain home: `<base>/rookup/toolchains`, where `base` is
/// the explicit override if there is one and the platform's data directory
/// otherwise. `None` where neither is known.
pub fn custom_toolchain_home(override_dir: Option<PathBuf>, data_dir: Option<PathBuf>) -> (r:
    Option<PathBuf>)
    ensures
        r == match base_of(override_dir, data_dir) {
            Some(base) => Some(toolchains_in(base)),
            None => None,
        },
{
    toolchains_below(override_dir, data_dir)
}

/// The configuration file: `<base>/rookup/config.toml`, where `base` is the
/// explicit override if there is one and the platform's configuration
/// directory otherwise. `None` where neither is known.
pub fn config_path(override_dir: Option<PathBuf>, config_dir: Option<PathBuf>) -> (r: Option<
    PathBuf,
>)
    ensures
        r == match base_of(override_dir, config_dir) {
            Some(base) => Some(config_file_in(base)),
            None => None,
        },
{
    match override_dir {
        Some(base) => Some(config_file_path(home(base))),
        None => match config_dir {
            Some(base) => Some(config_file_path(home(base))),
            None => None,
        },
    }
}

} // verus!
