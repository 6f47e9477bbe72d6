//! Where the repository is, and where the file that says so is kept.

use vstd::prelude::*;
use vstd::string::StringSliceAdditionalSpecFns;
use crate::error::Error;
use crate::path::{join, joined};
use crate::tilde::{expand_tilde, expand_tilde_in, expanded, is_expansion};
use crate::user_dirs::config_dir;

verus! {

/// The settings of a run.
#[derive(Debug, PartialEq, Eq)]
pub struct Config {
    /// The directory that files are moved into, with no `~` left to expand.
    pub repo_dir: Vec<u8>,
}

/// The name of the configuration file.
pub open spec fn file_name() -> &'static str {
    "dotrepo.toml"
}

/// The path of the configuration file in the configuration directory
/// `dir`.
pub open spec fn config_file_at(dir: Seq<u8>) -> Seq<u8> {
    joined(dir, file_name().spec_bytes())
}

/// The path of the configuration file in the configuration directory
/// `dir`.
pub fn config_file_in(dir: &[u8]) -> (out: Vec<u8>)
    ensures
        out@ == config_file_at(dir@),
{
    join(dir, "dotrepo.toml".as_bytes())
}

/// The path of the configuration file of the current user: the file of the
/// fixed name in the user's configuration directory, and `NoConfigDir`
/// where no such directory can be found.
pub fn config_file() -> (r: Result<Vec<u8>, Error>)
    ensures
        r matches Ok(out) ==> exists|dir: Seq<u8>|
            dir.len() > 0 && out@ == #[trigger] config_file_at(dir),
        r matches Err(e) ==> e == Error::NoConfigDir,
{
    match config_dir() {
        Some(dir) => {
            let out = config_file_in(dir.as_slice());
            assert(out@ == config_file_at(dir@));
            Ok(out)
        },
        None => Err(Error::NoConfigDir),
    }
}

impl Config {
    /// The settings for the repository directory `repo_dir` as the
    /// configuration file gives it, with a leading `~` replaced by the
    /// directory `home`. There are none where the `~` cannot be replaced.
    pub fn resolve_in(repo_dir: &[u8], home: Option<&[u8]>) -> (r: Option<Config>)
        ensures
            r matches Some(config) ==> expanded(
                repo_dir@,
                match home {
                    Some(dir) => Some(dir@),
                    None => None,
                },
            ) == Some(config.repo_dir@),
            r is None ==> expanded(
                repo_dir@,
                match home {
                    Some(dir) => Some(dir@),
                    None => None,
                },
            ) is None,
    {
        match expand_tilde_in(repo_dir, home) {
            Some(dir) => Some(Config { repo_dir: dir }),
            None => None,
        }
    }

    /// The settings for the repository directory `repo_dir` as the
    /// configuration file gives it, with a leading `~` replaced by the home
    /// directory of the current user.
    pub fn resolve(repo_dir: &[u8]) -> (r: Option<Config>)
        ensures
            is_expansion(
                repo_dir@,
                match r {
                    Some(config) => Some(config.repo_dir@),
                    None => None,
                },
            ),
    {
        match expand_tilde(repo_dir) {
            Some(dir) => Some(Config { repo_dir: dir }),
            None => None,
        }
    }
}

} // verus!
