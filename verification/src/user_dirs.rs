//! The directories of the current user, as the `dirs` crate finds them.

use vstd::prelude::*;

verus! {

/// Calls `dirs::home_dir` and hands on the bytes of the path it found.
///
/// Trusted, not proved: the answer depends on `$HOME` and on the user
/// database, so nothing is said of which directory comes back, or whether
/// one does. What is claimed is that a path that comes back is not
/// empty: `dirs` takes `$HOME` only where it is set and not empty, and else
/// the home directory field of the user's entry only where that is not
/// empty.
#[verifier::external_body]
pub(crate) fn home_dir() -> (r: Option<Vec<u8>>)
    ensures
        r matches Some(dir) ==> dir@.len() > 0,
{
    match dirs::home_dir() {
        Some(dir) => Some(dir.into_os_string().into_encoded_bytes()),
        None => None,
    }
}

/// Calls `dirs::config_dir` and hands on the bytes of the path it found.
///
/// Trusted, not proved: the answer depends on `$XDG_CONFIG_HOME` and on
/// the home directory, so nothing is said of which directory comes back,
/// or whether one does. What is
/// claimed is that a path that comes back is not empty: `dirs` takes
/// `$XDG_CONFIG_HOME` only where it holds an absolute path, and else a
/// fixed directory below the home directory.
#[verifier::external_body]
pub(crate) fn config_dir() -> (r: Option<Vec<u8>>)
    ensures
        r matches Some(dir) ==> dir@.len() > 0,
{
    match dirs::config_dir() {
        Some(dir) => Some(dir.into_os_string().into_encoded_bytes()),
        None => None,
    }
}

} // verus!
