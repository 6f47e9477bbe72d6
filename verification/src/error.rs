//! What can go wrong.

use vstd::prelude::*;

verus! {

/// The failures that end a run.
#[derive(Debug, PartialEq, Eq)]
pub enum Error {
    /// No configuration directory can be found for the current user.
    NoConfigDir,
    /// The configuration file cannot be read, or does not hold what it
    /// should; the text says which.
    Config(String),
    /// A call into the file system failed; the text is the system's own.
    Io(String),
    /// Two paths share no ancestor: one hangs from the root and the other
    /// does not.
    NoCommonAncestor,
}

impl Error {
    /// The failure in words: the text it carries, or a fixed sentence where
    /// it carries none.
    pub open spec fn text(self) -> Seq<char> {
        match self {
            Error::NoConfigDir => "Failed to obtain the user's config directory"@,
            Error::Config(text) => text@,
            Error::Io(text) => text@,
            Error::NoCommonAncestor => "base cannot be a prefix of target"@,
        }
    }

    /// The failure in words.
    pub fn message(&self) -> (r: String)
        ensures
            r@ == self.text(),
    {
        match self {
            Error::NoConfigDir => "Failed to obtain the user's config directory".to_owned(),
            Error::Config(text) => text.clone(),
            Error::Io(text) => text.clone(),
            Error::NoCommonAncestor => "base cannot be a prefix of target".to_owned(),
        }
    }
}

} // verus!
