//! A leading `~` stands for the home directory of the current user.

use vstd::prelude::*;
use vstd::slice::{slice_subrange, slice_to_vec};
use crate::path::{
    is_absolute, join, joined, lemma_joined_relative, lemma_name_len_is, names, SEPARATOR,
};
use crate::user_dirs::home_dir;

verus! {

/// The byte `~`.
pub const TILDE: u8 = 126;

/// Whether the first name of `path` is `~`: the path is `~` alone, or `~`
/// and a separator open it. A `~` that opens a longer name, as in `~bob`,
/// does not count.
pub open spec fn has_tilde(path: Seq<u8>) -> bool {
    path.len() > 0 && path[0] == TILDE && (path.len() == 1 || path[1] == SEPARATOR)
}

/// `path` without the separators it begins with.
pub open spec fn trimmed(path: Seq<u8>) -> Seq<u8>
    decreases path.len(),
{
    if path.len() > 0 && path[0] == SEPARATOR {
        trimmed(path.skip(1))
    } else {
        path
    }
}

/// What stands behind a leading `~` and the separators that follow it.
pub open spec fn after_tilde(path: Seq<u8>) -> Seq<u8> {
    trimmed(path.skip(1))
}

/// `path` with a leading `~` replaced by the home directory.
///
/// A path whose first name is not `~` stays as it is. `~` alone is the home
/// directory as it was given. Else the result is what stands behind the
/// `~`, joined to the home directory, so that `~/` gives the home directory
/// with one separator at its end. Without a home directory there is no
/// result for a path that begins with `~`.
pub open spec fn expanded(path: Seq<u8>, home: Option<Seq<u8>>) -> Option<Seq<u8>> {
    if !has_tilde(path) {
        Some(path)
    } else if path.len() == 1 {
        home
    } else {
        match home {
            Some(dir) => Some(joined(dir, after_tilde(path))),
            None => None,
        }
    }
}

/// What `expand_tilde` may return for `path`: the path itself where it
/// does not begin with `~`; else nothing, or the expansion with some home
/// directory that is not empty.
pub open spec fn is_expansion(path: Seq<u8>, out: Option<Seq<u8>>) -> bool {
    if has_tilde(path) {
        out matches Some(found) ==> exists|home: Seq<u8>|
            home.len() > 0 && #[trigger] expanded(path, Some(home)) == Some(found)
    } else {
        out == Some(path)
    }
}

/// Trimming takes separators only, leaves none at the front, and keeps the
/// names.
pub proof fn lemma_trimmed(path: Seq<u8>)
    ensures
        !is_absolute(trimmed(path)),
        names(trimmed(path)) == names(path),
    decreases path.len(),
{
    if path.len() > 0 && path[0] == SEPARATOR {
        lemma_trimmed(path.skip(1));
        assert(names(path) == names(path.skip(1)));
    }
}

/// Expansion puts the names of the home directory in the place of the
/// first name, `~`, keeps the names behind it, and takes the root flag of
/// the home directory.
pub proof fn lemma_expanded_names(path: Seq<u8>, home: Seq<u8>)
    requires
        has_tilde(path),
    ensures
        names(path) == seq![seq![TILDE]] + names(path).skip(1),
        expanded(path, Some(home)) is Some,
        is_absolute(expanded(path, Some(home))->0) == is_absolute(home),
        names(expanded(path, Some(home))->0) == names(home) + names(path).skip(1),
{
    let rest = path.skip(1);
    lemma_name_len_is(path, 1);
    assert(path.take(1) =~= seq![TILDE]);
    assert(path.take(1)[0] == TILDE);
    assert(names(path) == seq![path.take(1)] + names(rest));
    assert(names(path).skip(1) =~= names(rest));
    assert(names(path) =~= seq![seq![TILDE]] + names(path).skip(1));
    if path.len() == 1 {
        assert(names(rest) =~= Seq::<Seq<u8>>::empty());
        assert(names(home) + names(rest) =~= names(home));
    } else {
        lemma_trimmed(rest);
        lemma_joined_relative(home, after_tilde(path));
    }
}

/// Whether the first name of `path` is `~`.
pub fn begins_with_tilde(path: &[u8]) -> (r: bool)
    ensures
        r == has_tilde(path@),
{
    path.len() > 0 && path[0] == TILDE && (path.len() == 1 || path[1] == SEPARATOR)
}

/// Replaces a leading `~` in `path` by the directory `home`.
pub fn expand_tilde_in(path: &[u8], home: Option<&[u8]>) -> (r: Option<Vec<u8>>)
    ensures
        r matches Some(out) ==> expanded(
            path@,
            match home {
                Some(dir) => Some(dir@),
                None => None,
            },
        ) == Some(out@),
        r is None ==> has_tilde(path@) && home is None,
{
    if !begins_with_tilde(path) {
        return Some(slice_to_vec(path));
    }
    match home {
        None => None,
        Some(dir) => {
            if path.len() == 1 {
                return Some(slice_to_vec(dir));
            }
            let mut i: usize = 1;
            while i < path.len() && path[i] == SEPARATOR
                invariant
                    1 <= i <= path.len(),
                    trimmed(path@.skip(1)) == trimmed(path@.skip(i as int)),
                decreases path.len() - i,
            {
                assert(path@.skip(i as int).skip(1) =~= path@.skip(i + 1));
                i += 1;
            }
            let rest = slice_subrange(path, i, path.len());
            assert(rest@ =~= path@.skip(i as int));
            Some(join(dir, rest))
        },
    }
}

/// Replaces a leading `~` in `path` by the home directory of the current
/// user. A path that does not begin with `~` comes back as it is, whether a
/// home directory can be found or not; one that does has no expansion
/// where none can be found.
pub fn expand_tilde(path: &[u8]) -> (r: Option<Vec<u8>>)
    ensures
        is_expansion(
            path@,
            match r {
                Some(out) => Some(out@),
                None => None,
            },
        ),
{
    if !begins_with_tilde(path) {
        return Some(slice_to_vec(path));
    }
    match home_dir() {
        Some(dir) => {
            let r = expand_tilde_in(path, Some(dir.as_slice()));
            assert(r matches Some(out) && expanded(path@, Some(dir@)) == Some(out@));
            r
        },
        None => None,
    }
}

} // verus!
