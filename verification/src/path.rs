//! Paths as byte strings, read as a root flag and a list of names.

use vstd::prelude::*;

verus! {

/// The byte that separates names: `/`.
pub const SEPARATOR: u8 = 47;

/// The byte `.`.
pub const DOT: u8 = 46;

/// A path is absolute when it begins with a separator.
pub open spec fn is_absolute(path: Seq<u8>) -> bool {
    path.len() > 0 && path[0] == SEPARATOR
}

/// The name `.`, which stands for the directory it is found in.
pub open spec fn current_dir() -> Seq<u8> {
    seq![DOT]
}

/// The name `..`, which stands for the parent directory.
pub open spec fn parent_dir() -> Seq<u8> {
    seq![DOT, DOT]
}

/// What a path may hold between two separators and counts as a step:
/// at least one byte, no separator, and not `.`.
pub open spec fn is_name(name: Seq<u8>) -> bool {
    &&& name.len() > 0
    &&& forall|i: int| 0 <= i < name.len() ==> name[i] != SEPARATOR
    &&& name != current_dir()
}

/// How many bytes stand before the first separator of `path`.
pub open spec fn name_len(path: Seq<u8>) -> nat
    decreases path.len(),
{
    if path.len() == 0 || path[0] == SEPARATOR {
        0
    } else {
        1 + name_len(path.skip(1))
    }
}

/// `name_len` stays within the path, finds no separator before it, and stops
/// at a separator or at the end.
pub proof fn lemma_name_len(path: Seq<u8>)
    ensures
        name_len(path) <= path.len(),
        forall|i: int| 0 <= i < name_len(path) ==> path[i] != SEPARATOR,
        name_len(path) < path.len() ==> path[name_len(path) as int] == SEPARATOR,
        path.len() > 0 && path[0] != SEPARATOR ==> name_len(path) > 0,
    decreases path.len(),
{
    if path.len() == 0 || path[0] == SEPARATOR {
    } else {
        let rest = path.skip(1);
        lemma_name_len(rest);
        assert forall|i: int| 0 <= i < name_len(path) implies path[i] != SEPARATOR by {
            if i > 0 {
                assert(path[i] == rest[i - 1]);
            }
        }
        if name_len(path) < path.len() {
            assert(path[name_len(path) as int] == rest[name_len(rest) as int]);
        }
    }
}

/// The names of a path, in order. Separators may repeat and may end the
/// path; an empty stretch between two of them is no name, and neither is `.`.
pub open spec fn names(path: Seq<u8>) -> Seq<Seq<u8>>
    decreases path.len(),
{
    if path.len() == 0 {
        Seq::empty()
    } else if path[0] == SEPARATOR {
        names(path.skip(1))
    } else {
        proof {
            lemma_name_len(path);
        }
        let first = path.take(name_len(path) as int);
        let rest = names(path.skip(name_len(path) as int));
        if first == current_dir() {
            rest
        } else {
            seq![first] + rest
        }
    }
}

/// A stretch of `n` bytes without a separator, closed by a separator or by
/// the end of the path, is the path's first stretch.
pub proof fn lemma_name_len_is(path: Seq<u8>, n: int)
    requires
        0 <= n <= path.len(),
        forall|i: int| 0 <= i < n ==> path[i] != SEPARATOR,
        n < path.len() ==> path[n] == SEPARATOR,
    ensures
        name_len(path) == n,
    decreases n,
{
    if n > 0 {
        let rest = path.skip(1);
        assert forall|i: int| 0 <= i < n - 1 implies rest[i] != SEPARATOR by {
            assert(rest[i] == path[i + 1]);
        }
        lemma_name_len_is(rest, n - 1);
    }
}

/// The views of a list of byte vectors.
pub open spec fn views(list: Seq<Vec<u8>>) -> Seq<Seq<u8>> {
    list.map_values(|name: Vec<u8>| name@)
}

/// Every name of a path is a name: not empty, free of separators, not `.`.
pub proof fn lemma_names_are_names(path: Seq<u8>)
    ensures
        forall|i: int| 0 <= i < names(path).len() ==> is_name(#[trigger] names(path)[i]),
    decreases path.len(),
{
    if path.len() == 0 {
        assert(names(path).len() == 0);
    } else if path[0] == SEPARATOR {
        lemma_names_are_names(path.skip(1));
        assert(names(path) == names(path.skip(1)));
    } else {
        lemma_name_len(path);
        let first = path.take(name_len(path) as int);
        let rest = names(path.skip(name_len(path) as int));
        lemma_names_are_names(path.skip(name_len(path) as int));
        if first == current_dir() {
            assert(names(path) == rest);
        } else {
            assert(names(path) == seq![first] + rest);
            assert(is_name(first));
            assert forall|i: int| 0 <= i < names(path).len() implies is_name(
                #[trigger] names(path)[i],
            ) by {
                if i > 0 {
                    assert(names(path)[i] == rest[i - 1]);
                } else {
                    assert(names(path)[i] == first);
                }
            }
        }
    }
}

/// A path cut in two at a separator, or at its own end, has the names of
/// the first part and then those of the second.
pub proof fn lemma_names_concat(a: Seq<u8>, b: Seq<u8>)
    requires
        a.len() == 0 || a.last() == SEPARATOR || b.len() == 0 || b[0] == SEPARATOR,
    ensures
        names(a + b) == names(a) + names(b),
    decreases a.len(),
{
    let whole = a + b;
    if a.len() == 0 {
        assert(whole =~= b);
        assert(names(a) + names(b) =~= names(b));
    } else if a[0] == SEPARATOR {
        assert(whole.skip(1) =~= a.skip(1) + b);
        if a.len() > 1 {
            assert(a.skip(1).last() == a.last());
        }
        lemma_names_concat(a.skip(1), b);
    } else {
        lemma_name_len(a);
        let n = name_len(a) as int;
        assert forall|i: int| 0 <= i < n implies whole[i] != SEPARATOR by {
            assert(whole[i] == a[i]);
        }
        if n < a.len() {
            assert(whole[n] == a[n]);
        } else if b.len() > 0 {
            assert(whole[n] == b[0]);
        }
        lemma_name_len_is(whole, n);
        assert(whole.take(n) =~= a.take(n));
        assert(whole.skip(n) =~= a.skip(n) + b);
        if n < a.len() {
            assert(a.skip(n).last() == a.last());
        }
        lemma_names_concat(a.skip(n), b);
        let first = a.take(n);
        if first == current_dir() {
        } else {
            assert(seq![first] + (names(a.skip(n)) + names(b)) =~= (seq![first] + names(a.skip(n)))
                + names(b));
        }
    }
}

/// A name alone is a path of one name.
pub proof fn lemma_names_of_name(name: Seq<u8>)
    requires
        is_name(name),
    ensures
        names(name) == seq![name],
{
    lemma_name_len_is(name, name.len() as int);
    assert(name.take(name.len() as int) =~= name);
    assert(name.skip(name.len() as int) =~= Seq::<u8>::empty());
    assert(names(Seq::<u8>::empty()) =~= Seq::<Seq<u8>>::empty());
    assert(seq![name] + Seq::<Seq<u8>>::empty() =~= seq![name]);
}

/// A separator at the end of a path adds no name.
pub proof fn lemma_names_trailing_separator(path: Seq<u8>)
    ensures
        names(path + seq![SEPARATOR]) == names(path),
{
    let tail = seq![SEPARATOR];
    lemma_names_concat(path, tail);
    assert(tail.skip(1) =~= Seq::<u8>::empty());
    assert(names(Seq::<u8>::empty()) =~= Seq::<Seq<u8>>::empty());
    assert(names(tail) == names(tail.skip(1)));
    assert(names(path) + Seq::<Seq<u8>>::empty() =~= names(path));
}

/// The names of `list` in a row, one separator between each two.
pub open spec fn chained(list: Seq<Seq<u8>>) -> Seq<u8>
    decreases list.len(),
{
    if list.len() == 0 {
        Seq::empty()
    } else if list.len() == 1 {
        list[0]
    } else {
        chained(list.drop_last()) + seq![SEPARATOR] + list.last()
    }
}

/// The path with the given root flag and names and nothing to spare: a
/// leading separator if it is absolute, then the names, chained.
pub open spec fn rendered(absolute: bool, list: Seq<Seq<u8>>) -> Seq<u8> {
    if absolute {
        seq![SEPARATOR] + chained(list)
    } else {
        chained(list)
    }
}

/// Names in a row hold no separator at the front.
pub proof fn lemma_chained_is_relative(list: Seq<Seq<u8>>)
    requires
        forall|i: int| 0 <= i < list.len() ==> is_name(#[trigger] list[i]),
    ensures
        !is_absolute(chained(list)),
    decreases list.len(),
{
    if list.len() == 0 {
    } else if list.len() == 1 {
        assert(is_name(list[0]));
    } else {
        let init = list.drop_last();
        assert forall|i: int| 0 <= i < init.len() implies is_name(#[trigger] init[i]) by {
            assert(init[i] == list[i]);
        }
        lemma_chained_is_relative(init);
        if init.len() == 1 {
            assert(is_name(init[0]));
        }
        assert(chained(init).len() > 0) by {
            assert(is_name(init[0]));
            if init.len() > 1 {
                assert(chained(init) == chained(init.drop_last()) + seq![SEPARATOR] + init.last());
            }
        }
        assert(chained(list)[0] == chained(init)[0]);
    }
}

/// Reading back names in a row gives the same names.
pub proof fn lemma_names_of_chained(list: Seq<Seq<u8>>)
    requires
        forall|i: int| 0 <= i < list.len() ==> is_name(#[trigger] list[i]),
    ensures
        names(chained(list)) == list,
    decreases list.len(),
{
    if list.len() == 0 {
    } else if list.len() == 1 {
        assert(is_name(list[0]));
        lemma_names_of_name(list[0]);
        assert(seq![list[0]] =~= list);
    } else {
        let init = list.drop_last();
        let last = list.last();
        assert(is_name(last));
        assert forall|i: int| 0 <= i < init.len() implies is_name(#[trigger] init[i]) by {
            assert(init[i] == list[i]);
        }
        lemma_names_of_chained(init);
        let tail = seq![SEPARATOR] + last;
        assert(chained(list) =~= chained(init) + tail);
        lemma_names_concat(chained(init), tail);
        assert(tail.skip(1) =~= last);
        lemma_names_of_name(last);
        assert(init + seq![last] =~= list);
    }
}

/// A path that is written out from a root flag and names has that root
/// flag and those names.
pub proof fn lemma_rendered_round_trip(absolute: bool, list: Seq<Seq<u8>>)
    requires
        forall|i: int| 0 <= i < list.len() ==> is_name(#[trigger] list[i]),
    ensures
        is_absolute(rendered(absolute, list)) == absolute,
        names(rendered(absolute, list)) == list,
{
    lemma_chained_is_relative(list);
    lemma_names_of_chained(list);
    if absolute {
        let path = seq![SEPARATOR] + chained(list);
        assert(path[0] == SEPARATOR);
        assert(path.skip(1) =~= chained(list));
    }
}

/// The last name of a path, unless it has none or ends in `..`.
pub open spec fn file_name_of(path: Seq<u8>) -> Option<Seq<u8>> {
    let list = names(path);
    if list.len() > 0 && list.last() != parent_dir() {
        Some(list.last())
    } else {
        None
    }
}

/// The path without its last name, unless it has none.
pub open spec fn parent_of(path: Seq<u8>) -> Option<Seq<u8>> {
    let list = names(path);
    if list.len() > 0 {
        Some(rendered(is_absolute(path), list.drop_last()))
    } else {
        None
    }
}

/// `rest` as seen from the directory `base`: `rest` itself where it is
/// absolute, else `base`, a separator unless `base` is empty or ends in
/// one, and `rest`.
pub open spec fn joined(base: Seq<u8>, rest: Seq<u8>) -> Seq<u8> {
    if is_absolute(rest) {
        rest
    } else if base.len() == 0 || base.last() == SEPARATOR {
        base + rest
    } else {
        base + seq![SEPARATOR] + rest
    }
}

/// Joining a relative path to a directory keeps the directory's root flag
/// and puts the names of the one behind those of the other.
pub proof fn lemma_joined_relative(base: Seq<u8>, rest: Seq<u8>)
    requires
        !is_absolute(rest),
    ensures
        is_absolute(joined(base, rest)) == is_absolute(base),
        names(joined(base, rest)) == names(base) + names(rest),
{
    if base.len() == 0 || base.last() == SEPARATOR {
        lemma_names_concat(base, rest);
        if base.len() > 0 {
            assert((base + rest)[0] == base[0]);
        } else {
            assert(base + rest =~= rest);
        }
    } else {
        let tail = seq![SEPARATOR] + rest;
        assert(base + seq![SEPARATOR] + rest =~= base + tail);
        lemma_names_concat(base, tail);
        assert(tail.skip(1) =~= rest);
        assert(names(tail) == names(tail.skip(1)));
        assert((base + tail)[0] == base[0]);
    }
}

/// The parent of a path has all of its names but the last, and its root
/// flag.
pub proof fn lemma_parent_of(path: Seq<u8>)
    requires
        names(path).len() > 0,
    ensures
        parent_of(path) is Some,
        is_absolute(parent_of(path)->0) == is_absolute(path),
        names(parent_of(path)->0) == names(path).drop_last(),
{
    let list = names(path);
    let init = list.drop_last();
    lemma_names_are_names(path);
    assert forall|i: int| 0 <= i < init.len() implies is_name(#[trigger] init[i]) by {
        assert(init[i] == list[i]);
    }
    lemma_rendered_round_trip(is_absolute(path), init);
}

/// Whether `path` begins with a separator.
pub fn is_absolute_path(path: &[u8]) -> (r: bool)
    ensures
        r == is_absolute(path@),
{
    path.len() > 0 && path[0] == SEPARATOR
}

/// Whether `name` is the single byte `.`.
pub fn is_current_dir(name: &[u8]) -> (r: bool)
    ensures
        r == (name@ == current_dir()),
{
    let r = name.len() == 1 && name[0] == DOT;
    proof {
        if r {
            assert(name@ =~= current_dir());
        }
    }
    r
}

/// Whether `name` is the two bytes `..`.
pub fn is_parent_dir(name: &[u8]) -> (r: bool)
    ensures
        r == (name@ == parent_dir()),
{
    let r = name.len() == 2 && name[0] == DOT && name[1] == DOT;
    proof {
        if r {
            assert(name@ =~= parent_dir());
        }
    }
    r
}

/// Splits a path into its names.
pub fn split(path: &[u8]) -> (out: Vec<Vec<u8>>)
    ensures
        views(out@) == names(path@),
{
    let mut out: Vec<Vec<u8>> = Vec::new();
    let mut i: usize = 0;
    assert(views(out@) =~= Seq::<Seq<u8>>::empty());
    assert(path@.skip(0) =~= path@);
    while i < path.len()
        invariant
            i <= path.len(),
            names(path@) == views(out@) + names(path@.skip(i as int)),
        decreases path.len() - i,
    {
        let ghost tail = path@.skip(i as int);
        if path[i] == SEPARATOR {
            i += 1;
            assert(tail.skip(1) =~= path@.skip(i as int));
        } else {
            let start = i;
            let mut name: Vec<u8> = Vec::new();
            while i < path.len() && path[i] != SEPARATOR
                invariant
                    start <= i <= path.len(),
                    name@ == path@.subrange(start as int, i as int),
                    forall|j: int| start <= j < i ==> path@[j] != SEPARATOR,
                decreases path.len() - i,
            {
                name.push(path[i]);
                i += 1;
                assert(name@ =~= path@.subrange(start as int, i as int));
            }
            proof {
                lemma_name_len_is(tail, i - start);
                assert(tail.take(i - start) =~= name@);
                assert(tail.skip(i - start) =~= path@.skip(i as int));
            }
            if !is_current_dir(name.as_slice()) {
                let ghost before = views(out@);
                out.push(name);
                assert(views(out@) =~= before + seq![name@]);
                assert(before + (seq![name@] + names(path@.skip(i as int))) =~= views(out@) + names(
                    path@.skip(i as int),
                ));
            }
        }
    }
    assert(names(path@.skip(i as int)) =~= Seq::<Seq<u8>>::empty());
    assert(views(out@) + Seq::<Seq<u8>>::empty() =~= views(out@));
    out
}

/// Whether two byte strings are the same.
pub fn equal(a: &[u8], b: &[u8]) -> (r: bool)
    ensures
        r == (a@ == b@),
{
    if a.len() != b.len() {
        return false;
    }
    let mut i: usize = 0;
    while i < a.len()
        invariant
            i <= a.len(),
            a.len() == b.len(),
            a@.take(i as int) == b@.take(i as int),
        decreases a.len() - i,
    {
        if a[i] != b[i] {
            return false;
        }
        i += 1;
        assert(a@.take(i as int) =~= a@.take(i - 1).push(a@[i - 1]));
        assert(b@.take(i as int) =~= b@.take(i - 1).push(b@[i - 1]));
    }
    assert(a@.take(i as int) =~= a@);
    assert(b@.take(i as int) =~= b@);
    true
}

/// Appends the bytes of `tail` to `buf`.
pub fn append(buf: &mut Vec<u8>, tail: &[u8])
    ensures
        final(buf)@ == old(buf)@ + tail@,
{
    let mut i: usize = 0;
    while i < tail.len()
        invariant
            i <= tail.len(),
            buf@ == old(buf)@ + tail@.take(i as int),
        decreases tail.len() - i,
    {
        buf.push(tail[i]);
        i += 1;
        assert(buf@ =~= old(buf)@ + tail@.take(i as int));
    }
    assert(tail@.take(i as int) =~= tail@);
}

/// Writes out the path with the given root flag and names.
pub fn render(absolute: bool, list: &Vec<Vec<u8>>) -> (out: Vec<u8>)
    ensures
        out@ == rendered(absolute, views(list@)),
{
    let mut body: Vec<u8> = Vec::new();
    let mut i: usize = 0;
    assert(views(list@).take(0) =~= Seq::<Seq<u8>>::empty());
    while i < list.len()
        invariant
            i <= list.len(),
            body@ == chained(views(list@).take(i as int)),
        decreases list.len() - i,
    {
        let ghost done = views(list@).take(i as int);
        let ghost next = views(list@).take(i + 1);
        assert(next.drop_last() =~= done);
        assert(next.last() == list@[i as int]@);
        if i > 0 {
            body.push(SEPARATOR);
        }
        append(&mut body, list[i].as_slice());
        i += 1;
        assert(body@ =~= chained(next));
    }
    assert(views(list@).take(i as int) =~= views(list@));
    if absolute {
        let mut out: Vec<u8> = Vec::new();
        out.push(SEPARATOR);
        append(&mut out, body.as_slice());
        assert(out@ =~= seq![SEPARATOR] + body@);
        out
    } else {
        body
    }
}

/// The last name of `path`: what a file at that path is called. A path
/// without names, or one that ends in `..`, names no file.
pub fn file_name(path: &[u8]) -> (r: Option<Vec<u8>>)
    ensures
        r matches Some(name) ==> file_name_of(path@) == Some(name@),
        r is None ==> file_name_of(path@) is None,
{
    let mut list = split(path);
    let ghost all = views(list@);
    match list.pop() {
        Some(last) => {
            assert(last@ == all.last());
            if is_parent_dir(last.as_slice()) {
                None
            } else {
                Some(last)
            }
        },
        None => None,
    }
}

/// The directory that holds `path`: the path without its last name. A path
/// without names has none.
pub fn parent(path: &[u8]) -> (r: Option<Vec<u8>>)
    ensures
        r matches Some(dir) ==> parent_of(path@) == Some(dir@),
        r is None ==> parent_of(path@) is None,
{
    let mut list = split(path);
    let ghost all = views(list@);
    match list.pop() {
        Some(_) => {
            assert(views(list@) =~= all.drop_last());
            Some(render(is_absolute_path(path), &list))
        },
        None => None,
    }
}

/// Puts `rest` behind the directory `base`; an absolute `rest` stands for
/// itself.
pub fn join(base: &[u8], rest: &[u8]) -> (out: Vec<u8>)
    ensures
        out@ == joined(base@, rest@),
{
    let mut out: Vec<u8> = Vec::new();
    if !is_absolute_path(rest) {
        append(&mut out, base);
        if base.len() > 0 && base[base.len() - 1] != SEPARATOR {
            out.push(SEPARATOR);
        }
    }
    append(&mut out, rest);
    assert(out@ =~= joined(base@, rest@));
    out
}

/// `path` itself where it is absolute, else `path` as seen from the
/// directory `cwd`.
pub fn to_absolute(path: &[u8], cwd: &[u8]) -> (out: Vec<u8>)
    ensures
        out@ == (if is_absolute(path@) {
            path@
        } else {
            joined(cwd@, path@)
        }),
{
    join(cwd, path)
}

} // verus!
