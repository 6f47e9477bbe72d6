//! The relative path that leads from one directory to another entry.

use vstd::prelude::*;
use vstd::slice::slice_to_vec;
use crate::error::Error;
use crate::path::{
    chained, equal, is_absolute, is_absolute_path, is_name, lemma_chained_is_relative,
    lemma_names_are_names, lemma_names_of_chained, lemma_names_trailing_separator, names,
    parent_dir, render, split, views, DOT, SEPARATOR,
};

verus! {

/// How many leading names two lists share.
pub open spec fn common_len(a: Seq<Seq<u8>>, b: Seq<Seq<u8>>) -> nat
    decreases a.len(),
{
    if a.len() > 0 && b.len() > 0 && a[0] == b[0] {
        1 + common_len(a.skip(1), b.skip(1))
    } else {
        0
    }
}

/// `n` times the name `..`.
pub open spec fn ascents(n: nat) -> Seq<Seq<u8>> {
    Seq::new(n, |i: int| parent_dir())
}

/// The steps from the directory `base` to `target`: one `..` for each name
/// of `base` beyond what the two share, then the names of `target` beyond it.
pub open spec fn relative_names(base: Seq<Seq<u8>>, target: Seq<Seq<u8>>) -> Seq<Seq<u8>> {
    let shared = common_len(base, target);
    ascents((base.len() - shared) as nat) + target.skip(shared as int)
}

/// The relative path from the directory `base` to `target`, or `None` where
/// only one of the two is absolute, so that no ancestor of `base` is an
/// ancestor of `target`.
pub open spec fn relative_path(base: Seq<u8>, target: Seq<u8>) -> Option<Seq<u8>> {
    if is_absolute(base) == is_absolute(target) {
        Some(chained(relative_names(names(base), names(target))))
    } else {
        None
    }
}

/// The first `k` names of `a` open `b` exactly when `k` is at most the
/// number of names the two share.
pub proof fn lemma_common_len(a: Seq<Seq<u8>>, b: Seq<Seq<u8>>, k: int)
    requires
        0 <= k <= a.len(),
    ensures
        a.take(k).is_prefix_of(b) <==> k <= common_len(a, b),
        common_len(a, b) <= a.len(),
        common_len(a, b) <= b.len(),
    decreases a.len(),
{
    if a.len() > 0 && b.len() > 0 && a[0] == b[0] {
        let a1 = a.skip(1);
        let b1 = b.skip(1);
        if k > 0 {
            lemma_common_len(a1, b1, k - 1);
            if a.take(k).is_prefix_of(b) {
                assert forall|i: int| 0 <= i < k - 1 implies a1.take(k - 1)[i] == b1[i] by {
                    assert(a.take(k)[i + 1] == b[i + 1]);
                }
                assert(a1.take(k - 1) =~= b1.subrange(0, k - 1));
            }
            if a1.take(k - 1).is_prefix_of(b1) {
                assert forall|i: int| 0 <= i < k implies a.take(k)[i] == b[i] by {
                    if i > 0 {
                        assert(a1.take(k - 1)[i - 1] == b1[i - 1]);
                    }
                }
                assert(a.take(k) =~= b.subrange(0, k));
            }
        } else {
            lemma_common_len(a1, b1, 0);
        }
    } else {
        if k > 0 && a.take(k).is_prefix_of(b) {
            assert(a.take(k)[0] == b[0]);
        }
    }
}

/// Where one step leads from the directory with the names `at`: `..` to its
/// parent, and from the top nowhere; any other name to the entry of that
/// name.
pub open spec fn stepped(at: Seq<Seq<u8>>, name: Seq<u8>) -> Seq<Seq<u8>> {
    if name != parent_dir() {
        at.push(name)
    } else if at.len() > 0 {
        at.drop_last()
    } else {
        at
    }
}

/// Where the steps lead from the directory with the names `from`, taken
/// one after the other.
pub open spec fn walked(from: Seq<Seq<u8>>, steps: Seq<Seq<u8>>) -> Seq<Seq<u8>>
    decreases steps.len(),
{
    if steps.len() == 0 {
        from
    } else {
        walked(stepped(from, steps[0]), steps.skip(1))
    }
}

/// Steps taken in two runs lead where they lead in one.
pub proof fn lemma_walked_concat(from: Seq<Seq<u8>>, first: Seq<Seq<u8>>, second: Seq<Seq<u8>>)
    ensures
        walked(from, first + second) == walked(walked(from, first), second),
    decreases first.len(),
{
    if first.len() == 0 {
        assert(first + second =~= second);
    } else {
        let all = first + second;
        assert(all[0] == first[0]);
        assert(all.skip(1) =~= first.skip(1) + second);
        lemma_walked_concat(stepped(from, first[0]), first.skip(1), second);
    }
}

/// `n` steps up from a directory at least `n` names deep lead to the
/// ancestor that many names above it.
pub proof fn lemma_walked_up(from: Seq<Seq<u8>>, n: nat)
    requires
        n <= from.len(),
    ensures
        walked(from, ascents(n)) == from.take(from.len() - n),
    decreases n,
{
    if n == 0 {
        assert(from.take(from.len() as int) =~= from);
    } else {
        let ups = ascents(n);
        assert(ups[0] == parent_dir());
        assert(ups.skip(1) =~= ascents((n - 1) as nat));
        lemma_walked_up(from.drop_last(), (n - 1) as nat);
        assert(from.drop_last().take(from.len() - n) =~= from.take(from.len() - n));
    }
}

/// Steps that never go up lead to the entry whose names are those of the
/// start and then the steps.
pub proof fn lemma_walked_down(from: Seq<Seq<u8>>, steps: Seq<Seq<u8>>)
    requires
        forall|i: int| 0 <= i < steps.len() ==> steps[i] != parent_dir(),
    ensures
        walked(from, steps) == from + steps,
    decreases steps.len(),
{
    if steps.len() == 0 {
        assert(from + steps =~= from);
    } else {
        let rest = steps.skip(1);
        assert(steps[0] != parent_dir());
        assert forall|i: int| 0 <= i < rest.len() implies rest[i] != parent_dir() by {
            assert(rest[i] == steps[i + 1]);
        }
        lemma_walked_down(from.push(steps[0]), rest);
        assert(from.push(steps[0]) + rest =~= from + steps);
    }
}

/// The steps from `base` to `target` are names, whenever those of the two
/// paths are.
pub proof fn lemma_relative_names_are_names(base: Seq<Seq<u8>>, target: Seq<Seq<u8>>)
    requires
        forall|i: int| 0 <= i < target.len() ==> is_name(#[trigger] target[i]),
    ensures
        forall|i: int|
            0 <= i < relative_names(base, target).len() ==> is_name(
                #[trigger] relative_names(base, target)[i],
            ),
{
    lemma_common_len(base, target, 0);
    let shared = common_len(base, target);
    let ups = ascents((base.len() - shared) as nat);
    let steps = relative_names(base, target);
    assert(parent_dir().len() == 2);
    assert(is_name(parent_dir())) by {
        assert(parent_dir()[0] == DOT && parent_dir()[1] == DOT);
    }
    assert forall|i: int| 0 <= i < steps.len() implies is_name(#[trigger] steps[i]) by {
        if i < ups.len() {
            assert(steps[i] == parent_dir());
        } else {
            assert(steps[i] == target[i - ups.len() + shared]);
        }
    }
}

/// The relative path leads where it should: for two paths that are both
/// absolute or both relative, where `target` holds no `..`, the result is a
/// relative path, and its names, walked from the directory `base`, end at
/// `target`.
pub proof fn lemma_relative_path_leads_to_target(base: Seq<u8>, target: Seq<u8>)
    requires
        is_absolute(base) == is_absolute(target),
        forall|i: int| 0 <= i < names(target).len() ==> names(target)[i] != parent_dir(),
    ensures
        relative_path(base, target) is Some,
        !is_absolute(relative_path(base, target)->0),
        walked(names(base), names(relative_path(base, target)->0)) == names(target),
{
    let from = names(base);
    let to = names(target);
    let shared = common_len(from, to);
    lemma_common_len(from, to, 0);
    lemma_common_len(from, to, shared as int);
    let ups = ascents((from.len() - shared) as nat);
    let rest = to.skip(shared as int);
    let steps = relative_names(from, to);
    lemma_names_are_names(target);
    lemma_relative_names_are_names(from, to);
    lemma_chained_is_relative(steps);
    lemma_names_of_chained(steps);
    lemma_walked_concat(from, ups, rest);
    lemma_walked_up(from, (from.len() - shared) as nat);
    assert forall|i: int| 0 <= i < rest.len() implies rest[i] != parent_dir() by {
        assert(rest[i] == to[i + shared]);
    }
    lemma_walked_down(from.take(shared as int), rest);
    assert(from.take(shared as int) =~= to.subrange(0, shared as int));
    assert(to.subrange(0, shared as int) + rest =~= to);
}

/// A list of names shares all of its names with itself.
pub proof fn lemma_common_len_same(a: Seq<Seq<u8>>)
    ensures
        common_len(a, a) == a.len(),
{
    lemma_common_len(a, a, a.len() as int);
    assert(a.take(a.len() as int) =~= a.subrange(0, a.len() as int));
}

/// From a directory to itself the relative path is empty.
pub proof fn lemma_relative_path_to_self(path: Seq<u8>)
    ensures
        relative_path(path, path) == Some(Seq::<u8>::empty()),
{
    let list = names(path);
    lemma_common_len_same(list);
    assert(relative_names(list, list) =~= Seq::<Seq<u8>>::empty());
}

/// A separator at the end of a `base` that is not empty changes nothing.
/// Behind an empty one it would stand for the root.
pub proof fn lemma_relative_path_trailing_separator(base: Seq<u8>, target: Seq<u8>)
    requires
        base.len() > 0,
    ensures
        relative_path(base + seq![SEPARATOR], target) == relative_path(base, target),
{
    lemma_names_trailing_separator(base);
    assert((base + seq![SEPARATOR])[0] == base[0]);
}

/// From a directory to an entry right below it the relative path is that
/// entry's name.
pub proof fn lemma_relative_path_to_child(base: Seq<u8>, target: Seq<u8>, name: Seq<u8>)
    requires
        is_absolute(base) == is_absolute(target),
        names(target) == names(base).push(name),
    ensures
        relative_path(base, target) == Some(name),
{
    let from = names(base);
    let to = names(target);
    lemma_common_len(from, to, from.len() as int);
    assert(from.take(from.len() as int) =~= to.subrange(0, from.len() as int));
    assert(relative_names(from, to) =~= seq![name]);
}

/// From a directory to an entry beside it the relative path is `..`, a
/// separator, and that entry's name.
pub proof fn lemma_relative_path_to_sibling(
    base: Seq<u8>,
    target: Seq<u8>,
    parent: Seq<Seq<u8>>,
    here: Seq<u8>,
    there: Seq<u8>,
)
    requires
        is_absolute(base) == is_absolute(target),
        names(base) == parent.push(here),
        names(target) == parent.push(there),
        here != there,
    ensures
        relative_path(base, target) == Some(parent_dir() + seq![SEPARATOR] + there),
{
    let from = names(base);
    let to = names(target);
    lemma_common_len(from, to, parent.len() as int);
    lemma_common_len(from, to, from.len() as int);
    assert(from.take(parent.len() as int) =~= to.subrange(0, parent.len() as int));
    if from.take(from.len() as int).is_prefix_of(to) {
        assert(from.take(from.len() as int)[parent.len() as int] == to[parent.len() as int]);
    }
    let steps = relative_names(from, to);
    assert(steps =~= seq![parent_dir(), there]);
    assert(steps.drop_last() =~= seq![parent_dir()]);
    assert(chained(steps.drop_last()) == parent_dir());
}

/// Whether the first `keep` names of `from` open `to`.
pub fn leads(from: &Vec<Vec<u8>>, keep: usize, to: &Vec<Vec<u8>>) -> (r: bool)
    requires
        keep <= from.len(),
    ensures
        r == views(from@).take(keep as int).is_prefix_of(views(to@)),
{
    if keep > to.len() {
        return false;
    }
    let ghost head = views(from@).take(keep as int);
    let mut i: usize = 0;
    while i < keep
        invariant
            i <= keep <= from.len(),
            keep <= to.len(),
            head == views(from@).take(keep as int),
            forall|j: int| 0 <= j < i ==> head[j] == views(to@)[j],
        decreases keep - i,
    {
        if !equal(from[i].as_slice(), to[i].as_slice()) {
            assert(head[i as int] != views(to@)[i as int]);
            return false;
        }
        i += 1;
    }
    assert(head =~= views(to@).subrange(0, keep as int));
    true
}

/// Computes the relative path that leads from the directory `base` to
/// `target`.
///
/// Starting at `base`, the search climbs one name at a time until it stands
/// on an ancestor of `target`; the result holds one `..` for each step
/// climbed and then what `target` has beyond that ancestor. Where the two
/// paths are the same the result is empty. Where only one of them is
/// absolute there is no such ancestor.
pub fn relative_path_from(base: &[u8], target: &[u8]) -> (r: Result<Vec<u8>, Error>)
    ensures
        r matches Ok(path) ==> relative_path(base@, target@) == Some(path@),
        r matches Err(e) ==> e == Error::NoCommonAncestor && relative_path(base@, target@) is None,
{
    let same_root = is_absolute_path(base) == is_absolute_path(target);
    let from = split(base);
    let to = split(target);
    let mut keep: usize = from.len();
    let mut climbed: usize = 0;
    proof {
        lemma_common_len(views(from@), views(to@), keep as int);
    }
    while !(same_root && leads(&from, keep, &to))
        invariant
            keep + climbed == from.len(),
            same_root == (is_absolute(base@) == is_absolute(target@)),
            same_root ==> common_len(views(from@), views(to@)) <= keep,
        decreases keep,
    {
        proof {
            lemma_common_len(views(from@), views(to@), keep as int);
        }
        if keep == 0 {
            return Err(Error::NoCommonAncestor);
        }
        keep -= 1;
        climbed += 1;
    }
    proof {
        lemma_common_len(views(from@), views(to@), keep as int);
    }
    let mut steps: Vec<Vec<u8>> = Vec::new();
    let mut i: usize = 0;
    while i < climbed
        invariant
            i <= climbed,
            views(steps@) == ascents(i as nat),
        decreases climbed - i,
    {
        let mut up: Vec<u8> = Vec::new();
        up.push(DOT);
        up.push(DOT);
        assert(up@ =~= parent_dir());
        let ghost before = views(steps@);
        steps.push(up);
        i += 1;
        assert(views(steps@) =~= before.push(parent_dir()));
        assert(before.push(parent_dir()) =~= ascents(i as nat));
    }
    let mut j: usize = keep;
    assert(views(to@).subrange(keep as int, j as int) =~= Seq::<Seq<u8>>::empty());
    while j < to.len()
        invariant
            keep <= j <= to.len(),
            views(steps@) == ascents(climbed as nat) + views(to@).subrange(keep as int, j as int),
        decreases to.len() - j,
    {
        let name = slice_to_vec(to[j].as_slice());
        let ghost before = views(steps@);
        steps.push(name);
        j += 1;
        assert(views(steps@) =~= before.push(name@));
        assert(before.push(name@) =~= ascents(climbed as nat) + views(to@).subrange(
            keep as int,
            j as int,
        ));
    }
    assert(views(to@).subrange(keep as int, j as int) =~= views(to@).skip(keep as int));
    Ok(render(false, &steps))
}

} // verus!
