//! The inputs that are passed over, and the note that lists them.

use vstd::prelude::*;
use vstd::string::StringSliceAdditionalSpecFns;
use crate::path::append;

verus! {

/// Why an input is passed over.
#[derive(Debug, Clone, Copy, PartialEq, Eq, Structural)]
pub enum SkipReason {
    /// It is a directory.
    Directory,
    /// It is a symbolic link.
    Symlink,
}

impl SkipReason {
    /// The reason in words.
    pub open spec fn text(self) -> &'static str {
        match self {
            SkipReason::Directory => "file is a directory, which cannot be added",
            SkipReason::Symlink => "file is a symlink, which cannot be added",
        }
    }

    /// The reason in words.
    pub fn message(&self) -> (r: &'static str)
        ensures
            r == self.text(),
    {
        match self {
            SkipReason::Directory => "file is a directory, which cannot be added",
            SkipReason::Symlink => "file is a symlink, which cannot be added",
        }
    }
}

/// An input that was passed over: the path as it was given, and the reason.
#[derive(Debug, PartialEq, Eq)]
pub struct Skipped {
    /// The path as it was given.
    pub path: Vec<u8>,
    /// Why it was passed over.
    pub reason: SkipReason,
}

/// A passed-over input as a value of specifications.
pub struct SkippedView {
    /// The path as it was given.
    pub path: Seq<u8>,
    /// Why it was passed over.
    pub reason: SkipReason,
}

impl View for Skipped {
    type V = SkippedView;

    open spec fn view(&self) -> SkippedView {
        SkippedView { path: self.path@, reason: self.reason }
    }
}

/// The views of a list of passed-over inputs.
pub open spec fn skipped_views(list: Seq<Skipped>) -> Seq<SkippedView> {
    list.map_values(|item: Skipped| item@)
}

/// The first line of the note.
pub open spec fn heading() -> &'static str {
    "The following paths are ignored:"
}

/// The end of a line.
pub const NEWLINE: u8 = 10;

/// The tabulator, which stands between a path and its reason.
pub const TAB: u8 = 9;

/// The bracket before a reason.
pub const OPEN: u8 = 40;

/// The bracket behind a reason.
pub const CLOSE: u8 = 41;

/// The line for one input: its path, a tabulator, and the reason in
/// brackets.
pub open spec fn line(item: SkippedView) -> Seq<u8> {
    item.path + seq![TAB, OPEN] + item.reason.text().spec_bytes() + seq![CLOSE, NEWLINE]
}

/// The lines for the inputs of `list`, in its order.
pub open spec fn lines(list: Seq<SkippedView>) -> Seq<u8>
    decreases list.len(),
{
    if list.len() == 0 {
        Seq::empty()
    } else {
        lines(list.drop_last()) + line(list.last())
    }
}

/// The note that lists the inputs passed over: the heading, then one line
/// for each.
pub open spec fn report_of(list: Seq<SkippedView>) -> Seq<u8> {
    heading().spec_bytes() + seq![NEWLINE] + lines(list)
}

/// Writes the note that lists the inputs passed over.
pub fn report(list: &Vec<Skipped>) -> (out: Vec<u8>)
    ensures
        out@ == report_of(skipped_views(list@)),
{
    let mut out: Vec<u8> = Vec::new();
    append(&mut out, "The following paths are ignored:".as_bytes());
    out.push(NEWLINE);
    let ghost head = out@;
    let mut i: usize = 0;
    assert(skipped_views(list@).take(0) =~= Seq::<SkippedView>::empty());
    assert(out@ =~= head + lines(skipped_views(list@).take(0)));
    while i < list.len()
        invariant
            i <= list.len(),
            out@ == head + lines(skipped_views(list@).take(i as int)),
        decreases list.len() - i,
    {
        let ghost done = skipped_views(list@).take(i as int);
        let ghost next = skipped_views(list@).take(i + 1);
        assert(next.drop_last() =~= done);
        assert(next.last() == list@[i as int]@);
        let item = &list[i];
        append(&mut out, item.path.as_slice());
        out.push(TAB);
        out.push(OPEN);
        append(&mut out, item.reason.message().as_bytes());
        out.push(CLOSE);
        out.push(NEWLINE);
        i += 1;
        assert(out@ =~= head + lines(done) + line(next.last()));
        assert(head + lines(done) + line(next.last()) =~= head + lines(next));
    }
    assert(skipped_views(list@).take(i as int) =~= skipped_views(list@));
    out
}

} // verus!
