//! Adding files to the repository, one decision at a time.
//!
//! The adder never touches the file system. It hands out one [`Action`];
//! the caller performs it and answers with an [`Event`]; the adder then
//! decides what comes next. A failure that the caller reports ends the
//! run at once, with the files already moved left where they are. An input
//! that is a directory or a symbolic link is noted and passed over, and
//! the run goes on.

use vstd::prelude::*;
use vstd::slice::slice_to_vec;
use crate::classify::FileType;
use crate::config::Config;
use crate::error::Error;
use crate::path::{
    file_name, file_name_of, is_absolute, join, joined, lemma_joined_relative,
    lemma_names_are_names, lemma_names_of_name, names, parent, parent_dir, parent_of, views,
};
use crate::relative::{
    lemma_relative_path_leads_to_target, relative_path, relative_path_from, walked,
};
use crate::skipped::{report, report_of, skipped_views, SkipReason, Skipped, SkippedView};

verus! {

/// What the caller is asked to do next.
#[derive(Debug, PartialEq, Eq)]
pub enum Action {
    /// Read what kind of entry `path` is, without following a link, and
    /// answer `Classified`.
    Classify { path: Vec<u8> },
    /// Resolve `path` to the absolute path of the entry it names, links and
    /// relative steps followed, and answer `Resolved`.
    Canonicalize { path: Vec<u8> },
    /// Create the directory `path` and the ancestors it lacks, and answer
    /// `Done`.
    CreateDirAll { path: Vec<u8> },
    /// Move the file `from` to `to`, over what may be there, and answer
    /// `Done`.
    Rename { from: Vec<u8>, to: Vec<u8> },
    /// Create at `link` a symbolic link that holds `target`, and answer
    /// `Done`.
    Symlink { target: Vec<u8>, link: Vec<u8> },
    /// The run is over and some inputs were passed over: write `text` to
    /// the diagnostic stream.
    Report { text: Vec<u8> },
    /// The run is over and every input was added.
    Finish,
    /// The run has failed.
    Abort { error: Error },
}

/// An action as a value of specifications.
pub enum ActionView {
    Classify { path: Seq<u8> },
    Canonicalize { path: Seq<u8> },
    CreateDirAll { path: Seq<u8> },
    Rename { from: Seq<u8>, to: Seq<u8> },
    Symlink { target: Seq<u8>, link: Seq<u8> },
    Report { text: Seq<u8> },
    Finish,
    Abort { error: Error },
}

impl View for Action {
    type V = ActionView;

    open spec fn view(&self) -> ActionView {
        match *self {
            Action::Classify { path } => ActionView::Classify { path: path@ },
            Action::Canonicalize { path } => ActionView::Canonicalize { path: path@ },
            Action::CreateDirAll { path } => ActionView::CreateDirAll { path: path@ },
            Action::Rename { from, to } => ActionView::Rename { from: from@, to: to@ },
            Action::Symlink { target, link } => ActionView::Symlink {
                target: target@,
                link: link@,
            },
            Action::Report { text } => ActionView::Report { text: text@ },
            Action::Finish => ActionView::Finish,
            Action::Abort { error } => ActionView::Abort { error },
        }
    }
}

impl ActionView {
    /// Whether the action changes the file system.
    pub open spec fn mutates(self) -> bool {
        self is CreateDirAll || self is Rename || self is Symlink
    }

    /// Whether the action ends the run.
    pub open spec fn is_last(self) -> bool {
        self is Report || self is Finish || self is Abort
    }
}

/// What the caller answers after an action.
#[derive(Debug, PartialEq, Eq)]
pub enum Event {
    /// The entry is of this kind.
    Classified(FileType),
    /// The path resolves to this one.
    Resolved(Vec<u8>),
    /// The action was carried out.
    Done,
    /// The action failed; the text is the system's own.
    Failed(String),
}

/// An event as a value of specifications.
pub enum EventView {
    Classified(FileType),
    Resolved(Seq<u8>),
    Done,
    Failed(String),
}

impl View for Event {
    type V = EventView;

    open spec fn view(&self) -> EventView {
        match *self {
            Event::Classified(kind) => EventView::Classified(kind),
            Event::Resolved(path) => EventView::Resolved(path@),
            Event::Done => EventView::Done,
            Event::Failed(text) => EventView::Failed(text),
        }
    }
}

/// How far the current input has come.
enum Stage {
    Classifying,
    Locating,
    Preparing { source: Vec<u8>, dest: Vec<u8>, dir: Vec<u8> },
    Moving { source: Vec<u8>, dest: Vec<u8>, dir: Vec<u8> },
    ResolvingBase { source: Vec<u8>, dest: Vec<u8> },
    ResolvingTarget { source: Vec<u8>, base: Vec<u8> },
    Linking,
    Finished,
}

/// How far the current input has come, and what is known of it: `source`
/// is where the file was found, `dest` where it goes, `dir` the directory
/// it was found in, and `base` that directory as the file system resolves
/// it.
pub enum StageView {
    /// Asked what kind of entry the input is.
    Classifying,
    /// Asked where the input is.
    Locating,
    /// Asked to create the repository directory.
    Preparing { source: Seq<u8>, dest: Seq<u8>, dir: Seq<u8> },
    /// Asked to move the file.
    Moving { source: Seq<u8>, dest: Seq<u8>, dir: Seq<u8> },
    /// Asked to resolve the directory the file was in.
    ResolvingBase { source: Seq<u8>, dest: Seq<u8> },
    /// Asked to resolve the place the file is at now.
    ResolvingTarget { source: Seq<u8>, base: Seq<u8> },
    /// Asked to create the link.
    Linking,
    /// Nothing is asked any more.
    Finished,
}

impl View for Stage {
    type V = StageView;

    closed spec fn view(&self) -> StageView {
        match *self {
            Stage::Classifying => StageView::Classifying,
            Stage::Locating => StageView::Locating,
            Stage::Preparing { source, dest, dir } => StageView::Preparing {
                source: source@,
                dest: dest@,
                dir: dir@,
            },
            Stage::Moving { source, dest, dir } => StageView::Moving {
                source: source@,
                dest: dest@,
                dir: dir@,
            },
            Stage::ResolvingBase { source, dest } => StageView::ResolvingBase {
                source: source@,
                dest: dest@,
            },
            Stage::ResolvingTarget { source, base } => StageView::ResolvingTarget {
                source: source@,
                base: base@,
            },
            Stage::Linking => StageView::Linking,
            Stage::Finished => StageView::Finished,
        }
    }
}

/// The state of a run.
pub struct State {
    /// The directory that files are moved into.
    pub repo_dir: Seq<u8>,
    /// The inputs, in the order given.
    pub files: Seq<Seq<u8>>,
    /// Which input is being handled; all before it are dealt with.
    pub index: int,
    /// How far that input has come.
    pub stage: StageView,
    /// The inputs passed over so far, in the order they came.
    pub skipped: Seq<SkippedView>,
}

impl State {
    /// A state is well formed when the input it points at exists, or,
    /// once nothing is asked any more, when it points no further than
    /// the end of the inputs.
    pub open spec fn wf(self) -> bool {
        &&& 0 <= self.index <= self.files.len()
        &&& self.stage !is Finished ==> self.index < self.files.len()
    }

    /// The state with nothing asked any more.
    pub open spec fn stopped(self) -> State {
        State { stage: StageView::Finished, ..self }
    }

    /// The state in the given stage.
    pub open spec fn at(self, stage: StageView) -> State {
        State { stage, ..self }
    }

    /// What ends a run that did not fail: the note on the inputs passed
    /// over where there are any, else nothing.
    pub open spec fn last_action(self) -> ActionView {
        if self.skipped.len() > 0 {
            ActionView::Report { text: report_of(self.skipped) }
        } else {
            ActionView::Finish
        }
    }

    /// Turns to the input at `index`: it is to be classified; past the
    /// last input the run is over.
    pub open spec fn turn_to(self, index: int) -> (State, ActionView) {
        if index < self.files.len() {
            (
                State { index, stage: StageView::Classifying, ..self },
                ActionView::Classify { path: self.files[index] },
            )
        } else {
            (State { index, stage: StageView::Finished, ..self }, self.last_action())
        }
    }

    /// Notes the current input as passed over and turns to the next.
    pub open spec fn skip(self, reason: SkipReason) -> (State, ActionView) {
        State {
            skipped: self.skipped.push(SkippedView { path: self.files[self.index], reason }),
            ..self
        }.turn_to(self.index + 1)
    }

    /// The first state of a run and its first action.
    pub open spec fn start(repo_dir: Seq<u8>, files: Seq<Seq<u8>>) -> (State, ActionView) {
        State {
            repo_dir,
            files,
            index: 0,
            stage: StageView::Finished,
            skipped: Seq::empty(),
        }.turn_to(0)
    }

    /// Whether `event` answers the action that led to this state. A
    /// failure answers any action; where a file is, is answered by a path
    /// that names a file.
    pub open spec fn expects(self, event: EventView) -> bool {
        match self.stage {
            StageView::Finished => false,
            StageView::Classifying => event is Classified || event is Failed,
            StageView::Locating => event is Failed || (event matches EventView::Resolved(path)
                && file_name_of(path) is Some),
            StageView::ResolvingBase { .. } | StageView::ResolvingTarget { .. } => event is Resolved
                || event is Failed,
            StageView::Preparing { .. } | StageView::Moving { .. } | StageView::Linking => event is Done
                || event is Failed,
        }
    }

    /// The decision: the state after `event`, and what to do next.
    ///
    /// A failure ends the run. A directory or a symbolic link is noted and
    /// passed over. A regular file is located; the repository directory is
    /// created; the file is moved there under its own name; the directory
    /// it was in and its new place are resolved; and a link that holds the
    /// relative path from the one to the other is asked for at the place
    /// the file was found. Then comes the next input.
    pub open spec fn next(self, event: EventView) -> (State, ActionView) {
        match (self.stage, event) {
            (_, EventView::Failed(text)) => (
                self.stopped(),
                ActionView::Abort { error: Error::Io(text) },
            ),
            (StageView::Classifying, EventView::Classified(FileType::Dir)) => self.skip(
                SkipReason::Directory,
            ),
            (StageView::Classifying, EventView::Classified(FileType::Symlink)) => self.skip(
                SkipReason::Symlink,
            ),
            (StageView::Classifying, EventView::Classified(FileType::File)) => (
                self.at(StageView::Locating),
                ActionView::Canonicalize { path: self.files[self.index] },
            ),
            (StageView::Locating, EventView::Resolved(source)) => (
                self.at(
                    StageView::Preparing {
                        source,
                        dest: joined(self.repo_dir, file_name_of(source)->0),
                        dir: parent_of(source)->0,
                    },
                ),
                ActionView::CreateDirAll { path: self.repo_dir },
            ),
            (StageView::Preparing { source, dest, dir }, EventView::Done) => (
                self.at(StageView::Moving { source, dest, dir }),
                ActionView::Rename { from: source, to: dest },
            ),
            (StageView::Moving { source, dest, dir }, EventView::Done) => (
                self.at(StageView::ResolvingBase { source, dest }),
                ActionView::Canonicalize { path: dir },
            ),
            (StageView::ResolvingBase { source, dest }, EventView::Resolved(base)) => (
                self.at(StageView::ResolvingTarget { source, base }),
                ActionView::Canonicalize { path: dest },
            ),
            (StageView::ResolvingTarget { source, base }, EventView::Resolved(target)) => {
                match relative_path(base, target) {
                    Some(path) => (
                        self.at(StageView::Linking),
                        ActionView::Symlink { target: path, link: source },
                    ),
                    None => (
                        self.stopped(),
                        ActionView::Abort { error: Error::NoCommonAncestor },
                    ),
                }
            },
            (StageView::Linking, EventView::Done) => self.turn_to(self.index + 1),
            _ => (self, ActionView::Finish),
        }
    }
}

/// The reason for which an entry of the given kind is passed over.
pub open spec fn reason_for(kind: FileType) -> SkipReason {
    if kind is Dir {
        SkipReason::Directory
    } else {
        SkipReason::Symlink
    }
}

impl State {
    /// Every input passed over is one of the inputs already dealt with, and
    /// no more are passed over than were dealt with.
    pub open spec fn consistent(self) -> bool {
        &&& self.wf()
        &&& self.skipped.len() <= self.index
        &&& forall|j: int|
            0 <= j < self.skipped.len() ==> exists|k: int|
                0 <= k < self.index && self.files[k] == (#[trigger] self.skipped[j]).path
    }
}

/// A run begins well formed and with nothing passed over.
pub proof fn lemma_start_is_consistent(repo_dir: Seq<u8>, files: Seq<Seq<u8>>)
    ensures
        State::start(repo_dir, files).0.consistent(),
        State::start(repo_dir, files).0.skipped.len() == 0,
        files.len() == 0 ==> State::start(repo_dir, files).1 is Finish,
        files.len() > 0 ==> State::start(repo_dir, files).1 == (ActionView::Classify {
            path: files[0],
        }),
{
}

/// No decision breaks a state: what is well formed stays so, and what is
/// passed over stays among the inputs dealt with.
pub proof fn lemma_next_is_consistent(state: State, event: EventView)
    requires
        state.consistent(),
        state.expects(event),
    ensures
        state.next(event).0.consistent(),
{
    let after = state.next(event).0;
    assert forall|j: int| 0 <= j < after.skipped.len() implies exists|k: int|
        0 <= k < after.index && after.files[k] == (#[trigger] after.skipped[j]).path by {
        if j < state.skipped.len() {
            assert(after.skipped[j] == state.skipped[j]);
            let k = choose|k: int|
                0 <= k < state.index && state.files[k] == state.skipped[j].path;
            assert(0 <= k < after.index && after.files[k] == after.skipped[j].path);
        } else {
            assert(after.files[state.index] == after.skipped[j].path);
        }
    }
}

/// No decision changes the settings or the inputs, goes back to an
/// earlier input, skips one, or drops a note: the inputs passed over so
/// far stay, in their order, and at most one is added.
pub proof fn lemma_next_moves_forward(state: State, event: EventView)
    requires
        state.wf(),
        state.expects(event),
    ensures
        state.next(event).0.repo_dir == state.repo_dir,
        state.next(event).0.files == state.files,
        state.next(event).0.index == state.index || state.next(event).0.index == state.index + 1,
        state.skipped.is_prefix_of(state.next(event).0.skipped),
        state.next(event).0.skipped.len() <= state.skipped.len() + 1,
{
    let after = state.next(event).0;
    assert(state.skipped =~= after.skipped.subrange(0, state.skipped.len() as int));
}

impl StageView {
    /// How many answers the current input has had.
    pub open spec fn rank(self) -> int {
        match self {
            StageView::Classifying => 0,
            StageView::Locating => 1,
            StageView::Preparing { .. } => 2,
            StageView::Moving { .. } => 3,
            StageView::ResolvingBase { .. } => 4,
            StageView::ResolvingTarget { .. } => 5,
            StageView::Linking => 6,
            StageView::Finished => 7,
        }
    }

    /// Whether the stage is the one in which `action` is answered.
    pub open spec fn awaits(self, action: ActionView) -> bool {
        match action {
            ActionView::Classify { .. } => self is Classifying,
            ActionView::Canonicalize { .. } => self is Locating || self is ResolvingBase
                || self is ResolvingTarget,
            ActionView::CreateDirAll { .. } => self is Preparing,
            ActionView::Rename { .. } => self is Moving,
            ActionView::Symlink { .. } => self is Linking,
            ActionView::Report { .. } | ActionView::Finish | ActionView::Abort { .. } => self
                is Finished,
        }
    }
}

impl State {
    /// An upper bound on the answers that the run can still take: seven
    /// for each input not yet dealt with, less those that the current
    /// input has had.
    pub open spec fn remaining(self) -> int {
        if self.stage is Finished {
            0
        } else {
            7 * (self.files.len() - self.index) - self.stage.rank()
        }
    }
}

/// The state always waits for the answer to the action just handed out;
/// it is finished exactly when that action ends the run.
pub proof fn lemma_stage_awaits_action(state: State, event: EventView)
    requires
        state.wf(),
        state.expects(event),
    ensures
        state.next(event).0.stage.awaits(state.next(event).1),
        state.next(event).1.is_last() <==> state.next(event).0.stage is Finished,
{
}

/// The same holds of the first state and the first action.
pub proof fn lemma_start_awaits_action(repo_dir: Seq<u8>, files: Seq<Seq<u8>>)
    ensures
        State::start(repo_dir, files).0.stage.awaits(State::start(repo_dir, files).1),
{
}

/// Every run ends: each answer brings the state closer to the end by at
/// least one, and a run over `n` inputs takes at most `7 * n` answers.
pub proof fn lemma_next_makes_progress(state: State, event: EventView)
    requires
        state.wf(),
        state.expects(event),
    ensures
        0 <= state.next(event).0.remaining() < state.remaining(),
        state.remaining() <= 7 * state.files.len(),
{
}

/// A failure ends the run at once, whatever was under way: the run is
/// aborted with the failure's own text, nothing more is asked, and no
/// input is noted as passed over.
pub proof fn lemma_failure_ends_run(state: State, text: String)
    requires
        state.wf(),
        state.stage !is Finished,
    ensures
        state.expects(EventView::Failed(text)),
        state.next(EventView::Failed(text)).1 == (ActionView::Abort { error: Error::Io(text) }),
        state.next(EventView::Failed(text)).0 == state.stopped(),
{
}

/// An input that is a directory or a symbolic link is passed over: it is
/// noted with its reason, the run turns to the next input, and the action
/// that follows changes nothing in the file system.
pub proof fn lemma_skip_changes_nothing(state: State, kind: FileType)
    requires
        state.wf(),
        state.stage is Classifying,
        kind !is File,
    ensures
        state.expects(EventView::Classified(kind)),
        !state.next(EventView::Classified(kind)).1.mutates(),
        state.next(EventView::Classified(kind)).1 !is Abort,
        state.next(EventView::Classified(kind)).0.index == state.index + 1,
        state.next(EventView::Classified(kind)).0.skipped == state.skipped.push(
            SkippedView { path: state.files[state.index], reason: reason_for(kind) },
        ),
{
}

/// A run that passes an input over ends with a note that lists it, unless
/// it fails.
pub proof fn lemma_run_with_skips_reports(state: State, event: EventView)
    requires
        state.wf(),
        state.expects(event),
        state.next(event).0.skipped.len() > 0,
        state.next(event).1.is_last(),
        state.next(event).1 !is Abort,
    ensures
        state.next(event).1 == (ActionView::Report {
            text: report_of(state.next(event).0.skipped),
        }),
{
}

/// What is asked for a regular file, answer by answer, where nothing
/// fails: to locate it; to create the repository directory; to move the
/// file there under its own name; to resolve the directory it was in and
/// then its new place; and to put a link where it was found.
pub proof fn lemma_file_is_moved_and_linked(
    state: State,
    source: Seq<u8>,
    base: Seq<u8>,
    target: Seq<u8>,
)
    requires
        state.wf(),
        state.stage is Classifying,
        file_name_of(source) is Some,
        relative_path(base, target) is Some,
    ensures
        ({
            let dest = joined(state.repo_dir, file_name_of(source)->0);
            let located = state.next(EventView::Classified(FileType::File));
            let prepared = located.0.next(EventView::Resolved(source));
            let moved = prepared.0.next(EventView::Done);
            let resolving = moved.0.next(EventView::Done);
            let resolved = resolving.0.next(EventView::Resolved(base));
            let linked = resolved.0.next(EventView::Resolved(target));
            let after = linked.0.next(EventView::Done);
            &&& located.1 == ActionView::Canonicalize { path: state.files[state.index] }
            &&& prepared.1 == ActionView::CreateDirAll { path: state.repo_dir }
            &&& moved.1 == ActionView::Rename { from: source, to: dest }
            &&& resolving.1 == ActionView::Canonicalize { path: parent_of(source)->0 }
            &&& resolved.1 == ActionView::Canonicalize { path: dest }
            &&& linked.1 == ActionView::Symlink {
                target: relative_path(base, target)->0,
                link: source,
            }
            &&& after == state.turn_to(state.index + 1)
        }),
{
}

/// The file keeps its name: the place it is moved to is right below the
/// repository directory and is called as the file was.
pub proof fn lemma_file_keeps_its_name(state: State, source: Seq<u8>)
    requires
        state.wf(),
        state.stage is Locating,
        file_name_of(source) is Some,
    ensures
        state.next(EventView::Resolved(source)).0.stage matches StageView::Preparing { dest, .. }
            && names(dest) == names(state.repo_dir).push(file_name_of(source)->0)
            && is_absolute(dest) == is_absolute(state.repo_dir) && file_name_of(dest)
            == file_name_of(source),
{
    let name = file_name_of(source)->0;
    lemma_names_are_names(source);
    lemma_names_of_name(name);
    lemma_joined_relative(state.repo_dir, name);
    assert(names(state.repo_dir) + seq![name] =~= names(state.repo_dir).push(name));
}

/// The link leads back to the file: where the directory the file was in
/// and the file's new place resolve to paths that are both absolute, the
/// second without a `..`, the link that is asked for holds a relative path
/// whose steps, walked from that directory, end at the new place.
pub proof fn lemma_link_leads_to_file(state: State, target: Seq<u8>)
    requires
        state.wf(),
        state.stage is ResolvingTarget,
        is_absolute(state.stage->ResolvingTarget_base),
        is_absolute(target),
        forall|i: int| 0 <= i < names(target).len() ==> names(target)[i] != parent_dir(),
    ensures
        state.next(EventView::Resolved(target)).1 matches ActionView::Symlink { target: path, link }
            && link == state.stage->ResolvingTarget_source && !is_absolute(path) && walked(
            names(state.stage->ResolvingTarget_base),
            names(path),
        ) == names(target),
{
    lemma_relative_path_leads_to_target(state.stage->ResolvingTarget_base, target);
}

/// A run in progress: the settings, the inputs, and how far it has come.
pub struct Adder {
    repo_dir: Vec<u8>,
    files: Vec<Vec<u8>>,
    index: usize,
    stage: Stage,
    skipped: Vec<Skipped>,
}

impl View for Adder {
    type V = State;

    closed spec fn view(&self) -> State {
        State {
            repo_dir: self.repo_dir@,
            files: views(self.files@),
            index: self.index as int,
            stage: self.stage@,
            skipped: skipped_views(self.skipped@),
        }
    }
}

impl Adder {
    #[verifier::type_invariant]
    spec fn well_formed(self) -> bool {
        self@.wf()
    }

    /// Turns to the input at `index`, or ends the run past the last.
    fn turn_to(
        repo_dir: Vec<u8>,
        files: Vec<Vec<u8>>,
        skipped: Vec<Skipped>,
        index: usize,
    ) -> (r: (Adder, Action))
        requires
            index <= files.len(),
        ensures
            (r.0@, r.1@) == (State {
                repo_dir: repo_dir@,
                files: views(files@),
                index: index as int,
                stage: StageView::Finished,
                skipped: skipped_views(skipped@),
            }).turn_to(index as int),
    {
        if index < files.len() {
            let path = slice_to_vec(files[index].as_slice());
            (
                Adder { repo_dir, files, index, stage: Stage::Classifying, skipped },
                Action::Classify { path },
            )
        } else {
            let last = if skipped.len() > 0 {
                Action::Report { text: report(&skipped) }
            } else {
                Action::Finish
            };
            (Adder { repo_dir, files, index, stage: Stage::Finished, skipped }, last)
        }
    }

    /// Begins a run that adds `files`, in their order, to the repository
    /// of `config`. With the adder comes the first action.
    pub fn new(config: Config, files: Vec<Vec<u8>>) -> (r: (Adder, Action))
        ensures
            (r.0@, r.1@) == State::start(config.repo_dir@, views(files@)),
            r.0@.wf(),
    {
        let r = Adder::turn_to(config.repo_dir, files, Vec::new(), 0);
        assert(skipped_views(Seq::<Skipped>::empty()) =~= Seq::<SkippedView>::empty());
        r
    }

    /// The inputs passed over so far, in the order they came.
    pub fn skipped(&self) -> (r: &Vec<Skipped>)
        ensures
            skipped_views(r@) == self@.skipped,
    {
        &self.skipped
    }

    /// Whether the run is over.
    pub fn is_finished(&self) -> (r: bool)
        ensures
            r == (self@.stage is Finished),
    {
        match self.stage {
            Stage::Finished => true,
            _ => false,
        }
    }

    /// Whether `event` answers the action that this adder handed out last.
    pub fn expects(&self, event: &Event) -> (r: bool)
        ensures
            r == self@.expects(event@),
    {
        match self.stage {
            Stage::Finished => false,
            Stage::Classifying => match event {
                Event::Classified(_) | Event::Failed(_) => true,
                _ => false,
            },
            Stage::Locating => match event {
                Event::Failed(_) => true,
                Event::Resolved(path) => file_name(path.as_slice()).is_some(),
                _ => false,
            },
            Stage::ResolvingBase { .. } | Stage::ResolvingTarget { .. } => match event {
                Event::Resolved(_) | Event::Failed(_) => true,
                _ => false,
            },
            Stage::Preparing { .. } | Stage::Moving { .. } | Stage::Linking => match event {
                Event::Done | Event::Failed(_) => true,
                _ => false,
            },
        }
    }

    /// Takes the answer to the last action and decides what comes next.
    pub fn step(self, event: Event) -> (r: (Adder, Action))
        requires
            self@.expects(event@),
        ensures
            (r.0@, r.1@) == self@.next(event@),
            r.0@.wf(),
    {
        proof {
            use_type_invariant(&self);
        }
        let ghost before = self@;
        let Adder { repo_dir, files, index, stage, skipped } = self;
        assert(before.wf());
        assert(before.stage == stage@);
        assert(before.index == index && before.files.len() == files.len());
        match (stage, event) {
            (_, Event::Failed(text)) => (
                Adder { repo_dir, files, index, stage: Stage::Finished, skipped },
                Action::Abort { error: Error::Io(text) },
            ),
            (Stage::Classifying, Event::Classified(kind)) => {
                let reason = match kind {
                    FileType::File => {
                        let path = slice_to_vec(files[index].as_slice());
                        return (
                            Adder { repo_dir, files, index, stage: Stage::Locating, skipped },
                            Action::Canonicalize { path },
                        );
                    },
                    FileType::Dir => SkipReason::Directory,
                    FileType::Symlink => SkipReason::Symlink,
                };
                let mut skipped = skipped;
                let path = slice_to_vec(files[index].as_slice());
                skipped.push(Skipped { path, reason });
                assert(skipped_views(skipped@) =~= before.skipped.push(
                    SkippedView { path: before.files[before.index], reason },
                ));
                Adder::turn_to(repo_dir, files, skipped, index + 1)
            },
            (Stage::Locating, Event::Resolved(source)) => {
                let name = file_name(source.as_slice()).unwrap();
                let dir = parent(source.as_slice()).unwrap();
                let dest = join(repo_dir.as_slice(), name.as_slice());
                let path = slice_to_vec(repo_dir.as_slice());
                (
                    Adder {
                        repo_dir,
                        files,
                        index,
                        stage: Stage::Preparing { source, dest, dir },
                        skipped,
                    },
                    Action::CreateDirAll { path },
                )
            },
            (Stage::Preparing { source, dest, dir }, Event::Done) => {
                let from = slice_to_vec(source.as_slice());
                let to = slice_to_vec(dest.as_slice());
                (
                    Adder {
                        repo_dir,
                        files,
                        index,
                        stage: Stage::Moving { source, dest, dir },
                        skipped,
                    },
                    Action::Rename { from, to },
                )
            },
            (Stage::Moving { source, dest, dir }, Event::Done) => (
                Adder {
                    repo_dir,
                    files,
                    index,
                    stage: Stage::ResolvingBase { source, dest },
                    skipped,
                },
                Action::Canonicalize { path: dir },
            ),
            (Stage::ResolvingBase { source, dest }, Event::Resolved(base)) => (
                Adder {
                    repo_dir,
                    files,
                    index,
                    stage: Stage::ResolvingTarget { source, base },
                    skipped,
                },
                Action::Canonicalize { path: dest },
            ),
            (Stage::ResolvingTarget { source, base }, Event::Resolved(target)) => {
                match relative_path_from(base.as_slice(), target.as_slice()) {
                    Ok(path) => (
                        Adder { repo_dir, files, index, stage: Stage::Linking, skipped },
                        Action::Symlink { target: path, link: source },
                    ),
                    Err(error) => (
                        Adder { repo_dir, files, index, stage: Stage::Finished, skipped },
                        Action::Abort { error },
                    ),
                }
            },
            (Stage::Linking, Event::Done) => Adder::turn_to(repo_dir, files, skipped, index + 1),
            _ => unreached(),
        }
    }
}

} // verus!
