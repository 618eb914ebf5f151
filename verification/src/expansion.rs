//! The expansion of a list of paths into the regular files they name, as a
//! machine that asks what it needs to know about the file system and is fed
//! the answers. It touches no file itself: whoever drives it probes and walks.

use crate::walk::{files_among, regular_files, WalkDirOptions, WalkEntry};
use vstd::prelude::*;

verus! {

/// What an expansion waits for about the path at its cursor.
#[derive(Copy, Clone, Debug, PartialEq, Eq, Structural)]
pub enum Stage {
    /// Whether the path is an existing regular file.
    Probing,
    /// The entries of a walk of the path with these options.
    Walking(WalkDirOptions),
    /// Nothing more: a walk has failed, and the expansion with it.
    Failed,
}

/// What the driver of an expansion has to do next.
#[derive(Clone, Debug, PartialEq, Eq)]
pub enum Action {
    /// Find out whether this path is an existing regular file, and feed
    /// `Event::Probed`.
    Probe(Vec<u8>),
    /// Walk the tree rooted at this path with these options, and feed
    /// `Event::Walked` with every entry in walk order, or `Event::WalkFailed`.
    Walk(Vec<u8>, WalkDirOptions),
    /// Every path is resolved: take the files.
    Finish,
    /// A walk has failed: there is no result.
    Abort,
}

/// An `Action` with its path as a sequence of bytes.
pub enum ActionView {
    Probe(Seq<u8>),
    Walk(Seq<u8>, WalkDirOptions),
    Finish,
    Abort,
}

impl View for Action {
    type V = ActionView;

    open spec fn view(&self) -> ActionView {
        match *self {
            Action::Probe(path) => ActionView::Probe(path@),
            Action::Walk(path, opts) => ActionView::Walk(path@, opts),
            Action::Finish => ActionView::Finish,
            Action::Abort => ActionView::Abort,
        }
    }
}

/// What the driver found out.
#[derive(Clone, Debug, PartialEq, Eq)]
pub enum Event {
    /// Whether the probed path is an existing regular file.
    Probed(bool),
    /// The entries of the walk, in walk order.
    Walked(Vec<WalkEntry>),
    /// The walk met an error.
    WalkFailed,
}

/// An `Event` with its entries as pairs of a path and whether it is a
/// regular file.
pub enum EventView {
    Probed(bool),
    Walked(Seq<(Seq<u8>, bool)>),
    WalkFailed,
}

impl View for Event {
    type V = EventView;

    open spec fn view(&self) -> EventView {
        match *self {
            Event::Probed(is_file) => EventView::Probed(is_file),
            Event::Walked(entries) => EventView::Walked(entries.deep_view()),
            Event::WalkFailed => EventView::WalkFailed,
        }
    }
}

/// Why an expansion has no result.
#[derive(Copy, Clone, Debug, PartialEq, Eq, Structural)]
pub enum ExpandError {
    /// A walk met an error, which is fatal to the whole expansion.
    WalkFailed,
    /// The expansion still waits for an answer.
    Unfinished,
}

/// An expansion under way: the paths to resolve, how far it has come, and
/// the files found so far.
pub struct Expansion {
    paths: Vec<Vec<u8>>,
    walk_opts: Option<WalkDirOptions>,
    cursor: usize,
    stage: Stage,
    found: Vec<Vec<u8>>,
}

/// The state of an expansion. The paths before `cursor` are resolved, and
/// `found` holds their files; `stage` says what is awaited about the path at
/// `cursor`.
pub struct ExpansionView {
    pub paths: Seq<Seq<u8>>,
    pub walk_opts: Option<WalkDirOptions>,
    pub cursor: nat,
    pub stage: Stage,
    pub found: Seq<Seq<u8>>,
}

impl ExpansionView {
    /// The state before anything is known: at the first path, nothing found.
    pub open spec fn start(paths: Seq<Seq<u8>>, walk_opts: Option<WalkDirOptions>) -> ExpansionView {
        ExpansionView { paths, walk_opts, cursor: 0, stage: Stage::Probing, found: Seq::empty() }
    }

    /// What has to be done next in this state.
    pub open spec fn pending(self) -> ActionView {
        match self.stage {
            Stage::Failed => ActionView::Abort,
            Stage::Walking(opts) => if self.cursor < self.paths.len() {
                ActionView::Walk(self.paths[self.cursor as int], opts)
            } else {
                ActionView::Finish
            },
            Stage::Probing => if self.cursor < self.paths.len() {
                ActionView::Probe(self.paths[self.cursor as int])
            } else {
                ActionView::Finish
            },
        }
    }

    /// Whether the event answers what is pending.
    pub open spec fn answers(self, event: EventView) -> bool {
        match self.pending() {
            ActionView::Probe(_) => event is Probed,
            ActionView::Walk(_, _) => event is Walked || event is WalkFailed,
            _ => false,
        }
    }

    /// The state with the path at the cursor resolved to `files`.
    pub open spec fn advanced(self, files: Seq<Seq<u8>>) -> ExpansionView {
        ExpansionView {
            cursor: self.cursor + 1,
            stage: Stage::Probing,
            found: self.found + files,
            ..self
        }
    }

    /// The state after an event. A regular file is found as it is. A path
    /// that is none is walked where walk options are set and names nothing
    /// where none are. Of a walk, the regular files among its entries are
    /// found, in walk order; a failed walk ends the expansion. An event that
    /// does not answer what is pending changes nothing.
    pub open spec fn fed(self, event: EventView) -> ExpansionView {
        match (self.pending(), event) {
            (ActionView::Probe(path), EventView::Probed(true)) => self.advanced(seq![path]),
            (ActionView::Probe(_), EventView::Probed(false)) => match self.walk_opts {
                Some(opts) => ExpansionView { stage: Stage::Walking(opts), ..self },
                None => self.advanced(Seq::empty()),
            },
            (ActionView::Walk(_, _), EventView::Walked(entries)) => self.advanced(
                files_among(entries),
            ),
            (ActionView::Walk(_, _), EventView::WalkFailed) => ExpansionView {
                stage: Stage::Failed,
                ..self
            },
            _ => self,
        }
    }
}

impl View for Expansion {
    type V = ExpansionView;

    closed spec fn view(&self) -> ExpansionView {
        ExpansionView {
            paths: self.paths.deep_view(),
            walk_opts: self.walk_opts,
            cursor: self.cursor as nat,
            stage: self.stage,
            found: self.found.deep_view(),
        }
    }
}

impl Expansion {
    /// Begins the expansion of `paths`, in their order. With walk options, a
    /// path that is no regular file is walked; without, it names nothing.
    pub fn new(paths: Vec<Vec<u8>>, walk_opts: Option<WalkDirOptions>) -> (run: Expansion)
        ensures
            run@ == ExpansionView::start(paths.deep_view(), walk_opts),
    {
        let run = Expansion { paths, walk_opts, cursor: 0, stage: Stage::Probing, found: Vec::new() };
        assert(run.found.deep_view() =~= Seq::<Seq<u8>>::empty());
        run
    }

    /// What the driver has to do next.
    pub fn action(&self) -> (action: Action)
        ensures
            action@ == self@.pending(),
    {
        match self.stage {
            Stage::Failed => Action::Abort,
            Stage::Walking(opts) => if self.cursor < self.paths.len() {
                let path = self.paths[self.cursor].clone();
                assert(path@ == self.paths.deep_view()[self.cursor as int]);
                Action::Walk(path, opts)
            } else {
                Action::Finish
            },
            Stage::Probing => if self.cursor < self.paths.len() {
                let path = self.paths[self.cursor].clone();
                assert(path@ == self.paths.deep_view()[self.cursor as int]);
                Action::Probe(path)
            } else {
                Action::Finish
            },
        }
    }

    /// Takes the answer to what was pending and moves on. Says whether the
    /// event was such an answer; one that was not is dropped.
    pub fn feed(&mut self, event: Event) -> (accepted: bool)
        ensures
            final(self)@ == old(self)@.fed(event@),
            accepted == old(self)@.answers(event@),
    {
        if self.cursor >= self.paths.len() {
            return false;
        }
        let ghost before = self.found.deep_view();
        match self.stage {
            Stage::Failed => false,
            Stage::Probing => match event {
                Event::Probed(true) => {
                    let path = self.paths[self.cursor].clone();
                    assert(path.deep_view() =~= path@);
                    self.found.push(path);
                    assert(self.found.deep_view() =~= before + seq![path@]);
                    self.cursor = self.cursor + 1;
                    true
                },
                Event::Probed(false) => {
                    match self.walk_opts {
                        Some(opts) => {
                            self.stage = Stage::Walking(opts);
                        },
                        None => {
                            self.cursor = self.cursor + 1;
                        },
                    }
                    true
                },
                _ => false,
            },
            Stage::Walking(_) => match event {
                Event::Walked(entries) => {
                    let mut files = regular_files(entries);
                    let ghost added = files.deep_view();
                    self.found.append(&mut files);
                    assert(self.found.deep_view() =~= before + added);
                    self.cursor = self.cursor + 1;
                    self.stage = Stage::Probing;
                    true
                },
                Event::WalkFailed => {
                    self.stage = Stage::Failed;
                    true
                },
                _ => false,
            },
        }
    }

    /// Ends the expansion: the files found, in order, once every path is
    /// resolved; an error after a failed walk, and while an answer is still
    /// awaited.
    pub fn finish(self) -> (r: Result<Vec<Vec<u8>>, ExpandError>)
        ensures
            match self@.pending() {
                ActionView::Finish => r is Ok && r.unwrap().deep_view() == self@.found,
                ActionView::Abort => r == Err::<Vec<Vec<u8>>, ExpandError>(ExpandError::WalkFailed),
                _ => r == Err::<Vec<Vec<u8>>, ExpandError>(ExpandError::Unfinished),
            },
    {
        match self.stage {
            Stage::Failed => Err(ExpandError::WalkFailed),
            _ => if self.cursor < self.paths.len() {
                Err(ExpandError::Unfinished)
            } else {
                Ok(self.found)
            },
        }
    }
}

/// The files of two expansions, one after the other; a failure of either is
/// a failure of both.
pub open spec fn chained(first: Option<Seq<Seq<u8>>>, rest: Option<Seq<Seq<u8>>>) -> Option<
    Seq<Seq<u8>>,
> {
    match (first, rest) {
        (Some(head), Some(tail)) => Some(head + tail),
        _ => None,
    }
}

/// A file system held still: of every path, whether it is an existing
/// regular file, and what a walk of it with given options reports, or that
/// the walk fails.
pub struct Snapshot {
    pub regular: spec_fn(Seq<u8>) -> bool,
    pub walked: spec_fn(Seq<u8>, WalkDirOptions) -> Option<Seq<(Seq<u8>, bool)>>,
}

impl Snapshot {
    /// The event that answers an action, where it asks anything.
    pub open spec fn reply(self, action: ActionView) -> Option<EventView> {
        match action {
            ActionView::Probe(path) => Some(EventView::Probed((self.regular)(path))),
            ActionView::Walk(path, opts) => match (self.walked)(path, opts) {
                Some(entries) => Some(EventView::Walked(entries)),
                None => Some(EventView::WalkFailed),
            },
            _ => None,
        }
    }

    /// The files that one path names, or `None` where its walk fails. A
    /// regular file names itself, whatever the walk options. Any other path
    /// names the regular files of its walk where walk options are set, and
    /// nothing where none are.
    pub open spec fn resolved_path(self, path: Seq<u8>, walk_opts: Option<WalkDirOptions>) -> Option<
        Seq<Seq<u8>>,
    > {
        if (self.regular)(path) {
            Some(seq![path])
        } else {
            match walk_opts {
                Some(opts) => match (self.walked)(path, opts) {
                    Some(entries) => Some(files_among(entries)),
                    None => None,
                },
                None => Some(Seq::empty()),
            }
        }
    }

    /// The files that the paths name, path after path, or `None` where a
    /// walk fails.
    pub open spec fn resolved(self, paths: Seq<Seq<u8>>, walk_opts: Option<WalkDirOptions>) -> Option<
        Seq<Seq<u8>>,
    >
        decreases paths.len(),
    {
        if paths.len() == 0 {
            Some(Seq::empty())
        } else {
            chained(
                self.resolved_path(paths.first(), walk_opts),
                self.resolved(paths.drop_first(), walk_opts),
            )
        }
    }

    /// The state in which an expansion comes to rest when every action is
    /// answered from this snapshot.
    pub open spec fn run(self, state: ExpansionView) -> ExpansionView
        decreases steps_left(state),
    {
        match self.reply(state.pending()) {
            Some(event) => self.run(state.fed(event)),
            None => state,
        }
    }
}

/// A bound on the answers that an expansion still asks for: two for each
/// path left, less one while the walk of the current path is awaited.
pub open spec fn steps_left(state: ExpansionView) -> nat {
    match state.pending() {
        ActionView::Probe(_) => (2 * (state.paths.len() - state.cursor)) as nat,
        ActionView::Walk(_, _) => (2 * (state.paths.len() - state.cursor) - 1) as nat,
        _ => 0,
    }
}

/// What is neither a regular file nor walked names nothing, and is no
/// error: so a path that does not exist, a directory, or a special file,
/// where no walk options are set.
pub proof fn lemma_unwalked_path_names_nothing(snapshot: Snapshot, path: Seq<u8>)
    requires
        !(snapshot.regular)(path),
    ensures
        snapshot.resolved_path(path, None) == Some(Seq::<Seq<u8>>::empty()),
{
}

/// A regular file names exactly itself, with walk options and without.
pub proof fn lemma_regular_file_names_itself(
    snapshot: Snapshot,
    path: Seq<u8>,
    walk_opts: Option<WalkDirOptions>,
)
    requires
        (snapshot.regular)(path),
    ensures
        snapshot.resolved_path(path, walk_opts) == Some(seq![path]),
{
}

/// Driven from a state that probes, an expansion adds to what it has found
/// the files that the paths from its cursor on name, or fails where a walk
/// of one of them fails.
pub proof fn lemma_run_from(snapshot: Snapshot, state: ExpansionView)
    requires
        state.stage == Stage::Probing,
        state.cursor <= state.paths.len(),
    ensures
        match snapshot.resolved(state.paths.skip(state.cursor as int), state.walk_opts) {
            Some(files) => {
                &&& snapshot.run(state).pending() == ActionView::Finish
                &&& snapshot.run(state).found == state.found + files
            },
            None => snapshot.run(state).pending() == ActionView::Abort,
        },
    decreases state.paths.len() - state.cursor,
{
    let rest = state.paths.skip(state.cursor as int);
    if state.cursor == state.paths.len() {
        assert(state.found + Seq::<Seq<u8>>::empty() =~= state.found);
    } else {
        let path = state.paths[state.cursor as int];
        assert(rest.first() == path);
        assert(rest.drop_first() =~= state.paths.skip(state.cursor as int + 1));
        let probed = state.fed(snapshot.reply(state.pending()).unwrap());
        assert(snapshot.run(state) == snapshot.run(probed));
        let next = if probed.stage is Walking {
            let walked = probed.fed(snapshot.reply(probed.pending()).unwrap());
            assert(snapshot.run(probed) == snapshot.run(walked));
            walked
        } else {
            probed
        };
        if next.stage == Stage::Failed {
            assert(snapshot.run(next) == next);
        } else {
            lemma_run_from(snapshot, next);
            let head = snapshot.resolved_path(path, state.walk_opts).unwrap();
            assert(next.found == state.found + head);
            match snapshot.resolved(rest.drop_first(), state.walk_opts) {
                Some(tail) => {
                    assert(state.found + head + tail =~= state.found + (head + tail));
                },
                None => {},
            }
        }
    }
}

/// Driven to the end on a file system that holds still, an expansion
/// finishes with the files that its paths name, in the order of the paths,
/// or aborts where the walk of one of them fails.
pub proof fn lemma_run_resolves(
    snapshot: Snapshot,
    paths: Seq<Seq<u8>>,
    walk_opts: Option<WalkDirOptions>,
)
    ensures
        match snapshot.resolved(paths, walk_opts) {
            Some(files) => {
                &&& snapshot.run(ExpansionView::start(paths, walk_opts)).pending()
                    == ActionView::Finish
                &&& snapshot.run(ExpansionView::start(paths, walk_opts)).found == files
            },
            None => snapshot.run(ExpansionView::start(paths, walk_opts)).pending()
                == ActionView::Abort,
        },
{
    let state = ExpansionView::start(paths, walk_opts);
    assert(paths.skip(0) =~= paths);
    lemma_run_from(snapshot, state);
    match snapshot.resolved(paths, walk_opts) {
        Some(files) => {
            assert(state.found + files =~= files);
        },
        None => {},
    }
}

/// The files of a list of paths are those of its first part followed by
/// those of the rest; a failed walk in either part fails the whole.
pub proof fn lemma_resolved_concat(
    snapshot: Snapshot,
    first: Seq<Seq<u8>>,
    rest: Seq<Seq<u8>>,
    walk_opts: Option<WalkDirOptions>,
)
    ensures
        snapshot.resolved(first + rest, walk_opts) == chained(
            snapshot.resolved(first, walk_opts),
            snapshot.resolved(rest, walk_opts),
        ),
    decreases first.len(),
{
    if first.len() == 0 {
        assert(first + rest =~= rest);
        match snapshot.resolved(rest, walk_opts) {
            Some(tail) => {
                assert(Seq::<Seq<u8>>::empty() + tail =~= tail);
            },
            None => {},
        }
    } else {
        assert((first + rest).first() == first.first());
        assert((first + rest).drop_first() =~= first.drop_first() + rest);
        lemma_resolved_concat(snapshot, first.drop_first(), rest, walk_opts);
        match (
            snapshot.resolved_path(first.first(), walk_opts),
            snapshot.resolved(first.drop_first(), walk_opts),
            snapshot.resolved(rest, walk_opts),
        ) {
            (Some(a), Some(b), Some(c)) => {
                assert(a + (b + c) =~= (a + b) + c);
            },
            _ => {},
        }
    }
}

/// Every answer brings an expansion nearer to its end, so that it asks two
/// questions for each path at most; and no event changes the paths, the walk
/// options, or what was found before it.
pub proof fn lemma_feed_progress(state: ExpansionView, event: EventView)
    ensures
        state.answers(event) ==> steps_left(state.fed(event)) < steps_left(state),
        !state.answers(event) ==> state.fed(event) == state,
        steps_left(state) <= 2 * state.paths.len(),
        state.fed(event).paths == state.paths,
        state.fed(event).walk_opts == state.walk_opts,
        state.fed(event).cursor >= state.cursor,
        state.found.is_prefix_of(state.fed(event).found),
{
}

} // verus!
