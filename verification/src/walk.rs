//! Watching a directory tree: the walk that asks for a watch on a directory
//! and on each directory below it that no exclude pattern matches.
//!
//! The walk does not touch the file system. It says what it needs next, a
//! watch or the listing of a directory, and the caller hands in the answer.

use vstd::prelude::*;
use crate::error::InotifyToolsError;
use crate::filter::{matches_any, path_excluded};
use crate::pipeline::{watched, Added, InotifyTools};

verus! {

/// One entry of a directory.
#[derive(Debug, Clone)]
pub struct DirEntry {
    pub path: String,
    /// Whether the entry is a directory.
    pub is_dir: bool,
}

/// What the caller found in a directory: the entries that it could read, in
/// order, and the reason why it could read no more, if there is one.
#[derive(Debug)]
pub struct Listing {
    pub entries: Vec<DirEntry>,
    pub failure: Option<String>,
}

/// What the walk needs next.
#[derive(Debug)]
pub enum WalkRequest {
    /// A watch on this path.
    AddWatch(String),
    /// The listing of this directory.
    ListDir(String),
    /// Nothing: the walk is over, and these are the identifiers of the
    /// watches that it made, in the order in which it made them.
    Done(Vec<i32>),
    /// Nothing: the walk gave up.
    Failed(InotifyToolsError),
}

/// The answer to a request.
#[derive(Debug)]
pub enum WalkAnswer {
    /// The watch was made.
    Added(Added),
    /// No watch could be made; the field is the reason.
    AddFailed(String),
    Listed(Listing),
}

/// A directory whose entries are being gone through.
pub struct Frame {
    pub dir: String,
    pub entries: Vec<DirEntry>,
    /// How many of the entries are dealt with.
    pub next: usize,
    pub failure: Option<String>,
}

/// What a walk waits for.
pub enum Waiting {
    /// The answer to a request for a watch on this path.
    Watch { path: String, is_root: bool },
    /// The listing of this directory.
    Listing { dir: String },
    /// Nothing: the walk is over.
    Nothing,
}

/// Whether the walk asks for a watch on the entry: it is a directory, and no
/// exclude pattern matches its path.
pub open spec fn is_wanted(entry: DirEntry, exclude: Seq<Seq<char>>) -> bool {
    entry.is_dir && !matches_any(exclude, entry.path@)
}

/// Whether `frame` is well-formed.
pub open spec fn frame_wf(frame: Frame) -> bool {
    frame.next <= frame.entries.len()
}

/// The state of a walk.
pub struct WalkState {
    /// The directories that the walk is in, the innermost last.
    pub frames: Seq<Frame>,
    /// The identifiers of the watches made so far.
    pub ids: Seq<i32>,
    pub waiting: Waiting,
}

/// What a walk needs next.
pub enum Ask {
    AddWatch(String),
    ListDir(String),
    Done(Seq<i32>),
    Failed(InotifyToolsError),
}

impl View for WalkRequest {
    type V = Ask;

    open spec fn view(&self) -> Ask {
        match *self {
            WalkRequest::AddWatch(path) => Ask::AddWatch(path),
            WalkRequest::ListDir(dir) => Ask::ListDir(dir),
            WalkRequest::Done(ids) => Ask::Done(ids@),
            WalkRequest::Failed(error) => Ask::Failed(error),
        }
    }
}

/// How the walk goes on from the directories `frames`, the last of which is
/// the one that it is in: it asks for a watch on the next entry of that
/// directory that is wanted; a directory without such an entry is left for
/// the one above it, unless its listing broke off, which ends the walk; and
/// when no directory is left, the walk is over.
pub open spec fn settle(frames: Seq<Frame>, ids: Seq<i32>, exclude: Seq<Seq<char>>) -> (
    WalkState,
    Ask,
)
    decreases frames.len(), frames.last().entries.len() - frames.last().next,
{
    if frames.len() == 0 {
        (WalkState { frames, ids: Seq::empty(), waiting: Waiting::Nothing }, Ask::Done(ids))
    } else {
        let top = frames.last();
        if top.next >= top.entries.len() {
            match top.failure {
                Some(why) => (
                    WalkState { frames: frames.drop_last(), ids, waiting: Waiting::Nothing },
                    Ask::Failed(InotifyToolsError::ReadDir(top.dir, why)),
                ),
                None => settle(frames.drop_last(), ids, exclude),
            }
        } else {
            let entry = top.entries[top.next as int];
            let moved = frames.update(
                frames.len() - 1,
                Frame { next: (top.next + 1) as usize, ..top },
            );
            if is_wanted(entry, exclude) {
                (
                    WalkState {
                        frames: moved,
                        ids,
                        waiting: Waiting::Watch { path: entry.path, is_root: false },
                    },
                    Ask::AddWatch(entry.path),
                )
            } else {
                settle(moved, ids, exclude)
            }
        }
    }
}

/// What an answer makes of a walk: the state after it, and the next
/// request.
///
/// A watch that was made is noted, and the listing of its directory is asked
/// for, unless it is the root and no directory, which ends the walk. A watch
/// that could not be made ends the walk with the error. A listing puts the
/// walk into that directory, from where it goes on as `settle` says.
pub open spec fn walk_step(state: WalkState, exclude: Seq<Seq<char>>, answer: WalkAnswer) -> (
    WalkState,
    Ask,
) {
    match (state.waiting, answer) {
        (Waiting::Watch { path, is_root }, WalkAnswer::AddFailed(reason)) => (
            WalkState { waiting: Waiting::Nothing, ..state },
            Ask::Failed(InotifyToolsError::WatchAdd(path, reason)),
        ),
        (Waiting::Watch { path, is_root }, WalkAnswer::Added(added)) => if is_root
            && !added.is_directory {
            (
                WalkState { ids: Seq::empty(), waiting: Waiting::Nothing, ..state },
                Ask::Done(state.ids.push(added.wd)),
            )
        } else {
            (
                WalkState {
                    ids: state.ids.push(added.wd),
                    waiting: Waiting::Listing { dir: path },
                    ..state
                },
                Ask::ListDir(path),
            )
        },
        (Waiting::Listing { dir }, WalkAnswer::Listed(listing)) => settle(
            state.frames.push(
                Frame { dir, entries: listing.entries, next: 0, failure: listing.failure },
            ),
            state.ids,
            exclude,
        ),
        _ => (state, Ask::Done(state.ids)),
    }
}

/// The state of a walk that begins at `root`.
pub open spec fn start_state(root: String) -> WalkState {
    WalkState {
        frames: Seq::empty(),
        ids: Seq::empty(),
        waiting: Waiting::Watch { path: root, is_root: true },
    }
}

/// A walk over a directory tree.
pub struct TreeWalk {
    pub exclude: Vec<String>,
    /// The directories that the walk is in, the innermost last.
    pub frames: Vec<Frame>,
    /// The identifiers of the watches made so far.
    pub ids: Vec<i32>,
    pub waiting: Waiting,
}

impl View for TreeWalk {
    type V = WalkState;

    open spec fn view(&self) -> WalkState {
        WalkState { frames: self.frames@, ids: self.ids@, waiting: self.waiting }
    }
}

impl TreeWalk {
    /// The exclude patterns, as text.
    pub open spec fn patterns(&self) -> Seq<Seq<char>> {
        self.exclude@.map_values(|p: String| p@)
    }

    /// Whether no directory has more entries dealt with than it has.
    pub open spec fn wf(&self) -> bool {
        forall|i: int| 0 <= i < self.frames.len() ==> frame_wf(#[trigger] self.frames[i])
    }

    /// Whether the walk waits for `answer`.
    pub open spec fn accepts(&self, answer: WalkAnswer) -> bool {
        match self.waiting {
            Waiting::Watch { .. } => answer is Added || answer is AddFailed,
            Waiting::Listing { .. } => answer is Listed,
            Waiting::Nothing => false,
        }
    }

    /// Begins a walk at `root`, leaving out the directories that one of the
    /// patterns `exclude` matches. The walk asks for a watch on `root`.
    pub fn start(root: String, exclude: Vec<String>) -> (r: (Self, WalkRequest))
        ensures
            r.0.wf(),
            r.0.exclude == exclude,
            r.0@ == start_state(root),
            r.1@ == Ask::AddWatch(root),
    {
        let request = WalkRequest::AddWatch(root.clone());
        let walk = TreeWalk {
            exclude,
            frames: Vec::new(),
            ids: Vec::new(),
            waiting: Waiting::Watch { path: root, is_root: true },
        };
        (walk, request)
    }

    /// Whether the walk waits for `answer`.
    pub fn waits_for(&self, answer: &WalkAnswer) -> (r: bool)
        ensures
            r == self.accepts(*answer),
    {
        match &self.waiting {
            Waiting::Watch { .. } => match answer {
                WalkAnswer::Added(_) => true,
                WalkAnswer::AddFailed(_) => true,
                WalkAnswer::Listed(_) => false,
            },
            Waiting::Listing { .. } => match answer {
                WalkAnswer::Listed(_) => true,
                _ => false,
            },
            Waiting::Nothing => false,
        }
    }

    /// Goes on to the next directory that is wanted.
    fn go_on(&mut self) -> (r: WalkRequest)
        requires
            old(self).wf(),
        ensures
            final(self).wf(),
            final(self).exclude == old(self).exclude,
            (final(self)@, r@) == settle(old(self).frames@, old(self).ids@, old(self).patterns()),
    {
        let ghost patterns = self.patterns();
        let ghost first = self.frames@;
        let ghost ids = self.ids@;
        loop
            invariant
                self.wf(),
                self.exclude == old(self).exclude,
                self.ids@ == ids,
                ids == old(self).ids@,
                first == old(self).frames@,
                patterns == self.patterns(),
                patterns == old(self).patterns(),
                settle(self.frames@, ids, patterns) == settle(first, ids, patterns),
            decreases self.frames@.len(), self.frames@.last().entries.len() - self.frames@.last().next,
        {
            if self.frames.len() == 0 {
                let mut found: Vec<i32> = Vec::new();
                std::mem::swap(&mut found, &mut self.ids);
                self.waiting = Waiting::Nothing;
                return WalkRequest::Done(found);
            }
            let depth = self.frames.len() - 1;
            let ghost frames = self.frames@;
            assert(frame_wf(self.frames[depth as int]));
            if self.frames[depth].next >= self.frames[depth].entries.len() {
                let frame = self.frames.pop().unwrap();
                assert(self.frames@ == frames.drop_last());
                match frame.failure {
                    Some(why) => {
                        self.waiting = Waiting::Nothing;
                        return WalkRequest::Failed(InotifyToolsError::ReadDir(frame.dir, why));
                    },
                    None => {},
                }
            } else {
                let at = self.frames[depth].next;
                let mut frame = self.frames.pop().unwrap();
                let wanted = frame.entries[at].is_dir && !path_excluded(
                    frame.entries[at].path.as_str(),
                    &self.exclude,
                );
                let path = frame.entries[at].path.clone();
                frame.next = at + 1;
                self.frames.push(frame);
                assert(self.frames@ == frames.update(
                    depth as int,
                    Frame { next: (at + 1) as usize, ..frames[depth as int] },
                ));
                if wanted {
                    self.waiting = Waiting::Watch { path: path.clone(), is_root: false };
                    return WalkRequest::AddWatch(path);
                }
            }
        }
    }

    /// Takes in the answer to the request that the walk made last, and
    /// returns the next request, as `walk_step` says. A watch that was made
    /// goes into the table of `tools`.
    pub fn step(&mut self, tools: &mut InotifyTools, answer: WalkAnswer) -> (r: WalkRequest)
        requires
            old(self).wf(),
            old(tools).wf(),
            old(self).accepts(answer),
        ensures
            final(self).wf(),
            final(tools).wf(),
            final(tools).is_verbose() == old(tools).is_verbose(),
            final(self).exclude == old(self).exclude,
            (final(self)@, r@) == walk_step(old(self)@, old(self).patterns(), answer),
            final(tools)@ == match (old(self).waiting, answer) {
                (Waiting::Watch { path, is_root }, WalkAnswer::Added(added)) => watched(
                    old(tools)@,
                    path,
                    Ok(added),
                ),
                _ => old(tools)@,
            },
    {
        let mut waiting = Waiting::Nothing;
        std::mem::swap(&mut waiting, &mut self.waiting);
        match answer {
            WalkAnswer::AddFailed(reason) => match waiting {
                Waiting::Watch { path, is_root } => WalkRequest::Failed(
                    InotifyToolsError::WatchAdd(path, reason),
                ),
                _ => {
                    assert(false);
                    WalkRequest::Done(Vec::new())
                },
            },
            WalkAnswer::Added(added) => match waiting {
                Waiting::Watch { path, is_root } => {
                    let dir = path.clone();
                    let _ = tools.watch_file(path, Ok(added));
                    self.ids.push(added.wd);
                    if is_root && !added.is_directory {
                        let mut found: Vec<i32> = Vec::new();
                        std::mem::swap(&mut found, &mut self.ids);
                        WalkRequest::Done(found)
                    } else {
                        self.waiting = Waiting::Listing { dir: dir.clone() };
                        WalkRequest::ListDir(dir)
                    }
                },
                _ => {
                    assert(false);
                    WalkRequest::Done(Vec::new())
                },
            },
            WalkAnswer::Listed(listing) => match waiting {
                Waiting::Listing { dir } => {
                    self.frames.push(
                        Frame { dir, entries: listing.entries, next: 0, failure: listing.failure },
                    );
                    assert(frame_wf(self.frames@.last()));
                    self.go_on()
                },
                _ => {
                    assert(false);
                    WalkRequest::Done(Vec::new())
                },
            },
        }
    }
}

impl InotifyTools {
    /// Begins to watch `path` and the directories below it: a walk that
    /// leaves no directory out. The answers to its requests go to
    /// `TreeWalk::step`, with this pipeline.
    pub fn watch_recursively(&self, path: String) -> (r: (TreeWalk, WalkRequest))
        ensures
            r.0.wf(),
            r.0.exclude@.len() == 0,
            r.0@ == start_state(path),
            r.1@ == Ask::AddWatch(path),
    {
        TreeWalk::start(path, Vec::new())
    }

    /// Begins to watch `path` and the directories below it that none of
    /// `exclude_patterns` matches. The answers to the requests of the walk go
    /// to `TreeWalk::step`, with this pipeline.
    pub fn watch_recursively_with_exclude(&self, path: String, exclude_patterns: Vec<String>) -> (r:
        (TreeWalk, WalkRequest))
        ensures
            r.0.wf(),
            r.0.exclude == exclude_patterns,
            r.0@ == start_state(path),
            r.1@ == Ask::AddWatch(path),
    {
        TreeWalk::start(path, exclude_patterns)
    }
}

/// A directory tree as a walk meets it, where every watch can be made and
/// every directory listed.
pub struct World {
    /// What listing a directory gives.
    pub listing: spec_fn(String) -> Listing,
    /// What asking for a watch on a path gives.
    pub added: spec_fn(String) -> Added,
    /// How many levels of directories a directory has below it, at most.
    pub height: spec_fn(String) -> nat,
}

/// The `i`-th entry of the directory `dir`.
pub open spec fn entry_of(world: World, dir: String, i: int) -> DirEntry {
    (world.listing)(dir).entries[i]
}

/// Whether the world is a tree: no listing breaks off, and each directory
/// that a walk wants has fewer levels below it than the directory that it is
/// listed in.
pub open spec fn is_tree(world: World, exclude: Seq<Seq<char>>) -> bool {
    &&& forall|dir: String| (#[trigger] (world.listing)(dir)).failure is None
    &&& forall|dir: String, i: int|
        0 <= i < (world.listing)(dir).entries.len() && is_wanted(
            #[trigger] entry_of(world, dir, i),
            exclude,
        ) ==> (world.height)(entry_of(world, dir, i).path) < (world.height)(dir)
}

/// The directories below `dir` that a walk wants, those among the entries of
/// `dir` from the `from`-th on and all below them: each directory before what
/// is below it, in the order of the listings.
pub open spec fn below(world: World, exclude: Seq<Seq<char>>, dir: String, from: int) -> Seq<String>
    decreases (world.height)(dir), (world.listing)(dir).entries.len() - from,
{
    if from < 0 || from >= (world.listing)(dir).entries.len() {
        Seq::empty()
    } else {
        let entry = entry_of(world, dir, from);
        let rest = below(world, exclude, dir, from + 1);
        if !is_wanted(entry, exclude) {
            rest
        } else if (world.height)(entry.path) < (world.height)(dir) {
            seq![entry.path] + below(world, exclude, entry.path, 0) + rest
        } else {
            seq![entry.path] + rest
        }
    }
}

/// The identifiers of the watches on `paths`.
pub open spec fn watches_on(world: World, paths: Seq<String>) -> Seq<i32> {
    paths.map_values(|p: String| (world.added)(p).wd)
}

/// The answer of the world to a request.
pub open spec fn answer_to(world: World, ask: Ask) -> WalkAnswer {
    match ask {
        Ask::AddWatch(path) => WalkAnswer::Added((world.added)(path)),
        Ask::ListDir(dir) => WalkAnswer::Listed((world.listing)(dir)),
        _ => WalkAnswer::AddFailed(arbitrary()),
    }
}

/// Where a walk stands after at most `fuel` answers of the world: at the
/// request that ended it, if it has ended.
pub open spec fn run(
    state: WalkState,
    exclude: Seq<Seq<char>>,
    ask: Ask,
    world: World,
    fuel: nat,
) -> Ask
    decreases fuel,
{
    if fuel == 0 || ask is Done || ask is Failed {
        ask
    } else {
        let next = walk_step(state, exclude, answer_to(world, ask));
        run(next.0, exclude, next.1, world, (fuel - 1) as nat)
    }
}

/// Where a walk that goes on from the directories `frames` stands after at
/// most `fuel` answers of the world.
pub open spec fn run_on(
    frames: Seq<Frame>,
    ids: Seq<i32>,
    exclude: Seq<Seq<char>>,
    world: World,
    fuel: nat,
) -> Ask {
    let next = settle(frames, ids, exclude);
    run(next.0, exclude, next.1, world, fuel)
}

/// The directory `dir` of the world, with its first `from` entries dealt
/// with.
pub open spec fn frame_at(world: World, dir: String, from: int) -> Frame {
    Frame { dir, entries: (world.listing)(dir).entries, next: from as usize, failure: None }
}

/// A walk that is in a directory of a tree comes out of it, and has then
/// made the watches on the directories that it wants below it.
pub proof fn lemma_directory(
    world: World,
    exclude: Seq<Seq<char>>,
    frames: Seq<Frame>,
    dir: String,
    from: int,
    ids: Seq<i32>,
) -> (fuel: nat)
    requires
        is_tree(world, exclude),
        0 <= from <= (world.listing)(dir).entries.len(),
    ensures
        forall|more: nat|
            #[trigger] run_on(
                frames.push(frame_at(world, dir, from)),
                ids,
                exclude,
                world,
                fuel + more,
            ) == run_on(
                frames,
                ids + watches_on(world, below(world, exclude, dir, from)),
                exclude,
                world,
                more,
            ),
    decreases (world.height)(dir), (world.listing)(dir).entries.len() - from,
{
    let entries = (world.listing)(dir).entries;
    let inside = frames.push(frame_at(world, dir, from));
    assert(inside.drop_last() == frames);
    if from >= entries.len() {
        assert(watches_on(world, Seq::<String>::empty()) == Seq::<i32>::empty());
        assert(ids + Seq::<i32>::empty() == ids);
        assert(settle(inside, ids, exclude) == settle(frames, ids, exclude));
        assert forall|more: nat|
            #[trigger] run_on(inside, ids, exclude, world, 0 + more) == run_on(
                frames,
                ids,
                exclude,
                world,
                more,
            ) by {}
        0
    } else {
        let entry = entry_of(world, dir, from);
        let moved = frames.push(frame_at(world, dir, from + 1));
        assert(inside.update(
            inside.len() - 1,
            Frame { next: (from + 1) as usize, ..frame_at(world, dir, from) },
        ) == moved);
        if !is_wanted(entry, exclude) {
            let after = lemma_directory(world, exclude, frames, dir, from + 1, ids);
            assert(settle(inside, ids, exclude) == settle(moved, ids, exclude));
            assert forall|more: nat|
                #[trigger] run_on(inside, ids, exclude, world, after + more) == run_on(
                    frames,
                    ids + watches_on(world, below(world, exclude, dir, from)),
                    exclude,
                    world,
                    more,
                ) by {
                assert(run_on(inside, ids, exclude, world, after + more) == run_on(
                    moved,
                    ids,
                    exclude,
                    world,
                    after + more,
                ));
            }
            after
        } else {
            let wd = (world.added)(entry.path).wd;
            let seen = ids.push(wd);
            assert((world.listing)(entry.path).failure is None);
            assert(Frame {
                dir: entry.path,
                entries: (world.listing)(entry.path).entries,
                next: 0,
                failure: (world.listing)(entry.path).failure,
            } == frame_at(world, entry.path, 0));
            let down = lemma_directory(world, exclude, moved, entry.path, 0, seen);
            let deep = below(world, exclude, entry.path, 0);
            let rest = below(world, exclude, dir, from + 1);
            let up = lemma_directory(
                world,
                exclude,
                frames,
                dir,
                from + 1,
                seen + watches_on(world, deep),
            );
            assert(watches_on(world, seq![entry.path] + deep + rest) == seq![wd] + watches_on(
                world,
                deep,
            ) + watches_on(world, rest));
            assert(ids + (seq![wd] + watches_on(world, deep) + watches_on(world, rest)) == seen
                + watches_on(world, deep) + watches_on(world, rest));
            let fuel = 2 + down + up;
            assert forall|more: nat|
                #[trigger] run_on(inside, ids, exclude, world, fuel + more) == run_on(
                    frames,
                    ids + watches_on(world, below(world, exclude, dir, from)),
                    exclude,
                    world,
                    more,
                ) by {
                let asked = settle(inside, ids, exclude);
                let listed = walk_step(asked.0, exclude, answer_to(world, asked.1));
                assert(run(asked.0, exclude, asked.1, world, fuel + more) == run(
                    listed.0,
                    exclude,
                    listed.1,
                    world,
                    (fuel + more - 1) as nat,
                ));
                assert(run_on(inside, ids, exclude, world, fuel + more) == run_on(
                    moved.push(frame_at(world, entry.path, 0)),
                    seen,
                    exclude,
                    world,
                    down + (up + more),
                ));
                assert(run_on(
                    moved.push(frame_at(world, entry.path, 0)),
                    seen,
                    exclude,
                    world,
                    down + (up + more),
                ) == run_on(moved, seen + watches_on(world, deep), exclude, world, up + more));
            }
            fuel
        }
    }
}

/// The identifiers of the watches that a walk of a tree makes from `root`:
/// that of the root, and those of the directories below it that the walk
/// wants.
pub open spec fn watches_of_tree(world: World, exclude: Seq<Seq<char>>, root: String) -> Seq<i32> {
    if (world.added)(root).is_directory {
        seq![(world.added)(root).wd] + watches_on(world, below(world, exclude, root, 0))
    } else {
        seq![(world.added)(root).wd]
    }
}

/// In a tree, where every watch can be made and every directory listed, a
/// walk comes to its end, and has then made a watch on the root and on each
/// directory below it that lies in no directory that an exclude pattern
/// matches, and on no other: each directory before those below it, in the
/// order of the listings.
pub proof fn lemma_walk_covers_tree(world: World, exclude: Seq<Seq<char>>, root: String) -> (fuel:
    nat)
    requires
        is_tree(world, exclude),
    ensures
        run(start_state(root), exclude, Ask::AddWatch(root), world, fuel) == Ask::Done(
            watches_of_tree(world, exclude, root),
        ),
{
    let begun = start_state(root);
    let added = (world.added)(root);
    let first = walk_step(begun, exclude, answer_to(world, Ask::AddWatch(root)));
    if !added.is_directory {
        assert(Seq::<i32>::empty().push(added.wd) == seq![added.wd]);
        assert(run(first.0, exclude, first.1, world, 0) == first.1);
        1
    } else {
        let ids = Seq::<i32>::empty().push(added.wd);
        assert(ids == seq![added.wd]);
        assert((world.listing)(root).failure is None);
        assert(Frame {
            dir: root,
            entries: (world.listing)(root).entries,
            next: 0,
            failure: (world.listing)(root).failure,
        } == frame_at(world, root, 0));
        let down = lemma_directory(world, exclude, Seq::empty(), root, 0, ids);
        let fuel = 2 + down;
        let second = walk_step(first.0, exclude, answer_to(world, first.1));
        assert(run(begun, exclude, Ask::AddWatch(root), world, fuel) == run(
            first.0,
            exclude,
            first.1,
            world,
            (fuel - 1) as nat,
        ));
        assert(run(first.0, exclude, first.1, world, (fuel - 1) as nat) == run(
            second.0,
            exclude,
            second.1,
            world,
            down,
        ));
        assert(run(second.0, exclude, second.1, world, down) == run_on(
            Seq::<Frame>::empty().push(frame_at(world, root, 0)),
            ids,
            exclude,
            world,
            down + 0,
        ));
        fuel
    }
}

} // verus!
