//! The event pipeline: it resolves what the event source reports against the
//! table of watches, counts it, keeps the table in step with renames and
//! with paths that are gone, and says what the caller gets to see.

use vstd::prelude::*;
use vstd::string::StringExecFns;
use crate::error::InotifyToolsError;
use crate::event::{
    overlaps, Event, EventMask, ALL_FLAGS, CREATE, DELETE_SELF, IGNORED, ISDIR, MOVED_FROM,
    MOVED_TO, Q_OVERFLOW, UNMOUNT,
};
use crate::filter::{compile, is_match, regex_compiles, regex_matches, regex_source};
use crate::path::is_under;
use crate::stats::{consistent, recorded, Statistics, StatsView};
use crate::table::{
    distinct_ids, has_watch, inside, lemma_slot_is_first, outside, slot, slot_of_path, with_hit,
    with_watch, without_slot, WatchTable,
};
use crate::watch::Watch;

verus! {

/// The flags of an event that a watch does not outlive: `DELETE_SELF`,
/// `UNMOUNT` and `IGNORED`.
pub const GONE: u32 = 0x0000_a400;

/// The flags that a watch does not outlive, one by one.
pub proof fn lemma_gone_flags()
    ensures
        GONE == DELETE_SELF | UNMOUNT | IGNORED,
{
    assert(0xa400u32 == 0x400u32 | 0x2000u32 | 0x8000u32) by (bit_vector);
}

/// How the pipeline is set up.
#[derive(Debug, Clone)]
pub struct Config {
    pub fanotify: bool,
    pub filesystem_watch: bool,
    pub verbose: bool,
}

impl Default for Config {
    fn default() -> (r: Self)
        ensures
            !r.fanotify && !r.filesystem_watch && !r.verbose,
    {
        Config { fanotify: false, filesystem_watch: false, verbose: false }
    }
}

/// One event as the event source reports it.
#[derive(Debug, Clone)]
pub struct RawEvent {
    /// The identifier of the watch.
    pub wd: i32,
    /// The bits of the kinds and flags.
    pub mask: u32,
    /// The token that pairs the two events of one rename.
    pub cookie: u32,
    /// The name of the entry in the watched directory, for an event about an
    /// entry.
    pub name: Option<String>,
}

/// What came of asking the event source for an event.
#[derive(Debug)]
pub enum SourceRead {
    Event(RawEvent),
    /// No event came within the time allowed.
    Timeout,
    /// No event will come any more.
    EndOfStream,
    /// Reading failed; the field is the reason.
    Failed(String),
}

/// What the caller gets to see of one step of the pipeline.
#[derive(Debug)]
pub enum Outcome {
    /// An event that passed the filters.
    Observable(Event),
    /// An event was counted, and the filters hide it.
    Filtered,
    /// An event for a watch that the table does not know was dropped.
    Discarded,
    /// The event source lost events: the statistics are incomplete from here
    /// on.
    Overflow,
    Timeout,
    EndOfStream,
}

/// One step of the pipeline.
#[derive(Debug)]
pub struct Step {
    pub outcome: Outcome,
    /// The identifiers of the watches that left the table.
    pub removed: Vec<i32>,
    /// A directory that appeared in the watched tree, to be watched with all
    /// below it.
    pub grow: Option<String>,
}

/// A rename that has begun: the path that was moved away, and the cookie of
/// the event that said so.
pub struct PendingMove {
    pub path: String,
    pub cookie: u32,
}

/// The state of a pipeline.
pub struct PipelineView {
    pub watches: Seq<Watch>,
    pub stats: StatsView,
    /// The pattern that a path must match to be shown.
    pub include_pattern: Option<Seq<char>>,
    /// The pattern that a path must not match to be shown.
    pub exclude_pattern: Option<Seq<char>>,
    /// Whether the table is kept in step with renames and new directories.
    pub recursive: bool,
    /// The rename that has begun, if one has.
    pub pending: Option<(Seq<char>, u32)>,
}

/// Whether the filters hide events on `path`: the exclude pattern matches
/// it, or else the include pattern does not.
pub open spec fn is_hidden(v: PipelineView, path: Seq<char>) -> bool {
    ||| v.exclude_pattern matches Some(p) && regex_matches(p, path)
    ||| v.include_pattern matches Some(p) && !regex_matches(p, path)
}

/// Whether an event with the kinds `mask` and the cookie `cookie` completes
/// the rename that has begun.
pub open spec fn completes(pending: Option<(Seq<char>, u32)>, mask: u32, cookie: u32) -> bool {
    pending matches Some(p) && overlaps(mask, MOVED_TO) && cookie == p.1
}

/// The watches after such an event where a rename has begun: without those
/// on the path that was moved away and below it, unless the event completes
/// the rename.
pub open spec fn after_rename(
    watches: Seq<Watch>,
    pending: Option<(Seq<char>, u32)>,
    mask: u32,
    cookie: u32,
) -> Seq<Watch> {
    match pending {
        Some(p) => if completes(pending, mask, cookie) {
            watches
        } else {
            outside(watches, p.0)
        },
        None => watches,
    }
}

/// The rename that has begun after an event on `path`.
pub open spec fn pending_after(path: Seq<char>, mask: u32, cookie: u32) -> Option<
    (Seq<char>, u32),
> {
    if overlaps(mask, MOVED_FROM) {
        Some((path, cookie))
    } else {
        None
    }
}

/// Whether the event is taken for a new directory in the watched tree: a
/// directory that was made, or one that was moved in while no rename is
/// left open.
pub open spec fn grows(mask: u32, pending: Option<(Seq<char>, u32)>) -> bool {
    overlaps(mask, ISDIR) && (overlaps(mask, CREATE) || (overlaps(mask, MOVED_TO)
        && pending is None))
}

/// The path that the event `raw` is about.
pub open spec fn path_of(v: PipelineView, raw: RawEvent) -> Seq<char> {
    Event::resolved(v.watches[slot(v.watches, raw.wd)].path@, raw.name)
}

/// What an event that reaches a watch does to a pipeline: it is counted in
/// the statistics and for its watch, whatever the filters; where the table
/// is kept in step with renames, a rename that it does not complete takes
/// the watches on the moved path and below it out; and a watch whose path is
/// gone leaves the table.
pub open spec fn after_event(v: PipelineView, raw: RawEvent) -> PipelineView {
    let mask = raw.mask & ALL_FLAGS;
    let path = path_of(v, raw);
    let hit = with_hit(v.watches, raw.wd, mask);
    let renamed = if v.recursive {
        after_rename(hit, v.pending, mask, raw.cookie)
    } else {
        hit
    };
    PipelineView {
        watches: if overlaps(mask, GONE) {
            without_slot(renamed, slot(renamed, raw.wd))
        } else {
            renamed
        },
        stats: recorded(v.stats, path, mask),
        include_pattern: v.include_pattern,
        exclude_pattern: v.exclude_pattern,
        recursive: v.recursive,
        pending: if v.recursive {
            pending_after(path, mask, raw.cookie)
        } else {
            v.pending
        },
    }
}

/// Whether the event `raw` reaches a watch: it does not report lost events,
/// and the table knows its watch.
pub open spec fn reaches(v: PipelineView, raw: RawEvent) -> bool {
    !overlaps(raw.mask & ALL_FLAGS, Q_OVERFLOW) && has_watch(v.watches, raw.wd)
}

/// The identifiers of the watches that an event that reaches a watch takes
/// out of the table: those of a rename that it leaves open, then its own
/// where its path is gone.
pub open spec fn removed_by(v: PipelineView, raw: RawEvent) -> Seq<i32> {
    let mask = raw.mask & ALL_FLAGS;
    let hit = with_hit(v.watches, raw.wd, mask);
    let renamed = if v.recursive {
        after_rename(hit, v.pending, mask, raw.cookie)
    } else {
        hit
    };
    let moved_out = match v.pending {
        Some(p) => if v.recursive && !completes(v.pending, mask, raw.cookie) {
            inside(hit, p.0).map_values(|w: Watch| w.wd)
        } else {
            Seq::empty()
        },
        None => Seq::empty(),
    };
    if overlaps(mask, GONE) && has_watch(renamed, raw.wd) {
        moved_out.push(raw.wd)
    } else {
        moved_out
    }
}

/// Whether `step` is the step that the event `raw` makes of the pipeline
/// `before`, and `after` the pipeline that it leaves.
pub open spec fn is_step(before: PipelineView, raw: RawEvent, after: PipelineView, step: Step) -> bool {
    let mask = raw.mask & ALL_FLAGS;
    if overlaps(mask, Q_OVERFLOW) {
        &&& after == before
        &&& step.outcome is Overflow
        &&& step.removed@.len() == 0
        &&& step.grow is None
    } else if !has_watch(before.watches, raw.wd) {
        &&& after == before
        &&& step.outcome is Discarded
        &&& step.removed@.len() == 0
        &&& step.grow is None
    } else {
        &&& after == after_event(before, raw)
        &&& step.removed@ == removed_by(before, raw)
        &&& match step.grow {
            Some(dir) => before.recursive && grows(mask, after.pending) && dir@ == path_of(
                before,
                raw,
            ),
            None => !(before.recursive && grows(mask, after.pending)),
        }
        &&& match step.outcome {
            Outcome::Observable(e) => {
                &&& !is_hidden(before, path_of(before, raw))
                &&& e.wd == raw.wd
                &&& e.mask@ == mask
                &&& e.cookie == raw.cookie
                &&& e.name == raw.name
                &&& e.path@ == path_of(before, raw)
            },
            Outcome::Filtered => is_hidden(before, path_of(before, raw)),
            _ => false,
        }
    }
}

/// What holds of every pipeline: no two watches have one identifier, the
/// statistics are consistent, and no watch was hit more often than events
/// were recorded.
pub open spec fn sound(v: PipelineView) -> bool {
    &&& distinct_ids(v.watches)
    &&& consistent(v.stats)
    &&& forall|i: int|
        0 <= i < v.watches.len() ==> (#[trigger] v.watches[i]).wf() && v.watches[i].hit_total
            <= v.stats.events
}

/// The pipeline after the event `raw`: an event that reaches no watch leaves
/// it as it is.
pub open spec fn advanced(v: PipelineView, raw: RawEvent) -> PipelineView {
    if reaches(v, raw) {
        after_event(v, raw)
    } else {
        v
    }
}

/// The pipeline after the events `raws`, in order.
pub open spec fn advanced_all(v: PipelineView, raws: Seq<RawEvent>) -> PipelineView
    decreases raws.len(),
{
    if raws.len() == 0 {
        v
    } else {
        advanced(advanced_all(v, raws.drop_last()), raws.last())
    }
}

/// Whether two pipelines differ in their filters at most.
pub open spec fn same_but_filters(a: PipelineView, b: PipelineView) -> bool {
    &&& a.watches == b.watches
    &&& a.stats == b.stats
    &&& a.recursive == b.recursive
    &&& a.pending == b.pending
}

/// A step leaves the pipeline that `advanced` gives.
pub proof fn lemma_step_advances(before: PipelineView, raw: RawEvent, after: PipelineView, step: Step)
    requires
        is_step(before, raw, after, step),
    ensures
        after == advanced(before, raw),
{
}

/// The filters have no part in what is counted: two pipelines that differ
/// in their filters at most record the same statistics of the same events,
/// and keep the same watches.
pub proof fn lemma_filters_count_nothing(a: PipelineView, b: PipelineView, raws: Seq<RawEvent>)
    requires
        same_but_filters(a, b),
    ensures
        same_but_filters(advanced_all(a, raws), advanced_all(b, raws)),
        advanced_all(a, raws).stats == advanced_all(b, raws).stats,
        advanced_all(a, raws).include_pattern == a.include_pattern,
        advanced_all(a, raws).exclude_pattern == a.exclude_pattern,
    decreases raws.len(),
{
    if raws.len() > 0 {
        lemma_filters_count_nothing(a, b, raws.drop_last());
        lemma_filters_count_nothing(b, a, raws.drop_last());
    }
}

/// A rename within the watched tree takes no watch out: where the event
/// after a `MOVED_FROM` has `MOVED_TO` and the same cookie, the watches stay
/// as they are but for the hit of that event.
pub proof fn lemma_rename_within_tree(v: PipelineView, from: RawEvent, to: RawEvent)
    requires
        v.recursive,
        reaches(v, from),
        overlaps(from.mask & ALL_FLAGS, MOVED_FROM),
        reaches(after_event(v, from), to),
        overlaps(to.mask & ALL_FLAGS, MOVED_TO),
        to.cookie == from.cookie,
        !overlaps(to.mask & ALL_FLAGS, GONE),
    ensures
        after_event(v, from).pending == Some((path_of(v, from), from.cookie)),
        after_event(after_event(v, from), to).watches == with_hit(
            after_event(v, from).watches,
            to.wd,
            to.mask & ALL_FLAGS,
        ),
        removed_by(after_event(v, from), to) == Seq::<i32>::empty(),
        forall|id: i32|
            has_watch(after_event(v, from).watches, id) ==> has_watch(
                after_event(after_event(v, from), to).watches,
                id,
            ),
{
    crate::table::lemma_with_hit_keeps(after_event(v, from).watches, to.wd, to.mask & ALL_FLAGS);
}

/// A rename out of the watched tree takes the moved path out with all below
/// it: where the event after a `MOVED_FROM` has no `MOVED_TO` with the same
/// cookie, no watch on the moved path or below it is left.
pub proof fn lemma_rename_out_of_tree(v: PipelineView, from: RawEvent, next: RawEvent)
    requires
        v.recursive,
        reaches(v, from),
        overlaps(from.mask & ALL_FLAGS, MOVED_FROM),
        reaches(after_event(v, from), next),
        !(overlaps(next.mask & ALL_FLAGS, MOVED_TO) && next.cookie == from.cookie),
    ensures
        forall|i: int|
            0 <= i < after_event(after_event(v, from), next).watches.len() ==> !is_under(
                (#[trigger] after_event(after_event(v, from), next).watches[i]).path@,
                path_of(v, from),
            ),
{
    let mid = after_event(v, from);
    let mask = next.mask & ALL_FLAGS;
    let dir = path_of(v, from);
    let hit = with_hit(mid.watches, next.wd, mask);
    let keep = |w: Watch| !is_under(w.path@, dir);
    let renamed = outside(hit, dir);
    assert(renamed == hit.filter(keep));
    lemma_filter_kept(hit, keep);
    let after = after_event(mid, next).watches;
    let gone = slot(renamed, next.wd);
    assert forall|i: int| 0 <= i < after.len() implies !is_under(
        (#[trigger] after[i]).path@,
        dir,
    ) by {
        if overlaps(mask, GONE) && 0 <= gone < renamed.len() {
            let j = if i < gone { i } else { i + 1 };
            assert(after[i] == renamed[j]);
            assert(keep(renamed[j]));
        } else {
            assert(after[i] == renamed[i]);
            assert(keep(renamed[i]));
        }
    }
}

/// What is left after filtering meets the condition.
pub proof fn lemma_filter_kept(s: Seq<Watch>, keep: spec_fn(Watch) -> bool)
    ensures
        forall|i: int| 0 <= i < s.filter(keep).len() ==> keep(#[trigger] s.filter(keep)[i]),
    decreases s.len(),
{
    reveal(Seq::filter);
    if s.len() > 0 {
        lemma_filter_kept(s.drop_last(), keep);
    }
}

/// What is left of a sequence of watches is made of watches of the sequence.
pub proof fn lemma_filter_from(s: Seq<Watch>, keep: spec_fn(Watch) -> bool)
    ensures
        forall|i: int| 0 <= i < s.filter(keep).len() ==> s.contains(#[trigger] s.filter(keep)[i]),
    decreases s.len(),
{
    reveal(Seq::filter);
    if s.len() > 0 {
        let init = s.drop_last();
        lemma_filter_from(init, keep);
        assert forall|i: int| 0 <= i < s.filter(keep).len() implies s.contains(
            #[trigger] s.filter(keep)[i],
        ) by {
            if i < init.filter(keep).len() {
                let w = init.filter(keep)[i];
                assert(init.contains(w));
                let j = choose|j: int| 0 <= j < init.len() && init[j] == w;
                assert(s[j] == w);
            } else {
                assert(s[s.len() - 1] == s.last());
            }
        }
    }
}

/// An event that reaches a watch leaves a sound pipeline sound.
pub proof fn lemma_after_event_sound(v: PipelineView, raw: RawEvent)
    requires
        sound(v),
        v.stats.events < u64::MAX,
        reaches(v, raw),
    ensures
        sound(after_event(v, raw)),
{
    let mask = raw.mask & ALL_FLAGS;
    let after = after_event(v, raw);
    let at = slot(v.watches, raw.wd);
    lemma_slot_is_first(v.watches, raw.wd);
    crate::stats::lemma_recorded_consistent(v.stats, path_of(v, raw), mask);
    let hit = with_hit(v.watches, raw.wd, mask);
    assert(hit == v.watches.update(at, v.watches[at].hit(mask)));
    assert(v.watches[at].wf());
    assert(distinct_ids(hit)) by {
        assert forall|i: int, j: int| 0 <= i < j < hit.len() implies (#[trigger] hit[i]).wd != (
        #[trigger] hit[j]).wd by {
            assert(v.watches[i].wd != v.watches[j].wd);
        }
    }
    let bound = v.stats.events + 1;
    assert forall|i: int| 0 <= i < hit.len() implies (#[trigger] hit[i]).wf() && hit[i].hit_total
        <= bound by {
        assert(v.watches[i].wf());
        if i == at {
            lemma_hit_within(v.watches[at], mask);
        }
    }
    let renamed = if v.recursive {
        after_rename(hit, v.pending, mask, raw.cookie)
    } else {
        hit
    };
    assert(distinct_ids(renamed) && forall|i: int|
        0 <= i < renamed.len() ==> (#[trigger] renamed[i]).wf() && renamed[i].hit_total
            <= bound) by {
        if renamed != hit {
            let moved = v.pending->0;
            let dir = moved.0;
            let keep = |w: Watch| !is_under(w.path@, dir);
            crate::table::lemma_filter_keeps_distinct(hit, keep);
            lemma_filter_from(hit, keep);
            assert forall|i: int| 0 <= i < renamed.len() implies (#[trigger] renamed[i]).wf()
                && renamed[i].hit_total <= bound by {
                assert(hit.contains(renamed[i]));
                let j = choose|j: int| 0 <= j < hit.len() && hit[j] == renamed[i];
                assert(hit[j].wf());
            }
        }
    }
    let gone = slot(renamed, raw.wd);
    if overlaps(mask, GONE) && 0 <= gone < renamed.len() {
        let left = renamed.remove(gone);
        assert forall|i: int| 0 <= i < left.len() implies (#[trigger] left[i]).wf()
            && left[i].hit_total <= bound by {
            let j = if i < gone { i } else { i + 1 };
            assert(left[i] == renamed[j]);
            assert(renamed[j].wf());
        }
        assert forall|i: int, j: int| 0 <= i < j < left.len() implies (#[trigger] left[i]).wd != (
        #[trigger] left[j]).wd by {
            let a = if i < gone { i } else { i + 1 };
            let b = if j < gone { j } else { j + 1 };
            assert(renamed[a].wd != renamed[b].wd);
        }
    }
}

/// A well-formed watch that is hit stays well-formed, and its total grows by
/// one.
pub proof fn lemma_hit_within(w: Watch, mask: u32)
    requires
        w.wf(),
        w.hit_total < u64::MAX,
    ensures
        w.hit(mask).wf(),
        w.hit(mask).hit_total == w.hit_total + 1,
{
    assert(forall|k: int| 0 <= k < crate::kinds::KINDS ==> #[trigger] w.hits()[k] <= w.hit_total);
    assert(w.has_room(mask));
    w.lemma_hit(mask);
}

/// What the event source answered when it was asked for a watch.
#[derive(Debug, Clone, Copy)]
pub struct Added {
    /// The identifier of the watch.
    pub wd: i32,
    /// Whether the path is a directory.
    pub is_directory: bool,
}

/// The pipeline with its table of watches and its statistics. The event
/// source itself is the caller's: the caller asks it for watches and for
/// events, and hands its answers in.
pub struct InotifyTools {
    watches: WatchTable,
    include_regex: Option<regex::Regex>,
    exclude_regex: Option<regex::Regex>,
    recursive: bool,
    stats: Statistics,
    verbose: bool,
    pending: Option<PendingMove>,
}

impl View for InotifyTools {
    type V = PipelineView;

    closed spec fn view(&self) -> PipelineView {
        PipelineView {
            watches: self.watches@,
            stats: self.stats@,
            include_pattern: match self.include_regex {
                Some(re) => Some(regex_source(re)),
                None => None,
            },
            exclude_pattern: match self.exclude_regex {
                Some(re) => Some(regex_source(re)),
                None => None,
            },
            recursive: self.recursive,
            pending: match self.pending {
                Some(p) => Some((p.path@, p.cookie)),
                None => None,
            },
        }
    }
}

impl InotifyTools {
    /// Whether the pipeline is sound.
    pub open spec fn wf(&self) -> bool {
        sound(self@)
    }

    /// Whether the pipeline tells what it does on the error output.
    pub closed spec fn is_verbose(&self) -> bool {
        self.verbose
    }

    /// A pipeline without watches, events and filters.
    pub fn new(config: Config) -> (r: Result<Self, InotifyToolsError>)
        ensures
            r matches Ok(t) && t.wf() && t.is_verbose() == config.verbose && t@ == (PipelineView {
                watches: Seq::empty(),
                stats: Statistics::empty_view(),
                include_pattern: None,
                exclude_pattern: None,
                recursive: false,
                pending: None,
            }),
    {
        let t = InotifyTools {
            watches: WatchTable::new(),
            include_regex: None,
            exclude_regex: None,
            recursive: false,
            stats: Statistics::new(),
            verbose: config.verbose,
            pending: None,
        };
        Ok(t)
    }

    /// Says whether the table is to be kept in step with renames and new
    /// directories.
    pub fn set_recursive(&mut self, recursive: bool)
        ensures
            final(self)@ == (PipelineView { recursive, ..old(self)@ }),
            final(self).is_verbose() == old(self).is_verbose(),
    {
        self.recursive = recursive;
    }

    /// Takes in what the event source answered when it was asked for a watch
    /// on `path`: the watch goes into the table, fresh, and its identifier
    /// is returned; a failure is returned as the error, with its reason.
    pub fn watch_file(&mut self, path: String, answer: Result<Added, String>) -> (r: Result<
        i32,
        InotifyToolsError,
    >)
        requires
            old(self).wf(),
        ensures
            final(self).wf(),
            final(self).is_verbose() == old(self).is_verbose(),
            final(self)@ == watched(old(self)@, path, answer),
            match answer {
                Ok(added) => r == Ok::<i32, InotifyToolsError>(added.wd),
                Err(reason) => r matches Err(InotifyToolsError::WatchAdd(p, why)) && p == path
                    && why == reason,
            },
    {
        match answer {
            Ok(added) => {
                let ghost before = self.watches@;
                let ghost fresh = Watch::fresh(added.wd, path, added.is_directory);
                let _ = self.watches.insert(added.wd, path, added.is_directory);
                proof {
                    lemma_slot_is_first(before, added.wd);
                    let at = slot(before, added.wd);
                    let now = self.watches@;
                    Watch::lemma_fresh(added.wd, path, added.is_directory);
                    assert forall|i: int| 0 <= i < now.len() implies (#[trigger] now[i]).wf()
                        && now[i].hit_total <= self.stats@.events by {
                        if i != at {
                            assert(now[i] == before[i]);
                            assert(before[i].wf());
                        }
                    }
                }
                Ok(added.wd)
            },
            Err(reason) => Err(InotifyToolsError::WatchAdd(path, reason)),
        }
    }

    /// Takes in what the event source answered when it was asked for a watch
    /// on each of some paths, in order, up to the first failure: the watches
    /// go into the table, and their identifiers are returned, unless one of
    /// the answers is a failure, which is then the error.
    pub fn watch_files(&mut self, answers: Vec<(String, Result<Added, String>)>) -> (r: Result<
        Vec<i32>,
        InotifyToolsError,
    >)
        requires
            old(self).wf(),
        ensures
            final(self).wf(),
            final(self).is_verbose() == old(self).is_verbose(),
            final(self)@ == watched_all(old(self)@, answers@, first_failure(answers@)),
            match r {
                Ok(ids) => first_failure(answers@) == answers@.len() && ids@ == answers@.map_values(
                    |a: (String, Result<Added, String>)| a.1->Ok_0.wd,
                ),
                Err(e) => first_failure(answers@) < answers@.len() && (
                e matches InotifyToolsError::WatchAdd(p, why) && p == answers@[first_failure(
                    answers@,
                )].0 && Err::<Added, String>(why) == answers@[first_failure(answers@)].1),
            },
    {
        let mut watch_descriptors: Vec<i32> = Vec::new();
        let ghost all = answers@;
        let ghost wd_of = |a: (String, Result<Added, String>)| a.1->Ok_0.wd;
        assert(all.take(0).map_values(wd_of) == Seq::<i32>::empty());
        for answered in it: answers
            invariant
                self.wf(),
                self.is_verbose() == old(self).is_verbose(),
                it.seq() == all,
                forall|j: int| 0 <= j < it.index() ==> (#[trigger] all[j]).1 is Ok,
                wd_of == |a: (String, Result<Added, String>)| a.1->Ok_0.wd,
                self@ == watched_all(old(self)@, all, it.index()),
                watch_descriptors@ == all.take(it.index()).map_values(wd_of),
        {
            let ghost n = it.index();
            let (path, answer) = answered;
            match self.watch_file(path, answer) {
                Ok(wd) => {
                    watch_descriptors.push(wd);
                    proof {
                        assert(all.take(n + 1) == all.take(n).push(all[n]));
                        assert(all.take(n).push(all[n]).map_values(wd_of) == all.take(
                            n,
                        ).map_values(wd_of).push(wd));
                    }
                },
                Err(e) => {
                    proof {
                        lemma_first_failure(all, n);
                    }
                    return Err(e);
                },
            }
        }
        proof {
            lemma_first_failure(all, all.len() as int);
            assert(all.take(all.len() as int) == all);
        }
        Ok(watch_descriptors)
    }

    /// Sets the pattern that a path must match for its events to be shown.
    pub fn set_include_regex(&mut self, pattern: &str) -> (r: Result<(), InotifyToolsError>)
        ensures
            final(self).is_verbose() == old(self).is_verbose(),
            r is Ok <==> regex_compiles(pattern@),
            r is Ok ==> final(self)@ == (PipelineView {
                include_pattern: Some(pattern@),
                ..old(self)@
            }),
            r matches Err(e) ==> e is Regex && final(self)@ == old(self)@,
    {
        match compile(pattern) {
            Ok(re) => {
                self.include_regex = Some(re);
                Ok(())
            },
            Err(e) => Err(InotifyToolsError::Regex(e)),
        }
    }

    /// Sets the pattern that a path must not match for its events to be
    /// shown.
    pub fn set_exclude_regex(&mut self, pattern: &str) -> (r: Result<(), InotifyToolsError>)
        ensures
            final(self).is_verbose() == old(self).is_verbose(),
            r is Ok <==> regex_compiles(pattern@),
            r is Ok ==> final(self)@ == (PipelineView {
                exclude_pattern: Some(pattern@),
                ..old(self)@
            }),
            r matches Err(e) ==> e is Regex && final(self)@ == old(self)@,
    {
        match compile(pattern) {
            Ok(re) => {
                self.exclude_regex = Some(re);
                Ok(())
            },
            Err(e) => Err(InotifyToolsError::Regex(e)),
        }
    }

    /// Takes in what came of asking the event source for an event.
    ///
    /// A failure of the source is the error. An event that reports lost
    /// events, and an event for a watch that the table does not know, change
    /// nothing. Any other event is counted whatever the filters, which only
    /// decide whether the caller gets to see it; the table is kept in step as
    /// `after_event` says.
    pub fn next_event(&mut self, read: SourceRead) -> (r: Result<Step, InotifyToolsError>)
        requires
            old(self).wf(),
            old(self)@.stats.events < u64::MAX,
        ensures
            final(self).wf(),
            final(self).is_verbose() == old(self).is_verbose(),
            match read {
                SourceRead::Failed(reason) => final(self)@ == old(self)@ && (r matches Err(
                    InotifyToolsError::ReadEvents(why),
                ) && why == reason),
                SourceRead::Timeout => final(self)@ == old(self)@ && (r matches Ok(step)
                    && step.outcome is Timeout && step.removed@.len() == 0 && step.grow is None),
                SourceRead::EndOfStream => final(self)@ == old(self)@ && (r matches Ok(step)
                    && step.outcome is EndOfStream && step.removed@.len() == 0
                    && step.grow is None),
                SourceRead::Event(raw) => r matches Ok(step) && is_step(
                    old(self)@,
                    raw,
                    final(self)@,
                    step,
                ),
            },
    {
        match read {
            SourceRead::Failed(reason) => Err(InotifyToolsError::ReadEvents(reason)),
            SourceRead::Timeout => Ok(
                Step { outcome: Outcome::Timeout, removed: Vec::new(), grow: None },
            ),
            SourceRead::EndOfStream => Ok(
                Step { outcome: Outcome::EndOfStream, removed: Vec::new(), grow: None },
            ),
            SourceRead::Event(raw) => Ok(self.take_event(raw)),
        }
    }

    /// Takes in one event of the source.
    fn take_event(&mut self, raw: RawEvent) -> (step: Step)
        requires
            old(self).wf(),
            old(self)@.stats.events < u64::MAX,
        ensures
            final(self).wf(),
            final(self).is_verbose() == old(self).is_verbose(),
            is_step(old(self)@, raw, final(self)@, step),
    {
        let ghost v = self@;
        let ghost raw_seen = raw;
        let mask = EventMask::from_inotify_event_mask(raw.mask);
        if mask.contains(EventMask(Q_OVERFLOW)) {
            return Step { outcome: Outcome::Overflow, removed: Vec::new(), grow: None };
        }
        let watch_path = match self.watches.lookup(raw.wd) {
            Some(watch) => watch.path.clone(),
            None => {
                return Step { outcome: Outcome::Discarded, removed: Vec::new(), grow: None };
            },
        };
        let wd = raw.wd;
        let cookie = raw.cookie;
        let event = match Event::from_inotify_event(wd, raw.mask, cookie, raw.name, watch_path) {
            Ok(event) => event,
            Err(_) => {
                assert(false);
                return Step { outcome: Outcome::Discarded, removed: Vec::new(), grow: None };
            },
        };
        assert(event.path@ == path_of(v, raw_seen));
        let hidden = self.should_filter_event(&event);
        proof {
            lemma_after_event_sound(v, raw_seen);
            self.stats.lemma_room(event.path@, mask@);
            lemma_slot_is_first(v.watches, wd);
            let at = slot(v.watches, wd);
            assert(v.watches[at].wf());
            assert(forall|k: int|
                0 <= k < crate::kinds::KINDS ==> #[trigger] v.watches[at].hits()[k]
                    <= v.watches[at].hit_total);
        }
        self.stats.record_event(&event);
        self.watches.record_hit(wd, mask);
        let ghost hit = self.watches@;
        let mut removed: Vec<i32> = Vec::new();
        if self.recursive {
            let pending = self.pending.take();
            if let Some(moved) = pending {
                if !(mask.contains(EventMask(MOVED_TO)) && moved.cookie == cookie) {
                    removed = self.watches.remove_subtree(moved.path.as_str());
                }
            }
            if mask.contains(EventMask(MOVED_FROM)) {
                self.pending = Some(PendingMove { path: event.path.clone(), cookie });
            }
        }
        let ghost renamed = self.watches@;
        if mask.contains(EventMask(GONE)) {
            proof {
                lemma_slot_is_first(renamed, wd);
            }
            if self.watches.remove(wd).is_some() {
                removed.push(wd);
            }
        }
        let grow = if self.recursive && mask.contains(EventMask(ISDIR)) && (mask.contains(
            EventMask(CREATE),
        ) || (mask.contains(EventMask(MOVED_TO)) && self.pending.is_none())) {
            Some(event.path.clone())
        } else {
            None
        };
        assert(self@ == after_event(v, raw_seen));
        assert(removed@ == removed_by(v, raw_seen));
        let outcome = if hidden {
            Outcome::Filtered
        } else {
            Outcome::Observable(event)
        };
        Step { outcome, removed, grow }
    }

    /// Whether the filters hide the event.
    pub fn should_filter_event(&self, event: &Event) -> (r: bool)
        ensures
            r == is_hidden(self@, event.path@),
    {
        if let Some(exclude_regex) = &self.exclude_regex {
            if is_match(exclude_regex, event.path.as_str()) {
                return true;
            }
        }
        if let Some(include_regex) = &self.include_regex {
            if !is_match(include_regex, event.path.as_str()) {
                return true;
            }
        }
        false
    }

    /// Takes the watch with the identifier `wd` out of the table, if there is
    /// one.
    pub fn remove_watch(&mut self, wd: i32) -> (r: Result<(), InotifyToolsError>)
        requires
            old(self).wf(),
        ensures
            r is Ok,
            final(self).wf(),
            final(self).is_verbose() == old(self).is_verbose(),
            final(self)@ == (PipelineView {
                watches: without_slot(old(self)@.watches, slot(old(self)@.watches, wd)),
                ..old(self)@
            }),
    {
        let ghost before = self.watches@;
        let _ = self.watches.remove(wd);
        proof {
            lemma_without_slot_sound(self@, before, slot(before, wd));
        }
        Ok(())
    }

    /// Takes the first watch on `path` out of the table, if there is one.
    pub fn remove_watch_by_filename(&mut self, path: &str) -> (r: Result<(), InotifyToolsError>)
        requires
            old(self).wf(),
        ensures
            r is Ok,
            final(self).wf(),
            final(self).is_verbose() == old(self).is_verbose(),
            final(self)@ == (PipelineView {
                watches: without_slot(old(self)@.watches, slot_of_path(old(self)@.watches, path@)),
                ..old(self)@
            }),
    {
        let ghost before = self.watches@;
        let _ = self.watches.remove_by_path(path);
        proof {
            lemma_without_slot_sound(self@, before, slot_of_path(before, path@));
        }
        Ok(())
    }

    /// A copy of the statistics as they stand.
    pub fn get_statistics(&self) -> (r: Result<Statistics, InotifyToolsError>)
        ensures
            r matches Ok(s) && s@ == self@.stats,
    {
        Ok(self.stats.snapshot())
    }

    /// Whether the pipeline is to tell what it does.
    pub fn verbose(&self) -> (r: bool)
        ensures
            r == self.is_verbose(),
    {
        self.verbose
    }

    /// Whether the table is kept in step with renames and new directories.
    pub fn recursive(&self) -> (r: bool)
        ensures
            r == self@.recursive,
    {
        self.recursive
    }

    /// The number of events recorded.
    pub fn get_num_events(&self) -> (r: u64)
        ensures
            r == self@.stats.events,
    {
        self.stats.total_events
    }

    /// The path of the watch with the identifier `wd`, if there is one.
    pub fn get_watch_path(&self, wd: i32) -> (r: Option<String>)
        ensures
            r is Some <==> has_watch(self@.watches, wd),
            r matches Some(p) ==> p == self@.watches[slot(self@.watches, wd)].path,
    {
        match self.watches.lookup(wd) {
            Some(watch) => Some(watch.path.clone()),
            None => None,
        }
    }

    /// The number of watches in the table.
    pub fn get_num_watches(&self) -> (r: usize)
        ensures
            r == self@.watches.len(),
    {
        self.watches.len()
    }

    /// Whether the pipeline was set up: a pipeline is made set up.
    pub fn is_initialized(&self) -> (r: bool)
        ensures
            r,
    {
        true
    }
}

/// The pipeline once it has taken in the answer to the request for a watch
/// on `path`: a watch that was made is in the table, fresh, in the place of
/// the watch that had its identifier if there was one; a failure changes
/// nothing.
pub open spec fn watched(v: PipelineView, path: String, answer: Result<Added, String>) -> PipelineView {
    match answer {
        Ok(added) => PipelineView {
            watches: with_watch(v.watches, Watch::fresh(added.wd, path, added.is_directory)),
            ..v
        },
        Err(_) => v,
    }
}

/// The place of the first failure among the answers; their number where
/// there is none.
pub open spec fn first_failure(answers: Seq<(String, Result<Added, String>)>) -> int
    decreases answers.len(),
{
    if answers.len() == 0 {
        0
    } else {
        let before = first_failure(answers.drop_last());
        if before < answers.len() - 1 || answers.last().1 is Err {
            before
        } else {
            answers.len() as int
        }
    }
}

/// The pipeline once it has taken in the first `n` answers.
pub open spec fn watched_all(
    v: PipelineView,
    answers: Seq<(String, Result<Added, String>)>,
    n: int,
) -> PipelineView
    decreases n,
{
    if n <= 0 {
        v
    } else {
        watched(watched_all(v, answers, n - 1), answers[n - 1].0, answers[n - 1].1)
    }
}

/// Where the first failure stands.
pub proof fn lemma_first_failure(answers: Seq<(String, Result<Added, String>)>, n: int)
    requires
        0 <= n <= answers.len(),
        forall|j: int| 0 <= j < n ==> (#[trigger] answers[j]).1 is Ok,
        n < answers.len() ==> answers[n].1 is Err,
    ensures
        first_failure(answers) == n,
    decreases answers.len(),
{
    if answers.len() > 0 {
        let init = answers.drop_last();
        assert forall|j: int| 0 <= j < n && j < init.len() implies (#[trigger] init[j]).1 is Ok by {
            assert(init[j] == answers[j]);
        }
        if n < answers.len() - 1 {
            assert(init[n] == answers[n]);
            lemma_first_failure(init, n);
        } else {
            lemma_first_failure(init, init.len() as int);
        }
    }
}

/// A sound pipeline stays sound when a watch leaves its table.
pub proof fn lemma_without_slot_sound(v: PipelineView, before: Seq<Watch>, at: int)
    requires
        sound(PipelineView { watches: before, ..v }),
        v.watches == without_slot(before, at),
    ensures
        sound(v),
{
    if 0 <= at < before.len() {
        assert forall|i: int| 0 <= i < v.watches.len() implies (#[trigger] v.watches[i]).wf()
            && v.watches[i].hit_total <= v.stats.events by {
            let j = if i < at { i } else { i + 1 };
            assert(v.watches[i] == before[j]);
            assert(before[j].wf());
        }
        assert forall|i: int, j: int| 0 <= i < j < v.watches.len() implies (
        #[trigger] v.watches[i]).wd != (#[trigger] v.watches[j]).wd by {
            let a = if i < at { i } else { i + 1 };
            let b = if j < at { j } else { j + 1 };
            assert(before[a].wd != before[b].wd);
        }
    }
}

} // verus!
