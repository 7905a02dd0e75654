//! The table of the watches that are active, by identifier.

use vstd::prelude::*;
use crate::event::EventMask;
use crate::path::{is_under, under};
use crate::text::str_equal;
use crate::watch::Watch;

verus! {

/// The place of the watch with the identifier `id`; the number of watches
/// where there is none.
pub open spec fn slot(watches: Seq<Watch>, id: i32) -> int
    decreases watches.len(),
{
    if watches.len() == 0 {
        0
    } else {
        let before = slot(watches.drop_last(), id);
        if before < watches.len() - 1 {
            before
        } else if watches.last().wd == id {
            watches.len() - 1
        } else {
            watches.len() as int
        }
    }
}

/// The place of the first watch on `path`; the number of watches where there
/// is none.
pub open spec fn slot_of_path(watches: Seq<Watch>, path: Seq<char>) -> int
    decreases watches.len(),
{
    if watches.len() == 0 {
        0
    } else {
        let before = slot_of_path(watches.drop_last(), path);
        if before < watches.len() - 1 {
            before
        } else if watches.last().path@ == path {
            watches.len() - 1
        } else {
            watches.len() as int
        }
    }
}

/// Whether no two watches have one identifier.
pub open spec fn distinct_ids(watches: Seq<Watch>) -> bool {
    forall|i: int, j: int|
        0 <= i < j < watches.len() ==> (#[trigger] watches[i]).wd != (#[trigger] watches[j]).wd
}

/// Whether a watch with the identifier `id` is among `watches`.
pub open spec fn has_watch(watches: Seq<Watch>, id: i32) -> bool {
    exists|i: int| 0 <= i < watches.len() && (#[trigger] watches[i]).wd == id
}

/// The watches with `watch` put in: in the place of the watch that had its
/// identifier, else at the end.
pub open spec fn with_watch(watches: Seq<Watch>, watch: Watch) -> Seq<Watch> {
    let at = slot(watches, watch.wd);
    if 0 <= at < watches.len() {
        watches.update(at, watch)
    } else {
        watches.push(watch)
    }
}

/// The watches with one more event of the kinds `mask` counted for the watch
/// with the identifier `id`, if there is one.
pub open spec fn with_hit(watches: Seq<Watch>, id: i32, mask: u32) -> Seq<Watch> {
    let at = slot(watches, id);
    if 0 <= at < watches.len() {
        watches.update(at, watches[at].hit(mask))
    } else {
        watches
    }
}

/// The watches without the one at the place `at`, if there is one.
pub open spec fn without_slot(watches: Seq<Watch>, at: int) -> Seq<Watch> {
    if 0 <= at < watches.len() {
        watches.remove(at)
    } else {
        watches
    }
}

/// The watches that are neither on `dir` nor below it.
pub open spec fn outside(watches: Seq<Watch>, dir: Seq<char>) -> Seq<Watch> {
    watches.filter(|w: Watch| !is_under(w.path@, dir))
}

/// The watches on `dir` and below it.
pub open spec fn inside(watches: Seq<Watch>, dir: Seq<char>) -> Seq<Watch> {
    watches.filter(|w: Watch| is_under(w.path@, dir))
}

/// Where the watch with an identifier stands.
pub proof fn lemma_slot(watches: Seq<Watch>, id: i32, at: int)
    requires
        0 <= at <= watches.len(),
        forall|j: int| 0 <= j < at ==> (#[trigger] watches[j]).wd != id,
        at < watches.len() ==> watches[at].wd == id,
    ensures
        slot(watches, id) == at,
    decreases watches.len(),
{
    if watches.len() > 0 {
        let init = watches.drop_last();
        assert forall|j: int| 0 <= j < at && j < init.len() implies (#[trigger] init[j]).wd
            != id by {
            assert(init[j] == watches[j]);
        }
        if at < watches.len() - 1 {
            assert(init[at] == watches[at]);
            lemma_slot(init, id, at);
        } else {
            lemma_slot(init, id, init.len() as int);
        }
    }
}

/// The place that `slot` gives is the first with the identifier.
pub proof fn lemma_slot_is_first(watches: Seq<Watch>, id: i32)
    ensures
        0 <= slot(watches, id) <= watches.len(),
        slot(watches, id) < watches.len() ==> watches[slot(watches, id)].wd == id,
        forall|j: int| 0 <= j < slot(watches, id) ==> (#[trigger] watches[j]).wd != id,
        slot(watches, id) < watches.len() <==> has_watch(watches, id),
    decreases watches.len(),
{
    if watches.len() > 0 {
        let init = watches.drop_last();
        lemma_slot_is_first(init, id);
        assert forall|j: int| 0 <= j < slot(watches, id) implies (#[trigger] watches[j]).wd
            != id by {
            if j < init.len() {
                assert(init[j] == watches[j]);
            }
        }
        if slot(init, id) < init.len() {
            assert(init[slot(init, id)] == watches[slot(init, id)]);
        }
        if has_watch(watches, id) && slot(watches, id) >= watches.len() {
            let i = choose|i: int| 0 <= i < watches.len() && (#[trigger] watches[i]).wd == id;
            assert(false);
        }
    }
}

/// Where the first watch on a path stands.
pub proof fn lemma_slot_of_path(watches: Seq<Watch>, path: Seq<char>, at: int)
    requires
        0 <= at <= watches.len(),
        forall|j: int| 0 <= j < at ==> (#[trigger] watches[j]).path@ != path,
        at < watches.len() ==> watches[at].path@ == path,
    ensures
        slot_of_path(watches, path) == at,
    decreases watches.len(),
{
    if watches.len() > 0 {
        let init = watches.drop_last();
        assert forall|j: int| 0 <= j < at && j < init.len() implies (#[trigger] init[j]).path@
            != path by {
            assert(init[j] == watches[j]);
        }
        if at < watches.len() - 1 {
            assert(init[at] == watches[at]);
            lemma_slot_of_path(init, path, at);
        } else {
            lemma_slot_of_path(init, path, init.len() as int);
        }
    }
}

/// The watches that are active. No two of them have one identifier.
pub struct WatchTable {
    entries: Vec<Watch>,
}

impl View for WatchTable {
    type V = Seq<Watch>;

    /// The watches, in the order in which their identifiers came in.
    closed spec fn view(&self) -> Seq<Watch> {
        self.entries@
    }
}

impl WatchTable {
    /// No two watches have one identifier.
    pub open spec fn wf(&self) -> bool {
        distinct_ids(self@)
    }

    /// A table without watches.
    pub fn new() -> (r: Self)
        ensures
            r@ == Seq::<Watch>::empty(),
            r.wf(),
    {
        WatchTable { entries: Vec::new() }
    }

    /// The number of watches.
    pub fn len(&self) -> (r: usize)
        ensures
            r == self@.len(),
    {
        self.entries.len()
    }

    fn find(&self, id: i32) -> (at: usize)
        ensures
            at == slot(self@, id),
            at <= self@.len(),
    {
        let mut i: usize = 0;
        while i < self.entries.len()
            invariant
                i <= self.entries.len(),
                forall|j: int| 0 <= j < i ==> (#[trigger] self.entries@[j]).wd != id,
            decreases self.entries.len() - i,
        {
            if self.entries[i].wd == id {
                proof {
                    lemma_slot(self.entries@, id, i as int);
                }
                return i;
            }
            i += 1;
        }
        proof {
            lemma_slot(self.entries@, id, i as int);
        }
        i
    }

    /// Puts in a fresh watch with the identifier `id` on `path`. A watch that
    /// had the identifier gives way to it, hits and all.
    pub fn insert(&mut self, id: i32, path: String, is_directory: bool) -> (r: &Watch)
        requires
            old(self).wf(),
        ensures
            *r == Watch::fresh(id, path, is_directory),
            final(self)@ == with_watch(old(self)@, Watch::fresh(id, path, is_directory)),
            final(self).wf(),
    {
        proof {
            lemma_slot_is_first(self@, id);
        }
        let watch = Watch::new(id, path, is_directory);
        let at = self.find(id);
        let ghost before = self.entries@;
        if at < self.entries.len() {
            self.entries.remove(at);
            self.entries.insert(at, watch);
            assert(self.entries@ == before.update(at as int, watch));
        } else {
            self.entries.push(watch);
        }
        assert(distinct_ids(self.entries@)) by {
            assert forall|i: int, j: int| 0 <= i < j < self.entries@.len() implies (
            #[trigger] self.entries@[i]).wd != (#[trigger] self.entries@[j]).wd by {
                if i != at && j != at {
                    assert(before[i].wd != before[j].wd);
                } else if at < before.len() {
                    assert(before[i].wd != before[j].wd);
                }
            }
        }
        &self.entries[at]
    }

    /// The watch with the identifier `id`, if there is one.
    pub fn lookup(&self, id: i32) -> (r: Option<&Watch>)
        ensures
            r is Some <==> has_watch(self@, id),
            r matches Some(w) ==> *w == self@[slot(self@, id)] && w.wd == id,
    {
        proof {
            lemma_slot_is_first(self@, id);
        }
        let at = self.find(id);
        if at < self.entries.len() {
            Some(&self.entries[at])
        } else {
            None
        }
    }

    /// Takes out the watch with the identifier `id`, if there is one.
    pub fn remove(&mut self, id: i32) -> (r: Option<Watch>)
        requires
            old(self).wf(),
        ensures
            final(self)@ == without_slot(old(self)@, slot(old(self)@, id)),
            r is Some <==> has_watch(old(self)@, id),
            r matches Some(w) ==> w == old(self)@[slot(old(self)@, id)],
            final(self).wf(),
    {
        proof {
            lemma_slot_is_first(self@, id);
        }
        let at = self.find(id);
        if at < self.entries.len() {
            let ghost before = self.entries@;
            let watch = self.entries.remove(at);
            assert(distinct_ids(self.entries@)) by {
                assert forall|i: int, j: int| 0 <= i < j < self.entries@.len() implies (
                #[trigger] self.entries@[i]).wd != (#[trigger] self.entries@[j]).wd by {
                    let a = if i < at { i } else { i + 1 };
                    let b = if j < at { j } else { j + 1 };
                    assert(before[a].wd != before[b].wd);
                }
            }
            Some(watch)
        } else {
            None
        }
    }

    /// Takes out the first watch on `path`, if there is one.
    pub fn remove_by_path(&mut self, path: &str) -> (r: Option<Watch>)
        requires
            old(self).wf(),
        ensures
            final(self)@ == without_slot(old(self)@, slot_of_path(old(self)@, path@)),
            r is Some <==> slot_of_path(old(self)@, path@) < old(self)@.len(),
            r matches Some(w) ==> w == old(self)@[slot_of_path(old(self)@, path@)],
            final(self).wf(),
    {
        let mut i: usize = 0;
        while i < self.entries.len()
            invariant
                i <= self.entries.len(),
                *self == *old(self),
                distinct_ids(self.entries@),
                forall|j: int| 0 <= j < i ==> (#[trigger] self.entries@[j]).path@ != path@,
            decreases self.entries.len() - i,
        {
            if str_equal(self.entries[i].path.as_str(), path) {
                proof {
                    lemma_slot_of_path(self.entries@, path@, i as int);
                }
                let ghost before = self.entries@;
                let watch = self.entries.remove(i);
                assert(distinct_ids(self.entries@)) by {
                    assert forall|a: int, b: int| 0 <= a < b < self.entries@.len() implies (
                    #[trigger] self.entries@[a]).wd != (#[trigger] self.entries@[b]).wd by {
                        let x = if a < i { a } else { a + 1 };
                        let y = if b < i { b } else { b + 1 };
                        assert(before[x].wd != before[y].wd);
                    }
                }
                return Some(watch);
            }
            i += 1;
        }
        proof {
            lemma_slot_of_path(self.entries@, path@, i as int);
        }
        None
    }

    /// Takes out the watches on `dir` and below it, and returns their
    /// identifiers.
    pub fn remove_subtree(&mut self, dir: &str) -> (r: Vec<i32>)
        requires
            old(self).wf(),
        ensures
            final(self)@ == outside(old(self)@, dir@),
            r@ == inside(old(self)@, dir@).map_values(|w: Watch| w.wd),
            final(self).wf(),
    {
        let mut kept: Vec<Watch> = Vec::new();
        let mut ids: Vec<i32> = Vec::new();
        let ghost before = self.entries@;
        let ghost is_out = |w: Watch| !is_under(w.path@, dir@);
        let ghost is_in = |w: Watch| is_under(w.path@, dir@);
        let ghost wd_of = |w: Watch| w.wd;
        let mut all: Vec<Watch> = Vec::new();
        std::mem::swap(&mut self.entries, &mut all);
        proof {
            assert(before.take(0) == Seq::<Watch>::empty());
            assert(Seq::<Watch>::empty().filter(is_out) == Seq::<Watch>::empty());
            assert(Seq::<Watch>::empty().filter(is_in) == Seq::<Watch>::empty());
            assert(Seq::<Watch>::empty().map_values(wd_of) == Seq::<i32>::empty());
        }
        for w in it: all
            invariant
                it.seq() == before,
                is_out == |w: Watch| !is_under(w.path@, dir@),
                is_in == |w: Watch| is_under(w.path@, dir@),
                wd_of == |w: Watch| w.wd,
                kept@ == before.take(it.index()).filter(is_out),
                ids@ == before.take(it.index()).filter(is_in).map_values(wd_of),
        {
            let ghost n = it.index();
            proof {
                assert(before.take(n + 1) == before.take(n).push(w));
                lemma_filter_push(before.take(n), w, is_out);
                lemma_filter_push(before.take(n), w, is_in);
            }
            if under(w.path.as_str(), dir) {
                ids.push(w.wd);
                assert(before.take(n).filter(is_in).push(w).map_values(wd_of) == before.take(
                    n,
                ).filter(is_in).map_values(wd_of).push(w.wd));
            } else {
                kept.push(w);
            }
        }
        assert(before.take(before.len() as int) == before);
        proof {
            lemma_filter_keeps_distinct(before, is_out);
        }
        self.entries = kept;
        ids
    }

    /// Counts one event with the kinds `mask` for the watch with the
    /// identifier `id`; without such a watch, nothing changes. Returns
    /// whether there is such a watch.
    pub fn record_hit(&mut self, id: i32, mask: EventMask) -> (r: bool)
        requires
            old(self).wf(),
            has_watch(old(self)@, id) ==> old(self)@[slot(old(self)@, id)].has_room(mask@),
        ensures
            r == has_watch(old(self)@, id),
            final(self)@ == with_hit(old(self)@, id, mask@),
            final(self).wf(),
    {
        proof {
            lemma_slot_is_first(self@, id);
        }
        let at = self.find(id);
        if at < self.entries.len() {
            let ghost before = self.entries@;
            let mut watch = self.entries.remove(at);
            watch.record_event(mask);
            self.entries.insert(at, watch);
            assert(self.entries@ == before.update(at as int, before[at as int].hit(mask@)));
            assert(distinct_ids(self.entries@)) by {
                assert forall|i: int, j: int| 0 <= i < j < self.entries@.len() implies (
                #[trigger] self.entries@[i]).wd != (#[trigger] self.entries@[j]).wd by {
                    assert(before[i].wd != before[j].wd);
                }
            }
            true
        } else {
            false
        }
    }
}

/// Counting a hit takes no watch out and moves none.
pub proof fn lemma_with_hit_keeps(watches: Seq<Watch>, id: i32, mask: u32)
    ensures
        with_hit(watches, id, mask).len() == watches.len(),
        forall|i: int|
            0 <= i < watches.len() ==> (#[trigger] with_hit(watches, id, mask)[i]).wd
                == watches[i].wd && with_hit(watches, id, mask)[i].path == watches[i].path,
        forall|other: i32| has_watch(with_hit(watches, id, mask), other) <==> has_watch(watches, other),
{
    let hit = with_hit(watches, id, mask);
    lemma_slot_is_first(watches, id);
    assert forall|other: i32| has_watch(hit, other) <==> has_watch(watches, other) by {
        if has_watch(hit, other) {
            let i = choose|i: int| 0 <= i < hit.len() && (#[trigger] hit[i]).wd == other;
            assert(watches[i].wd == other);
        }
        if has_watch(watches, other) {
            let i = choose|i: int| 0 <= i < watches.len() && (#[trigger] watches[i]).wd == other;
            assert(hit[i].wd == other);
        }
    }
}

/// Filtering a sequence with one more element at its end.
pub proof fn lemma_filter_push(s: Seq<Watch>, w: Watch, keep: spec_fn(Watch) -> bool)
    ensures
        s.push(w).filter(keep) == if keep(w) {
            s.filter(keep).push(w)
        } else {
            s.filter(keep)
        },
{
    reveal(Seq::filter);
    assert(s.push(w).drop_last() == s);
}

/// What is left of watches with distinct identifiers has distinct
/// identifiers.
pub proof fn lemma_filter_keeps_distinct(s: Seq<Watch>, keep: spec_fn(Watch) -> bool)
    requires
        distinct_ids(s),
    ensures
        distinct_ids(s.filter(keep)),
        forall|i: int|
            0 <= i < s.filter(keep).len() ==> has_watch(s, (#[trigger] s.filter(keep)[i]).wd),
    decreases s.len(),
{
    reveal(Seq::filter);
    if s.len() > 0 {
        let init = s.drop_last();
        assert forall|i: int, j: int| 0 <= i < j < init.len() implies (#[trigger] init[i]).wd != (
        #[trigger] init[j]).wd by {
            assert(init[i] == s[i] && init[j] == s[j]);
        }
        lemma_filter_keeps_distinct(init, keep);
        let f = init.filter(keep);
        assert forall|i: int| 0 <= i < f.len() implies has_watch(s, (#[trigger] f[i]).wd)
            && f[i].wd != s.last().wd by {
            assert(has_watch(init, f[i].wd));
            let j = choose|j: int| 0 <= j < init.len() && (#[trigger] init[j]).wd == f[i].wd;
            assert(init[j] == s[j]);
            assert(s[j].wd != s[s.len() - 1].wd);
        }
        if keep(s.last()) {
            assert(s.filter(keep) == f.push(s.last()));
            assert(s[s.len() - 1].wd == s.last().wd);
        }
    }
}

} // verus!
