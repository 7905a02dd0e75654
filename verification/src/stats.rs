//! Usage statistics: how often each kind of event was seen, in all and per
//! path.

use vstd::prelude::*;
use crate::event::{
    overlaps, Event, EventMask, ACCESS, ATTRIB, CLOSE_NOWRITE, CLOSE_WRITE, CREATE, DELETE,
    DELETE_SELF, MODIFY, MOVED_FROM, MOVED_TO, MOVE_SELF, OPEN, UNMOUNT,
};
use crate::kinds::{
    added, bumped, kind_bit, lemma_kinds_listed, lemma_selected_bounded, selected_sum,
    selected_total, selected_upto, tally_after, tally_has_room, tally_within, KINDS,
};
use crate::text::str_equal;

verus! {

/// What was counted for one path.
pub struct FileTally {
    pub path: Seq<char>,
    /// The counters by kind, in canonical order.
    pub counts: Seq<nat>,
    pub total: nat,
}

/// What was counted, in all and per path.
pub struct StatsView {
    /// The counters by kind, in canonical order.
    pub totals: Seq<nat>,
    /// The number of events recorded.
    pub events: nat,
    /// The paths in the order in which they were first seen.
    pub files: Seq<FileTally>,
}

/// Counters that are all zero.
pub open spec fn no_hits() -> Seq<nat> {
    Seq::new(KINDS as nat, |k: int| 0nat)
}

/// The place of the first entry for `path`; the number of entries where there
/// is none.
pub open spec fn position(files: Seq<FileTally>, path: Seq<char>) -> int
    decreases files.len(),
{
    if files.len() == 0 {
        0
    } else {
        let before = position(files.drop_last(), path);
        if before < files.len() - 1 {
            before
        } else if files.last().path == path {
            files.len() - 1
        } else {
            files.len() as int
        }
    }
}

/// One entry after one more event with the kinds `mask`.
pub open spec fn tally_hit(file: FileTally, mask: u32) -> FileTally {
    FileTally { path: file.path, counts: tally_after(file.counts, mask), total: file.total + 1 }
}

/// The entries after an event with the kinds `mask` on `path`: the entry of
/// the path counts it, and a path not seen before gets an entry at the end.
pub open spec fn files_after(files: Seq<FileTally>, path: Seq<char>, mask: u32) -> Seq<FileTally> {
    let at = position(files, path);
    if at < files.len() {
        files.update(at, tally_hit(files[at], mask))
    } else {
        files.push(tally_hit(FileTally { path, counts: no_hits(), total: 0 }, mask))
    }
}

/// The statistics after an event with the kinds `mask` on `path`.
pub open spec fn recorded(stats: StatsView, path: Seq<char>, mask: u32) -> StatsView {
    StatsView {
        totals: tally_after(stats.totals, mask),
        events: stats.events + 1,
        files: files_after(stats.files, path, mask),
    }
}

/// The sum of the totals of the entries.
pub open spec fn files_total(files: Seq<FileTally>) -> nat
    decreases files.len(),
{
    if files.len() == 0 {
        0
    } else {
        files_total(files.drop_last()) + files.last().total
    }
}

/// The sum, over the entries, of the counter of the `k`-th kind.
pub open spec fn files_count(files: Seq<FileTally>, k: int) -> nat
    decreases files.len(),
{
    if files.len() == 0 {
        0
    } else {
        files_count(files.drop_last(), k) + files.last().counts[k]
    }
}

/// Where the first entry for a path stands.
pub proof fn lemma_position(files: Seq<FileTally>, path: Seq<char>, at: int)
    requires
        0 <= at <= files.len(),
        forall|j: int| 0 <= j < at ==> (#[trigger] files[j]).path != path,
        at < files.len() ==> files[at].path == path,
    ensures
        position(files, path) == at,
    decreases files.len(),
{
    if files.len() > 0 {
        let init = files.drop_last();
        if at < files.len() - 1 {
            assert(init[at] == files[at]);
            assert forall|j: int| 0 <= j < at implies (#[trigger] init[j]).path != path by {
                assert(init[j] == files[j]);
            }
            lemma_position(init, path, at);
        } else {
            assert forall|j: int| 0 <= j < init.len() implies (#[trigger] init[j]).path != path by {
                assert(init[j] == files[j]);
            }
            lemma_position(init, path, init.len() as int);
        }
    }
}

/// The first entry for a path, where there is one, is an entry for that path.
pub proof fn lemma_position_is_first(files: Seq<FileTally>, path: Seq<char>)
    ensures
        0 <= position(files, path) <= files.len(),
        position(files, path) < files.len() ==> files[position(files, path)].path == path,
        forall|j: int| 0 <= j < position(files, path) ==> (#[trigger] files[j]).path != path,
    decreases files.len(),
{
    if files.len() > 0 {
        let init = files.drop_last();
        lemma_position_is_first(init, path);
        assert forall|j: int| 0 <= j < position(files, path) implies (#[trigger] files[j]).path
            != path by {
            if j < init.len() {
                assert(init[j] == files[j]);
            }
        }
        if position(init, path) < init.len() {
            assert(init[position(init, path)] == files[position(init, path)]);
        }
    }
}

/// What holds of statistics that were made by recording events: no kind
/// was counted more often than there were events, no path has two entries,
/// and the entries add up to the counters for all paths.
pub open spec fn consistent(stats: StatsView) -> bool {
    &&& tally_within(stats.totals, stats.events)
    &&& forall|i: int|
        0 <= i < stats.files.len() ==> tally_within(
            (#[trigger] stats.files[i]).counts,
            stats.files[i].total,
        )
    &&& forall|i: int, j: int|
        0 <= i < j < stats.files.len() ==> (#[trigger] stats.files[i]).path
            != (#[trigger] stats.files[j]).path
    &&& files_total(stats.files) == stats.events
    &&& forall|k: int| 0 <= k < KINDS ==> #[trigger] files_count(stats.files, k) == stats.totals[k]
}

/// The statistics after the events `events`, each a path and the kinds of
/// the event, were recorded in order.
pub open spec fn recorded_all(stats: StatsView, events: Seq<(Seq<char>, u32)>) -> StatsView
    decreases events.len(),
{
    if events.len() == 0 {
        stats
    } else {
        recorded(recorded_all(stats, events.drop_last()), events.last().0, events.last().1)
    }
}

proof fn lemma_sums_after_update(files: Seq<FileTally>, at: int, entry: FileTally, k: int)
    requires
        0 <= at < files.len(),
    ensures
        files_total(files.update(at, entry)) + files[at].total == files_total(files) + entry.total,
        files_count(files.update(at, entry), k) + files[at].counts[k] == files_count(files, k)
            + entry.counts[k],
        files[at].total <= files_total(files),
    decreases files.len(),
{
    let init = files.drop_last();
    if at == files.len() - 1 {
        assert(files.update(at, entry).drop_last() == init);
    } else {
        assert(files.update(at, entry).drop_last() == init.update(at, entry));
        assert(init[at] == files[at]);
        lemma_sums_after_update(init, at, entry, k);
    }
}

/// Recording an event keeps statistics consistent.
pub proof fn lemma_recorded_consistent(stats: StatsView, path: Seq<char>, mask: u32)
    requires
        consistent(stats),
    ensures
        consistent(recorded(stats, path, mask)),
{
    let after = recorded(stats, path, mask);
    let at = position(stats.files, path);
    lemma_position_is_first(stats.files, path);
    if at < stats.files.len() {
        let entry = tally_hit(stats.files[at], mask);
        assert(after.files == stats.files.update(at, entry));
        assert forall|k: int| 0 <= k < KINDS implies #[trigger] files_count(after.files, k)
            == after.totals[k] by {
            lemma_sums_after_update(stats.files, at, entry, k);
            assert(files_count(stats.files, k) == stats.totals[k]);
        }
        lemma_sums_after_update(stats.files, at, entry, 0);
        assert forall|i: int| 0 <= i < after.files.len() implies tally_within(
            (#[trigger] after.files[i]).counts,
            after.files[i].total,
        ) by {
            assert(tally_within(stats.files[i].counts, stats.files[i].total));
        }
        assert forall|i: int, j: int| 0 <= i < j < after.files.len() implies (
        #[trigger] after.files[i]).path != (#[trigger] after.files[j]).path by {
            assert(stats.files[i].path != stats.files[j].path);
        }
    } else {
        let entry = tally_hit(FileTally { path, counts: no_hits(), total: 0 }, mask);
        assert(after.files == stats.files.push(entry));
        assert(after.files.drop_last() == stats.files);
        assert forall|k: int| 0 <= k < KINDS implies #[trigger] files_count(after.files, k)
            == after.totals[k] by {
            assert(files_count(stats.files, k) == stats.totals[k]);
        }
        assert forall|i: int| 0 <= i < after.files.len() implies tally_within(
            (#[trigger] after.files[i]).counts,
            after.files[i].total,
        ) by {
            if i < stats.files.len() {
                assert(tally_within(stats.files[i].counts, stats.files[i].total));
            }
        }
        assert forall|i: int, j: int| 0 <= i < j < after.files.len() implies (
        #[trigger] after.files[i]).path != (#[trigger] after.files[j]).path by {
            if j < stats.files.len() {
                assert(stats.files[i].path != stats.files[j].path);
            } else {
                assert(stats.files[i].path != path);
            }
        }
    }
}

/// Whatever events are recorded, from nothing: the total is the number of
/// events, the totals per path add up to it, and for each kind the counters
/// per path add up to the counter for all paths.
pub proof fn lemma_totals_agree(events: Seq<(Seq<char>, u32)>)
    ensures
        ({
            let stats = recorded_all(Statistics::empty_view(), events);
            &&& consistent(stats)
            &&& stats.events == events.len()
            &&& files_total(stats.files) == events.len()
            &&& forall|k: int|
                0 <= k < KINDS ==> #[trigger] files_count(stats.files, k) == stats.totals[k]
        }),
    decreases events.len(),
{
    if events.len() > 0 {
        lemma_totals_agree(events.drop_last());
        let before = recorded_all(Statistics::empty_view(), events.drop_last());
        lemma_recorded_consistent(before, events.last().0, events.last().1);
    }
}

/// Whether the entry at `a` is listed before the entry at `b`, `a` and `b`
/// being places in `keys`: by the key, and where the keys are equal, by the
/// place.
pub open spec fn comes_before(keys: Seq<u64>, a: int, b: int, ascending: bool) -> bool {
    if keys[a] == keys[b] {
        a < b
    } else if ascending {
        keys[a] < keys[b]
    } else {
        keys[a] > keys[b]
    }
}

/// Whether `order` lists every place of `keys` once, each before those that
/// it comes before.
pub open spec fn is_sorted_order(order: Seq<usize>, keys: Seq<u64>, ascending: bool) -> bool {
    &&& order.len() == keys.len()
    &&& forall|i: int| 0 <= i < order.len() ==> (#[trigger] order[i]) < keys.len()
    &&& forall|i: int, j: int|
        0 <= i < j < order.len() ==> comes_before(
            keys,
            (#[trigger] order[i]) as int,
            (#[trigger] order[j]) as int,
            ascending,
        )
}

fn before(keys: &Vec<u64>, a: usize, b: usize, ascending: bool) -> (r: bool)
    requires
        a < keys.len(),
        b < keys.len(),
    ensures
        r == comes_before(keys@, a as int, b as int, ascending),
{
    if keys[a] == keys[b] {
        a < b
    } else if ascending {
        keys[a] < keys[b]
    } else {
        keys[a] > keys[b]
    }
}

/// The places of `keys`, sorted by key; places with equal keys stay in
/// their order.
pub fn sorted_order(keys: &Vec<u64>, ascending: bool) -> (order: Vec<usize>)
    ensures
        is_sorted_order(order@, keys@, ascending),
{
    let mut order: Vec<usize> = Vec::new();
    let mut n: usize = 0;
    while n < keys.len()
        invariant
            n <= keys.len(),
            order.len() == n,
            forall|i: int| 0 <= i < order.len() ==> (#[trigger] order[i]) < n,
            forall|i: int, j: int|
                0 <= i < j < order.len() ==> comes_before(
                    keys@,
                    (#[trigger] order[i]) as int,
                    (#[trigger] order[j]) as int,
                    ascending,
                ),
        decreases keys.len() - n,
    {
        let mut p: usize = order.len();
        while p > 0 && before(keys, n, order[p - 1], ascending)
            invariant
                p <= order.len() == n < keys.len(),
                forall|i: int| 0 <= i < order.len() ==> (#[trigger] order[i]) < n,
                forall|q: int|
                    p <= q < order.len() ==> comes_before(
                        keys@,
                        n as int,
                        (#[trigger] order[q]) as int,
                        ascending,
                    ),
            decreases p,
        {
            p -= 1;
        }
        let ghost old_order = order@;
        order.insert(p, n);
        assert forall|i: int, j: int| 0 <= i < j < order.len() implies comes_before(
            keys@,
            (#[trigger] order[i]) as int,
            (#[trigger] order[j]) as int,
            ascending,
        ) by {
            if j < p {
                assert(order[i] == old_order[i] && order[j] == old_order[j]);
            } else if j == p {
                assert(order[i] == old_order[i]);
                assert(old_order[p - 1] < n);
                if i < p - 1 {
                    assert(comes_before(
                        keys@,
                        old_order[i] as int,
                        old_order[p - 1] as int,
                        ascending,
                    ));
                }
            } else if i < p {
                assert(order[i] == old_order[i] && order[j] == old_order[j - 1]);
            } else if i == p {
                assert(order[j] == old_order[j - 1]);
            } else {
                assert(order[i] == old_order[i - 1] && order[j] == old_order[j - 1]);
            }
        }
        assert forall|i: int| 0 <= i < order.len() implies (#[trigger] order[i]) < n + 1 by {
            if i < p {
                assert(order[i] == old_order[i]);
            } else if i > p {
                assert(order[i] == old_order[i - 1]);
            }
        }
        n += 1;
    }
    order
}

/// A sorted order lists every place.
proof fn lemma_order_covers(order: Seq<usize>, keys: Seq<u64>, ascending: bool, place: int)
    requires
        is_sorted_order(order, keys, ascending),
        0 <= place < keys.len(),
    ensures
        exists|i: int| 0 <= i < order.len() && #[trigger] order[i] == place,
{
    let n = keys.len() as int;
    let places = order.map_values(|p: usize| p as int);
    assert forall|i: int, j: int| 0 <= i < places.len() && 0 <= j < places.len() && i
        != j implies places[i] != places[j] by {
        if i < j {
            assert(comes_before(keys, order[i] as int, order[j] as int, ascending));
        } else {
            assert(comes_before(keys, order[j] as int, order[i] as int, ascending));
        }
    }
    places.unique_seq_to_set();
    vstd::set_lib::lemma_int_range(0, n);
    let all = vstd::set_lib::set_int_range(0, n);
    assert(places.to_set().subset_of(all)) by {
        assert forall|v: int| places.to_set().contains(v) implies all.contains(v) by {
            let i = choose|i: int| 0 <= i < places.len() && places[i] == v;
            assert(order[i] < keys.len());
        }
    }
    vstd::set_lib::lemma_len_subset(places.to_set(), all);
    vstd::set_lib::lemma_subset_equality(places.to_set(), all);
    assert(all.contains(place));
    assert(places.to_set().contains(place));
    let i = choose|i: int| 0 <= i < places.len() && places[i] == place;
    assert(order[i] == place);
}

proof fn lemma_orders_agree(a: Seq<usize>, b: Seq<usize>, keys: Seq<u64>, ascending: bool, n: int)
    requires
        is_sorted_order(a, keys, ascending),
        is_sorted_order(b, keys, ascending),
        0 <= n <= keys.len(),
    ensures
        forall|i: int| 0 <= i < n ==> a[i] == b[i],
    decreases n,
{
    if n > 0 {
        lemma_orders_agree(a, b, keys, ascending, n - 1);
        let at = n - 1;
        let x = a[at];
        let y = b[at];
        lemma_order_covers(b, keys, ascending, x as int);
        lemma_order_covers(a, keys, ascending, y as int);
        let j = choose|j: int| 0 <= j < b.len() && #[trigger] b[j] == x as int;
        let k = choose|k: int| 0 <= k < a.len() && #[trigger] a[k] == y as int;
        if j < at {
            assert(a[j] == b[j]);
            assert(comes_before(keys, a[j] as int, a[at] as int, ascending));
        }
        if k < at {
            assert(a[k] == b[k]);
            assert(comes_before(keys, b[k] as int, b[at] as int, ascending));
        }
        if j > at && k > at {
            assert(comes_before(keys, b[at] as int, b[j] as int, ascending));
            assert(comes_before(keys, a[at] as int, a[k] as int, ascending));
        }
    }
}

/// There is one sorted order: the keys decide it.
pub proof fn lemma_sorted_order_is_one(a: Seq<usize>, b: Seq<usize>, keys: Seq<u64>, ascending: bool)
    requires
        is_sorted_order(a, keys, ascending),
        is_sorted_order(b, keys, ascending),
    ensures
        a == b,
{
    lemma_orders_agree(a, b, keys, ascending, keys.len() as int);
    assert(a =~= b);
}

/// Whether `listed` holds the entries `files` sorted by `keys`, the key of
/// each entry standing at its place; entries with equal keys stay in their
/// order.
pub open spec fn lists_sorted(
    listed: Seq<&FileStatistics>,
    files: Seq<FileStatistics>,
    keys: Seq<u64>,
    ascending: bool,
) -> bool {
    exists|order: Seq<usize>|
        {
            &&& #[trigger] is_sorted_order(order, keys, ascending)
            &&& listed.len() == files.len() == keys.len()
            &&& forall|i: int| 0 <= i < listed.len() ==> *(#[trigger] listed[i]) == files[order[i] as int]
        }
}

/// The statistics for one path.
#[derive(Debug, Clone)]
pub struct FileStatistics {
    pub path: String,
    pub access: u64,
    pub modify: u64,
    pub attrib: u64,
    pub close_write: u64,
    pub close_nowrite: u64,
    pub open: u64,
    pub moved_from: u64,
    pub moved_to: u64,
    pub create: u64,
    pub delete: u64,
    pub delete_self: u64,
    pub move_self: u64,
    pub unmount: u64,
    /// The events on the path, each counted once.
    pub total: u64,
}

impl View for FileStatistics {
    type V = FileTally;

    open spec fn view(&self) -> FileTally {
        FileTally { path: self.path@, counts: self.counts(), total: self.total as nat }
    }
}

impl FileStatistics {
    /// The counters by kind, in canonical order.
    pub open spec fn counts(&self) -> Seq<nat> {
        seq![
            self.access as nat,
            self.modify as nat,
            self.attrib as nat,
            self.close_write as nat,
            self.close_nowrite as nat,
            self.open as nat,
            self.moved_from as nat,
            self.moved_to as nat,
            self.create as nat,
            self.delete as nat,
            self.delete_self as nat,
            self.move_self as nat,
            self.unmount as nat,
        ]
    }

    /// No kind was counted more often than there were events.
    pub open spec fn wf(&self) -> bool {
        tally_within(self.counts(), self.total as nat)
    }

    /// Whether one more event with the kinds `mask` can be counted.
    pub open spec fn has_room(&self, mask: u32) -> bool {
        self.total < u64::MAX && tally_has_room(self.counts(), mask)
    }

    /// Statistics for `path`, with nothing counted yet.
    pub fn new(path: String) -> (r: Self)
        ensures
            r@ == (FileTally { path: path@, counts: no_hits(), total: 0 }),
            r.path == path,
            r.wf(),
    {
        let r = FileStatistics {
            path,
            access: 0,
            modify: 0,
            attrib: 0,
            close_write: 0,
            close_nowrite: 0,
            open: 0,
            moved_from: 0,
            moved_to: 0,
            create: 0,
            delete: 0,
            delete_self: 0,
            move_self: 0,
            unmount: 0,
            total: 0,
        };
        assert(r.counts() =~= no_hits());
        r
    }

    /// Counts one event with the kinds `mask`: once for each of its kinds,
    /// and once in the total.
    pub fn record_event(&mut self, mask: EventMask)
        requires
            old(self).has_room(mask@),
        ensures
            final(self)@ == tally_hit(old(self)@, mask@),
            final(self).path == old(self).path,
            old(self).wf() ==> final(self).wf(),
    {
        proof {
            lemma_kinds_listed();
            let tally = self.counts();
            assert(forall|k: int|
                0 <= k < KINDS && overlaps(mask@, kind_bit(k)) ==> #[trigger] tally[k] < u64::MAX);
            assert({
                &&& tally[0] == self.access
                &&& tally[1] == self.modify
                &&& tally[2] == self.attrib
                &&& tally[3] == self.close_write
                &&& tally[4] == self.close_nowrite
                &&& tally[5] == self.open
                &&& tally[6] == self.moved_from
                &&& tally[7] == self.moved_to
                &&& tally[8] == self.create
                &&& tally[9] == self.delete
                &&& tally[10] == self.delete_self
                &&& tally[11] == self.move_self
                &&& tally[12] == self.unmount
            });
        }
        self.access = bumped(self.access, mask.contains(EventMask(ACCESS)));
        self.modify = bumped(self.modify, mask.contains(EventMask(MODIFY)));
        self.attrib = bumped(self.attrib, mask.contains(EventMask(ATTRIB)));
        self.close_write = bumped(self.close_write, mask.contains(EventMask(CLOSE_WRITE)));
        self.close_nowrite = bumped(self.close_nowrite, mask.contains(EventMask(CLOSE_NOWRITE)));
        self.open = bumped(self.open, mask.contains(EventMask(OPEN)));
        self.moved_from = bumped(self.moved_from, mask.contains(EventMask(MOVED_FROM)));
        self.moved_to = bumped(self.moved_to, mask.contains(EventMask(MOVED_TO)));
        self.create = bumped(self.create, mask.contains(EventMask(CREATE)));
        self.delete = bumped(self.delete, mask.contains(EventMask(DELETE)));
        self.delete_self = bumped(self.delete_self, mask.contains(EventMask(DELETE_SELF)));
        self.move_self = bumped(self.move_self, mask.contains(EventMask(MOVE_SELF)));
        self.unmount = bumped(self.unmount, mask.contains(EventMask(UNMOUNT)));
        self.total += 1;
        assert(self.counts() =~= tally_after(old(self).counts(), mask@));
    }

    /// A copy of the statistics.
    pub fn duplicate(&self) -> (r: Self)
        ensures
            r == *self,
    {
        FileStatistics {
            path: self.path.clone(),
            access: self.access,
            modify: self.modify,
            attrib: self.attrib,
            close_write: self.close_write,
            close_nowrite: self.close_nowrite,
            open: self.open,
            moved_from: self.moved_from,
            moved_to: self.moved_to,
            create: self.create,
            delete: self.delete,
            delete_self: self.delete_self,
            move_self: self.move_self,
            unmount: self.unmount,
            total: self.total,
        }
    }

    /// The counters by kind, in canonical order.
    pub fn count_list(&self) -> (list: Vec<u64>)
        ensures
            list.len() == KINDS,
            forall|k: int| 0 <= k < KINDS ==> (#[trigger] list[k]) as nat == self.counts()[k],
    {
        let mut list: Vec<u64> = Vec::new();
        list.push(self.access);
        list.push(self.modify);
        list.push(self.attrib);
        list.push(self.close_write);
        list.push(self.close_nowrite);
        list.push(self.open);
        list.push(self.moved_from);
        list.push(self.moved_to);
        list.push(self.create);
        list.push(self.delete);
        list.push(self.delete_self);
        list.push(self.move_self);
        list.push(self.unmount);
        list
    }

    /// Whether the count of the events of the kinds of `mask` is a number
    /// that `get_count` can return.
    pub fn count_fits(&self, mask: EventMask) -> (r: bool)
        ensures
            r == (selected_total(self.counts(), mask@) <= u64::MAX),
    {
        let counts = self.count_list();
        selected_sum(&counts, mask, Ghost(self.counts())) <= u64::MAX as u128
    }

    /// How many events of the kinds of `mask` were counted, all told.
    pub fn get_count(&self, mask: EventMask) -> (r: u64)
        requires
            selected_total(self.counts(), mask@) <= u64::MAX,
        ensures
            r == selected_total(self.counts(), mask@),
    {
        let mut count: u64 = 0;
        let ghost tally = self.counts();
        proof {
            lemma_kinds_listed();
        }
        assert(count == selected_upto(tally, mask@, 0));
        proof {
            lemma_selected_bounded(tally, mask@, 1);
        }
        count = added(count, self.access, mask.contains(EventMask(ACCESS)));
        assert(count == selected_upto(tally, mask@, 1));
        proof {
            lemma_selected_bounded(tally, mask@, 2);
        }
        count = added(count, self.modify, mask.contains(EventMask(MODIFY)));
        assert(count == selected_upto(tally, mask@, 2));
        proof {
            lemma_selected_bounded(tally, mask@, 3);
        }
        count = added(count, self.attrib, mask.contains(EventMask(ATTRIB)));
        assert(count == selected_upto(tally, mask@, 3));
        proof {
            lemma_selected_bounded(tally, mask@, 4);
        }
        count = added(count, self.close_write, mask.contains(EventMask(CLOSE_WRITE)));
        assert(count == selected_upto(tally, mask@, 4));
        proof {
            lemma_selected_bounded(tally, mask@, 5);
        }
        count = added(count, self.close_nowrite, mask.contains(EventMask(CLOSE_NOWRITE)));
        assert(count == selected_upto(tally, mask@, 5));
        proof {
            lemma_selected_bounded(tally, mask@, 6);
        }
        count = added(count, self.open, mask.contains(EventMask(OPEN)));
        assert(count == selected_upto(tally, mask@, 6));
        proof {
            lemma_selected_bounded(tally, mask@, 7);
        }
        count = added(count, self.moved_from, mask.contains(EventMask(MOVED_FROM)));
        assert(count == selected_upto(tally, mask@, 7));
        proof {
            lemma_selected_bounded(tally, mask@, 8);
        }
        count = added(count, self.moved_to, mask.contains(EventMask(MOVED_TO)));
        assert(count == selected_upto(tally, mask@, 8));
        proof {
            lemma_selected_bounded(tally, mask@, 9);
        }
        count = added(count, self.create, mask.contains(EventMask(CREATE)));
        assert(count == selected_upto(tally, mask@, 9));
        proof {
            lemma_selected_bounded(tally, mask@, 10);
        }
        count = added(count, self.delete, mask.contains(EventMask(DELETE)));
        assert(count == selected_upto(tally, mask@, 10));
        proof {
            lemma_selected_bounded(tally, mask@, 11);
        }
        count = added(count, self.delete_self, mask.contains(EventMask(DELETE_SELF)));
        assert(count == selected_upto(tally, mask@, 11));
        proof {
            lemma_selected_bounded(tally, mask@, 12);
        }
        count = added(count, self.move_self, mask.contains(EventMask(MOVE_SELF)));
        assert(count == selected_upto(tally, mask@, 12));
        proof {
            lemma_selected_bounded(tally, mask@, 13);
        }
        count = added(count, self.unmount, mask.contains(EventMask(UNMOUNT)));
        assert(count == selected_upto(tally, mask@, 13));
        count
    }
}

/// The statistics of a run.
#[derive(Debug, Clone)]
pub struct Statistics {
    pub total_access: u64,
    pub total_modify: u64,
    pub total_attrib: u64,
    pub total_close_write: u64,
    pub total_close_nowrite: u64,
    pub total_open: u64,
    pub total_moved_from: u64,
    pub total_moved_to: u64,
    pub total_create: u64,
    pub total_delete: u64,
    pub total_delete_self: u64,
    pub total_move_self: u64,
    pub total_unmount: u64,
    /// The events recorded, each counted once.
    pub total_events: u64,
    /// The statistics per path, in the order in which the paths were first
    /// seen; no path has two entries.
    pub file_stats: Vec<FileStatistics>,
}

impl View for Statistics {
    type V = StatsView;

    open spec fn view(&self) -> StatsView {
        StatsView {
            totals: self.totals(),
            events: self.total_events as nat,
            files: self.file_stats@.map_values(|f: FileStatistics| f@),
        }
    }
}

impl Statistics {
    /// The counters by kind, in canonical order.
    pub open spec fn totals(&self) -> Seq<nat> {
        seq![
            self.total_access as nat,
            self.total_modify as nat,
            self.total_attrib as nat,
            self.total_close_write as nat,
            self.total_close_nowrite as nat,
            self.total_open as nat,
            self.total_moved_from as nat,
            self.total_moved_to as nat,
            self.total_create as nat,
            self.total_delete as nat,
            self.total_delete_self as nat,
            self.total_move_self as nat,
            self.total_unmount as nat,
        ]
    }

    /// Nothing recorded.
    pub open spec fn empty_view() -> StatsView {
        StatsView { totals: no_hits(), events: 0, files: Seq::empty() }
    }

    /// Statistics with nothing recorded.
    pub fn new() -> (r: Self)
        ensures
            r@ == Self::empty_view(),
            r.wf(),
    {
        proof {
            lemma_totals_agree(Seq::empty());
        }
        let r = Statistics {
            total_access: 0,
            total_modify: 0,
            total_attrib: 0,
            total_close_write: 0,
            total_close_nowrite: 0,
            total_open: 0,
            total_moved_from: 0,
            total_moved_to: 0,
            total_create: 0,
            total_delete: 0,
            total_delete_self: 0,
            total_move_self: 0,
            total_unmount: 0,
            total_events: 0,
            file_stats: Vec::new(),
        };
        assert(r.totals() =~= no_hits());
        assert(r@.files =~= Seq::empty());
        r
    }

    /// Whether the statistics are consistent.
    pub open spec fn wf(&self) -> bool {
        consistent(self@)
    }

    /// Consistent statistics have room for any event so long as the total
    /// has.
    pub proof fn lemma_room(&self, path: Seq<char>, mask: u32)
        requires
            self.wf(),
            self.total_events < u64::MAX,
        ensures
            self.has_room(path, mask),
    {
        let files = self@.files;
        let at = position(files, path);
        lemma_position_is_first(files, path);
        assert(forall|k: int| 0 <= k < KINDS ==> #[trigger] self.totals()[k] <= self.total_events);
        if at < files.len() {
            lemma_sums_after_update(files, at, files[at], 0);
            assert(files[at] == self.file_stats[at]@);
            assert(tally_within(files[at].counts, files[at].total));
            assert(forall|k: int|
                0 <= k < KINDS ==> #[trigger] self.file_stats[at].counts()[k] <= files[at].total);
        }
    }

    /// Whether one more event with the kinds `mask` on `path` can be
    /// recorded.
    pub open spec fn has_room(&self, path: Seq<char>, mask: u32) -> bool {
        let at = position(self@.files, path);
        &&& self.total_events < u64::MAX
        &&& tally_has_room(self.totals(), mask)
        &&& 0 <= at < self.file_stats.len() ==> self.file_stats[at].has_room(mask)
    }

    /// Records an event: in the counters of its kinds, in the total, and in
    /// the entry of its path.
    pub fn record_event(&mut self, event: &Event)
        requires
            old(self).has_room(event.path@, event.mask@),
        ensures
            final(self)@ == recorded(old(self)@, event.path@, event.mask@),
            old(self).wf() ==> final(self).wf(),
    {
        proof {
            if self.wf() {
                lemma_recorded_consistent(self@, event.path@, event.mask@);
            }
        }
        self.update_totals(event.mask);
        self.update_file_stats(&event.path, event.mask);
    }

    /// Counts one event with the kinds `mask` in the counters for all paths.
    pub fn update_totals(&mut self, mask: EventMask)
        requires
            old(self).total_events < u64::MAX,
            tally_has_room(old(self).totals(), mask@),
        ensures
            final(self).totals() == tally_after(old(self).totals(), mask@),
            final(self).total_events == old(self).total_events + 1,
            final(self).file_stats == old(self).file_stats,
    {
        proof {
            lemma_kinds_listed();
            let tally = self.totals();
            assert(forall|k: int|
                0 <= k < KINDS && overlaps(mask@, kind_bit(k)) ==> #[trigger] tally[k] < u64::MAX);
            assert({
                &&& tally[0] == self.total_access
                &&& tally[1] == self.total_modify
                &&& tally[2] == self.total_attrib
                &&& tally[3] == self.total_close_write
                &&& tally[4] == self.total_close_nowrite
                &&& tally[5] == self.total_open
                &&& tally[6] == self.total_moved_from
                &&& tally[7] == self.total_moved_to
                &&& tally[8] == self.total_create
                &&& tally[9] == self.total_delete
                &&& tally[10] == self.total_delete_self
                &&& tally[11] == self.total_move_self
                &&& tally[12] == self.total_unmount
            });
        }
        self.total_access = bumped(self.total_access, mask.contains(EventMask(ACCESS)));
        self.total_modify = bumped(self.total_modify, mask.contains(EventMask(MODIFY)));
        self.total_attrib = bumped(self.total_attrib, mask.contains(EventMask(ATTRIB)));
        self.total_close_write = bumped(self.total_close_write, mask.contains(EventMask(CLOSE_WRITE)));
        self.total_close_nowrite = bumped(self.total_close_nowrite, mask.contains(EventMask(CLOSE_NOWRITE)));
        self.total_open = bumped(self.total_open, mask.contains(EventMask(OPEN)));
        self.total_moved_from = bumped(self.total_moved_from, mask.contains(EventMask(MOVED_FROM)));
        self.total_moved_to = bumped(self.total_moved_to, mask.contains(EventMask(MOVED_TO)));
        self.total_create = bumped(self.total_create, mask.contains(EventMask(CREATE)));
        self.total_delete = bumped(self.total_delete, mask.contains(EventMask(DELETE)));
        self.total_delete_self = bumped(self.total_delete_self, mask.contains(EventMask(DELETE_SELF)));
        self.total_move_self = bumped(self.total_move_self, mask.contains(EventMask(MOVE_SELF)));
        self.total_unmount = bumped(self.total_unmount, mask.contains(EventMask(UNMOUNT)));
        self.total_events += 1;
        assert(self.totals() =~= tally_after(old(self).totals(), mask@));
    }

    /// Counts one event with the kinds `mask` in the entry of `path`, which
    /// is made where the path has none.
    pub fn update_file_stats(&mut self, path: &String, mask: EventMask)
        requires
            0 <= position(old(self)@.files, path@) < old(self).file_stats.len() ==> old(
                self,
            ).file_stats[position(old(self)@.files, path@)].has_room(mask@),
        ensures
            final(self)@.files == files_after(old(self)@.files, path@, mask@),
            final(self).totals() == old(self).totals(),
            final(self).total_events == old(self).total_events,
    {
        let ghost files = self@.files;
        let mut i: usize = 0;
        while i < self.file_stats.len()
            invariant
                i <= self.file_stats.len(),
                *self == *old(self),
                files == self@.files,
                0 <= position(files, path@) < self.file_stats.len() ==> self.file_stats[position(
                    files,
                    path@,
                )].has_room(mask@),
                forall|j: int| 0 <= j < i ==> (#[trigger] files[j]).path != path@,
            decreases self.file_stats.len() - i,
        {
            if str_equal(self.file_stats[i].path.as_str(), path.as_str()) {
                proof {
                    lemma_position(files, path@, i as int);
                }
                self.file_stats[i].record_event(mask);
                assert(self@.files =~= files_after(files, path@, mask@));
                return ;
            }
            i += 1;
        }
        proof {
            lemma_position(files, path@, files.len() as int);
        }
        let mut entry = FileStatistics::new(path.clone());
        entry.record_event(mask);
        self.file_stats.push(entry);
        assert(self@.files =~= files_after(files, path@, mask@));
    }

    /// A copy of the statistics as they stand.
    pub fn snapshot(&self) -> (r: Self)
        ensures
            r@ == self@,
            r.file_stats@ == self.file_stats@,
            r.totals() == self.totals(),
            r.total_events == self.total_events,
    {
        let mut files: Vec<FileStatistics> = Vec::new();
        let mut i: usize = 0;
        while i < self.file_stats.len()
            invariant
                i <= self.file_stats.len(),
                files@ == self.file_stats@.take(i as int),
            decreases self.file_stats.len() - i,
        {
            files.push(self.file_stats[i].duplicate());
            assert(self.file_stats@.take(i + 1) == self.file_stats@.take(i as int).push(
                self.file_stats@[i as int],
            ));
            i += 1;
        }
        assert(self.file_stats@.take(i as int) == self.file_stats@);
        Statistics {
            total_access: self.total_access,
            total_modify: self.total_modify,
            total_attrib: self.total_attrib,
            total_close_write: self.total_close_write,
            total_close_nowrite: self.total_close_nowrite,
            total_open: self.total_open,
            total_moved_from: self.total_moved_from,
            total_moved_to: self.total_moved_to,
            total_create: self.total_create,
            total_delete: self.total_delete,
            total_delete_self: self.total_delete_self,
            total_move_self: self.total_move_self,
            total_unmount: self.total_unmount,
            total_events: self.total_events,
            file_stats: files,
        }
    }

    /// The counters by kind, in canonical order.
    pub fn total_list(&self) -> (list: Vec<u64>)
        ensures
            list.len() == KINDS,
            forall|k: int| 0 <= k < KINDS ==> (#[trigger] list[k]) as nat == self.totals()[k],
    {
        let mut list: Vec<u64> = Vec::new();
        list.push(self.total_access);
        list.push(self.total_modify);
        list.push(self.total_attrib);
        list.push(self.total_close_write);
        list.push(self.total_close_nowrite);
        list.push(self.total_open);
        list.push(self.total_moved_from);
        list.push(self.total_moved_to);
        list.push(self.total_create);
        list.push(self.total_delete);
        list.push(self.total_delete_self);
        list.push(self.total_move_self);
        list.push(self.total_unmount);
        list
    }

    /// Whether the count of the events of the kinds of `mask` is a number
    /// that `get_total_count` can return.
    pub fn total_count_fits(&self, mask: EventMask) -> (r: bool)
        ensures
            r == (selected_total(self.totals(), mask@) <= u64::MAX),
    {
        let totals = self.total_list();
        selected_sum(&totals, mask, Ghost(self.totals())) <= u64::MAX as u128
    }

    /// Whether, for every path, the count of the events of the kinds of
    /// `mask` is a number that `get_count` can return: whether the entries
    /// can be sorted by it.
    pub fn counts_fit(&self, mask: EventMask) -> (r: bool)
        ensures
            r == forall|i: int|
                0 <= i < self.file_stats.len() ==> selected_total(
                    (#[trigger] self.file_stats[i]).counts(),
                    mask@,
                ) <= u64::MAX,
    {
        let mut i: usize = 0;
        while i < self.file_stats.len()
            invariant
                i <= self.file_stats.len(),
                forall|j: int|
                    0 <= j < i ==> selected_total((#[trigger] self.file_stats[j]).counts(), mask@)
                        <= u64::MAX,
            decreases self.file_stats.len() - i,
        {
            if !self.file_stats[i].count_fits(mask) {
                return false;
            }
            i += 1;
        }
        true
    }

    /// How many events of the kinds of `mask` were recorded, all told.
    pub fn get_total_count(&self, mask: EventMask) -> (r: u64)
        requires
            selected_total(self.totals(), mask@) <= u64::MAX,
        ensures
            r == selected_total(self.totals(), mask@),
    {
        let mut count: u64 = 0;
        let ghost tally = self.totals();
        proof {
            lemma_kinds_listed();
        }
        assert(count == selected_upto(tally, mask@, 0));
        proof {
            lemma_selected_bounded(tally, mask@, 1);
        }
        count = added(count, self.total_access, mask.contains(EventMask(ACCESS)));
        assert(count == selected_upto(tally, mask@, 1));
        proof {
            lemma_selected_bounded(tally, mask@, 2);
        }
        count = added(count, self.total_modify, mask.contains(EventMask(MODIFY)));
        assert(count == selected_upto(tally, mask@, 2));
        proof {
            lemma_selected_bounded(tally, mask@, 3);
        }
        count = added(count, self.total_attrib, mask.contains(EventMask(ATTRIB)));
        assert(count == selected_upto(tally, mask@, 3));
        proof {
            lemma_selected_bounded(tally, mask@, 4);
        }
        count = added(count, self.total_close_write, mask.contains(EventMask(CLOSE_WRITE)));
        assert(count == selected_upto(tally, mask@, 4));
        proof {
            lemma_selected_bounded(tally, mask@, 5);
        }
        count = added(count, self.total_close_nowrite, mask.contains(EventMask(CLOSE_NOWRITE)));
        assert(count == selected_upto(tally, mask@, 5));
        proof {
            lemma_selected_bounded(tally, mask@, 6);
        }
        count = added(count, self.total_open, mask.contains(EventMask(OPEN)));
        assert(count == selected_upto(tally, mask@, 6));
        proof {
            lemma_selected_bounded(tally, mask@, 7);
        }
        count = added(count, self.total_moved_from, mask.contains(EventMask(MOVED_FROM)));
        assert(count == selected_upto(tally, mask@, 7));
        proof {
            lemma_selected_bounded(tally, mask@, 8);
        }
        count = added(count, self.total_moved_to, mask.contains(EventMask(MOVED_TO)));
        assert(count == selected_upto(tally, mask@, 8));
        proof {
            lemma_selected_bounded(tally, mask@, 9);
        }
        count = added(count, self.total_create, mask.contains(EventMask(CREATE)));
        assert(count == selected_upto(tally, mask@, 9));
        proof {
            lemma_selected_bounded(tally, mask@, 10);
        }
        count = added(count, self.total_delete, mask.contains(EventMask(DELETE)));
        assert(count == selected_upto(tally, mask@, 10));
        proof {
            lemma_selected_bounded(tally, mask@, 11);
        }
        count = added(count, self.total_delete_self, mask.contains(EventMask(DELETE_SELF)));
        assert(count == selected_upto(tally, mask@, 11));
        proof {
            lemma_selected_bounded(tally, mask@, 12);
        }
        count = added(count, self.total_move_self, mask.contains(EventMask(MOVE_SELF)));
        assert(count == selected_upto(tally, mask@, 12));
        proof {
            lemma_selected_bounded(tally, mask@, 13);
        }
        count = added(count, self.total_unmount, mask.contains(EventMask(UNMOUNT)));
        assert(count == selected_upto(tally, mask@, 13));
        count
    }

    /// The statistics for `path`, if an event on it was recorded.
    pub fn get_file_stats(&self, path: &String) -> (r: Option<&FileStatistics>)
        ensures
            match r {
                Some(f) => position(self@.files, path@) < self.file_stats.len() && *f
                    == self.file_stats[position(self@.files, path@)],
                None => position(self@.files, path@) == self.file_stats.len(),
            },
    {
        let ghost files = self@.files;
        let mut i: usize = 0;
        while i < self.file_stats.len()
            invariant
                i <= self.file_stats.len(),
                files == self@.files,
                forall|j: int| 0 <= j < i ==> (#[trigger] files[j]).path != path@,
            decreases self.file_stats.len() - i,
        {
            if str_equal(self.file_stats[i].path.as_str(), path.as_str()) {
                proof {
                    lemma_position(files, path@, i as int);
                }
                return Some(&self.file_stats[i]);
            }
            i += 1;
        }
        proof {
            lemma_position(files, path@, files.len() as int);
        }
        None
    }

    /// The totals per path, as sort keys.
    pub open spec fn total_keys(&self) -> Seq<u64> {
        Seq::new(self.file_stats.len() as nat, |i: int| self.file_stats[i].total)
    }

    /// The counts per path of the events of the kinds `mask`, as sort keys.
    pub open spec fn count_keys(&self, mask: u32) -> Seq<u64> {
        Seq::new(
            self.file_stats.len() as nat,
            |i: int| selected_total(self.file_stats[i].counts(), mask) as u64,
        )
    }

    fn listed(&self, keys: &Vec<u64>, ascending: bool) -> (r: Vec<&FileStatistics>)
        requires
            keys.len() == self.file_stats.len(),
        ensures
            lists_sorted(r@, self.file_stats@, keys@, ascending),
    {
        let order = sorted_order(keys, ascending);
        let mut stats: Vec<&FileStatistics> = Vec::new();
        let mut i: usize = 0;
        while i < order.len()
            invariant
                i <= order.len() == self.file_stats.len(),
                is_sorted_order(order@, keys@, ascending),
                stats.len() == i,
                forall|j: int| 0 <= j < i ==> *(#[trigger] stats[j]) == self.file_stats[order[j] as int],
            decreases order.len() - i,
        {
            stats.push(&self.file_stats[order[i]]);
            i += 1;
        }
        stats
    }

    /// The statistics per path, sorted by the total; paths with equal totals
    /// stay in the order in which they were first seen.
    pub fn get_sorted_file_stats(&self, ascending: bool) -> (r: Vec<&FileStatistics>)
        ensures
            lists_sorted(r@, self.file_stats@, self.total_keys(), ascending),
    {
        let mut keys: Vec<u64> = Vec::new();
        let mut i: usize = 0;
        while i < self.file_stats.len()
            invariant
                i <= self.file_stats.len(),
                keys@ == self.total_keys().take(i as int),
            decreases self.file_stats.len() - i,
        {
            keys.push(self.file_stats[i].total);
            i += 1;
        }
        assert(keys@ == self.total_keys());
        self.listed(&keys, ascending)
    }

    /// The statistics per path, sorted by the count of the events of the
    /// kinds `mask`; paths with equal counts stay in the order in which they
    /// were first seen.
    pub fn get_sorted_file_stats_by_event(&self, mask: EventMask, ascending: bool) -> (r: Vec<
        &FileStatistics,
    >)
        requires
            forall|i: int|
                0 <= i < self.file_stats.len() ==> selected_total(
                    (#[trigger] self.file_stats[i]).counts(),
                    mask@,
                ) <= u64::MAX,
        ensures
            lists_sorted(r@, self.file_stats@, self.count_keys(mask@), ascending),
    {
        let mut keys: Vec<u64> = Vec::new();
        let mut i: usize = 0;
        while i < self.file_stats.len()
            invariant
                i <= self.file_stats.len(),
                forall|i: int|
                    0 <= i < self.file_stats.len() ==> selected_total(
                        (#[trigger] self.file_stats[i]).counts(),
                        mask@,
                    ) <= u64::MAX,
                keys@ == self.count_keys(mask@).take(i as int),
            decreases self.file_stats.len() - i,
        {
            keys.push(self.file_stats[i].get_count(mask));
            i += 1;
        }
        assert(keys@ == self.count_keys(mask@));
        self.listed(&keys, ascending)
    }

    /// Forgets everything that was recorded.
    pub fn reset(&mut self)
        ensures
            final(self)@ == Self::empty_view(),
            final(self).wf(),
    {
        proof {
            lemma_totals_agree(Seq::empty());
        }
        self.total_access = 0;
        self.total_modify = 0;
        self.total_attrib = 0;
        self.total_close_write = 0;
        self.total_close_nowrite = 0;
        self.total_open = 0;
        self.total_moved_from = 0;
        self.total_moved_to = 0;
        self.total_create = 0;
        self.total_delete = 0;
        self.total_delete_self = 0;
        self.total_move_self = 0;
        self.total_unmount = 0;
        self.total_events = 0;
        self.file_stats.clear();
        assert(self.totals() =~= no_hits());
        assert(self@.files =~= Seq::empty());
    }
}

impl Default for Statistics {
    fn default() -> (r: Self)
        ensures
            r@ == Statistics::empty_view(),
    {
        Statistics::new()
    }
}

} // verus!
