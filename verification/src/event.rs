//! Event kinds, sets of them, and the events themselves.

use vstd::prelude::*;
use crate::error::InotifyToolsError;
use crate::kinds::{
    join_names, kind_bit_of, kind_from_name, kind_list_text, kind_name_of, kind_names,
    lemma_parse_error_stays, names_upto, normalized, parse_kind_list, parse_parts, split,
    split_ranges, KINDS,
};
use crate::path::{join, joined};
use crate::text::{chars_of, text_of, to_upper, trim_range};
use vstd::string::StringExecFns;

verus! {

/// A file was read.
pub const ACCESS: u32 = 0x0000_0001;

/// A file was written.
pub const MODIFY: u32 = 0x0000_0002;

/// The metadata of a file changed.
pub const ATTRIB: u32 = 0x0000_0004;

/// A file that was open for writing was closed.
pub const CLOSE_WRITE: u32 = 0x0000_0008;

/// A file that was not open for writing was closed.
pub const CLOSE_NOWRITE: u32 = 0x0000_0010;

/// A file was opened.
pub const OPEN: u32 = 0x0000_0020;

/// An entry was moved out of a watched directory.
pub const MOVED_FROM: u32 = 0x0000_0040;

/// An entry was moved into a watched directory.
pub const MOVED_TO: u32 = 0x0000_0080;

/// An entry was made in a watched directory.
pub const CREATE: u32 = 0x0000_0100;

/// An entry was deleted from a watched directory.
pub const DELETE: u32 = 0x0000_0200;

/// The watched path itself was deleted.
pub const DELETE_SELF: u32 = 0x0000_0400;

/// The watched path itself was moved.
pub const MOVE_SELF: u32 = 0x0000_0800;

/// The file system of the watched path was unmounted.
pub const UNMOUNT: u32 = 0x0000_2000;

/// The event source lost events.
pub const Q_OVERFLOW: u32 = 0x0000_4000;

/// The watch was taken away.
pub const IGNORED: u32 = 0x0000_8000;

/// The event is about a directory.
pub const ISDIR: u32 = 0x4000_0000;

/// `CLOSE_WRITE` and `CLOSE_NOWRITE`.
pub const CLOSE: u32 = 0x0000_0018;

/// `MOVED_FROM` and `MOVED_TO`.
pub const MOVE: u32 = 0x0000_00c0;

/// The twelve kinds from `ACCESS` to `MOVE_SELF`.
pub const ALL_EVENTS: u32 = 0x0000_0fff;

/// Every bit that has a name: the twelve kinds, `UNMOUNT`, `Q_OVERFLOW`,
/// `IGNORED` and `ISDIR`.
pub const ALL_FLAGS: u32 = 0x4000_efff;

/// Whether the set `mask` and the set `kinds` have a kind in common.
pub open spec fn overlaps(mask: u32, kinds: u32) -> bool {
    mask & kinds != 0
}

/// The composite sets are the unions of their kinds.
pub proof fn lemma_composites()
    ensures
        CLOSE == CLOSE_WRITE | CLOSE_NOWRITE,
        MOVE == MOVED_FROM | MOVED_TO,
        ALL_EVENTS == ACCESS | MODIFY | ATTRIB | CLOSE_WRITE | CLOSE_NOWRITE | OPEN | MOVED_FROM
            | MOVED_TO | CREATE | DELETE | DELETE_SELF | MOVE_SELF,
        ALL_FLAGS == ALL_EVENTS | UNMOUNT | Q_OVERFLOW | IGNORED | ISDIR,
{
    assert(0x18u32 == 0x8u32 | 0x10u32 && 0xc0u32 == 0x40u32 | 0x80u32 && 0xfffu32 == 0x1u32
        | 0x2u32 | 0x4u32 | 0x8u32 | 0x10u32 | 0x20u32 | 0x40u32 | 0x80u32 | 0x100u32 | 0x200u32
        | 0x400u32 | 0x800u32 && 0x4000_efffu32 == 0xfffu32 | 0x2000u32 | 0x4000u32 | 0x8000u32
        | 0x4000_0000u32) by (bit_vector);
}

/// A set of event kinds, one bit per kind.
#[derive(Debug, Clone, Copy, PartialEq, Eq, Structural)]
pub struct EventMask(pub u32);

impl View for EventMask {
    type V = u32;

    open spec fn view(&self) -> u32 {
        self.0
    }
}

/// The mask by which the event source is asked for a watch.
#[verifier::external_type_specification]
#[verifier::external_body]
pub struct ExWatchMask(inotify::WatchMask);

/// The bits of a `WatchMask` (`WatchMask::bits`).
pub uninterp spec fn watch_mask_bits(mask: inotify::WatchMask) -> u32;

/// `WatchMask::from_bits_truncate`, for bits among the twelve kinds of
/// `ALL_EVENTS`. Not proved: that each of these is a flag of a `WatchMask`
/// with the same bit, so that the mask returned holds the bits given.
#[verifier::external_body]
fn watch_mask_of(bits: u32) -> (r: inotify::WatchMask)
    requires
        bits & !ALL_EVENTS == 0,
    ensures
        watch_mask_bits(r) == bits,
{
    inotify::WatchMask::from_bits_truncate(bits)
}

impl EventMask {
    /// The set with the bits `mask`.
    pub fn new(mask: u32) -> (r: Self)
        ensures
            r@ == mask,
    {
        EventMask(mask)
    }

    /// The bits of the set.
    pub fn mask(&self) -> (r: u32)
        ensures
            r == self@,
    {
        self.0
    }

    /// Whether the two sets have a kind in common.
    pub fn contains(&self, other: EventMask) -> (r: bool)
        ensures
            r == overlaps(self@, other@),
    {
        (self.0 & other.0) != 0
    }

    /// The kinds of either set.
    pub fn union(&self, other: EventMask) -> (r: EventMask)
        ensures
            r@ == self@ | other@,
    {
        EventMask(self.0 | other.0)
    }

    /// The mask to hand to the event source: the kinds among `ALL_EVENTS`.
    pub fn to_watch_mask(&self) -> (r: inotify::WatchMask)
        ensures
            watch_mask_bits(r) == self@ & ALL_EVENTS,
    {
        let bits = self.0 & ALL_EVENTS;
        let own = self.0;
        assert((own & 0xfff) & !0xfffu32 == 0) by (bit_vector);
        watch_mask_of(bits)
    }

    /// The set that the event source reported as the bits `raw`: the flags
    /// among them that have a name.
    pub fn from_inotify_event_mask(raw: u32) -> (r: Self)
        ensures
            r@ == raw & ALL_FLAGS,
    {
        EventMask(raw & ALL_FLAGS)
    }

    /// The kind `ACCESS` alone.
    pub fn access() -> (r: Self)
        ensures
            r@ == ACCESS,
    {
        EventMask(ACCESS)
    }

    /// The kind `MODIFY` alone.
    pub fn modify() -> (r: Self)
        ensures
            r@ == MODIFY,
    {
        EventMask(MODIFY)
    }

    /// The kind `ATTRIB` alone.
    pub fn attrib() -> (r: Self)
        ensures
            r@ == ATTRIB,
    {
        EventMask(ATTRIB)
    }

    /// The kind `CLOSE_WRITE` alone.
    pub fn close_write() -> (r: Self)
        ensures
            r@ == CLOSE_WRITE,
    {
        EventMask(CLOSE_WRITE)
    }

    /// The kind `CLOSE_NOWRITE` alone.
    pub fn close_nowrite() -> (r: Self)
        ensures
            r@ == CLOSE_NOWRITE,
    {
        EventMask(CLOSE_NOWRITE)
    }

    /// The set `CLOSE`.
    pub fn close() -> (r: Self)
        ensures
            r@ == CLOSE,
    {
        EventMask(CLOSE)
    }

    /// The kind `OPEN` alone.
    pub fn open() -> (r: Self)
        ensures
            r@ == OPEN,
    {
        EventMask(OPEN)
    }

    /// The kind `MOVED_FROM` alone.
    pub fn moved_from() -> (r: Self)
        ensures
            r@ == MOVED_FROM,
    {
        EventMask(MOVED_FROM)
    }

    /// The kind `MOVED_TO` alone.
    pub fn moved_to() -> (r: Self)
        ensures
            r@ == MOVED_TO,
    {
        EventMask(MOVED_TO)
    }

    /// The set `MOVE`.
    pub fn move_any() -> (r: Self)
        ensures
            r@ == MOVE,
    {
        EventMask(MOVE)
    }

    /// The kind `CREATE` alone.
    pub fn create() -> (r: Self)
        ensures
            r@ == CREATE,
    {
        EventMask(CREATE)
    }

    /// The kind `DELETE` alone.
    pub fn delete() -> (r: Self)
        ensures
            r@ == DELETE,
    {
        EventMask(DELETE)
    }

    /// The kind `DELETE_SELF` alone.
    pub fn delete_self() -> (r: Self)
        ensures
            r@ == DELETE_SELF,
    {
        EventMask(DELETE_SELF)
    }

    /// The kind `MOVE_SELF` alone.
    pub fn move_self() -> (r: Self)
        ensures
            r@ == MOVE_SELF,
    {
        EventMask(MOVE_SELF)
    }

    /// The kind `UNMOUNT` alone.
    pub fn unmount() -> (r: Self)
        ensures
            r@ == UNMOUNT,
    {
        EventMask(UNMOUNT)
    }

    /// The flag `Q_OVERFLOW` alone.
    pub fn q_overflow() -> (r: Self)
        ensures
            r@ == Q_OVERFLOW,
    {
        EventMask(Q_OVERFLOW)
    }

    /// The flag `IGNORED` alone.
    pub fn ignored() -> (r: Self)
        ensures
            r@ == IGNORED,
    {
        EventMask(IGNORED)
    }

    /// The flag `ISDIR` alone.
    pub fn isdir() -> (r: Self)
        ensures
            r@ == ISDIR,
    {
        EventMask(ISDIR)
    }

    /// The set `ALL_EVENTS`.
    pub fn all_events() -> (r: Self)
        ensures
            r@ == ALL_EVENTS,
    {
        EventMask(ALL_EVENTS)
    }
}

impl std::ops::BitOr for EventMask {
    type Output = Self;

    fn bitor(self, rhs: Self) -> (r: Self) {
        EventMask(self.0 | rhs.0)
    }
}

impl vstd::std_specs::ops::BitOrSpecImpl for EventMask {
    open spec fn obeys_bitor_spec() -> bool {
        true
    }

    open spec fn bitor_req(self, rhs: Self) -> bool {
        true
    }

    open spec fn bitor_spec(self, rhs: Self) -> Self {
        EventMask(self.0 | rhs.0)
    }
}

impl std::ops::BitAnd for EventMask {
    type Output = Self;

    fn bitand(self, rhs: Self) -> (r: Self) {
        EventMask(self.0 & rhs.0)
    }
}

impl vstd::std_specs::ops::BitAndSpecImpl for EventMask {
    open spec fn obeys_bitand_spec() -> bool {
        true
    }

    open spec fn bitand_req(self, rhs: Self) -> bool {
        true
    }

    open spec fn bitand_spec(self, rhs: Self) -> Self {
        EventMask(self.0 & rhs.0)
    }
}

/// A point in time: seconds and nanoseconds since the start of 1970, UTC.
#[derive(Debug, Clone, Copy, PartialEq, Eq, Structural)]
pub struct Timestamp {
    pub secs: u64,
    pub nanos: u32,
}

/// `SystemTime::now`, as the time since the start of 1970; `None` where the
/// clock stands before that. Nothing is claimed of the time returned.
#[verifier::external_body]
fn now() -> Option<Timestamp> {
    match std::time::SystemTime::now().duration_since(std::time::UNIX_EPOCH) {
        Ok(d) => Some(Timestamp { secs: d.as_secs(), nanos: d.subsec_nanos() }),
        Err(_) => None,
    }
}

/// One event of the source, resolved against the watch that it came from.
#[derive(Debug, Clone)]
pub struct Event {
    /// The identifier of the watch.
    pub wd: i32,
    pub mask: EventMask,
    /// The token that pairs the two events of one rename.
    pub cookie: u32,
    /// The name of the entry in the watched directory, for an event about an
    /// entry.
    pub name: Option<String>,
    /// The path that the event is about.
    pub path: String,
    /// When the event was taken from the source.
    pub timestamp: Timestamp,
}

impl Event {
    /// An event taken now.
    pub fn new(wd: i32, mask: EventMask, cookie: u32, name: Option<String>, path: String) -> (r:
        Self)
        ensures
            r.wd == wd,
            r.mask == mask,
            r.cookie == cookie,
            r.name == name,
            r.path == path,
    {
        let timestamp = match now() {
            Some(t) => t,
            None => Timestamp { secs: 0, nanos: 0 },
        };
        Event::at(wd, mask, cookie, name, path, timestamp)
    }

    /// An event taken at `timestamp`.
    pub fn at(
        wd: i32,
        mask: EventMask,
        cookie: u32,
        name: Option<String>,
        path: String,
        timestamp: Timestamp,
    ) -> (r: Self)
        ensures
            r == (Event { wd, mask, cookie, name, path, timestamp }),
    {
        Event { wd, mask, cookie, name, path, timestamp }
    }

    /// The path that an event of the watch on `watch_path` is about: the
    /// entry `name` of the directory, or the watched path itself.
    pub open spec fn resolved(watch_path: Seq<char>, name: Option<String>) -> Seq<char> {
        match name {
            Some(n) => joined(watch_path, n@),
            None => watch_path,
        }
    }

    /// The event that the source reported for the watch `wd` on `watch_path`
    /// with the mask bits `raw`, taken now.
    pub fn from_inotify_event(
        wd: i32,
        raw: u32,
        cookie: u32,
        name: Option<String>,
        watch_path: String,
    ) -> (r: Result<Self, InotifyToolsError>)
        ensures
            r matches Ok(e) && e.wd == wd && e.mask@ == raw & ALL_FLAGS && e.cookie == cookie
                && e.name == name && e.path@ == Self::resolved(watch_path@, name),
    {
        let mask = EventMask::from_inotify_event_mask(raw);
        let path = match &name {
            Some(n) => join(watch_path.as_str(), n.as_str()),
            None => watch_path,
        };
        Ok(Event::new(wd, mask, cookie, name, path))
    }

    /// Whether the event is about a directory.
    pub fn is_dir(&self) -> (r: bool)
        ensures
            r == overlaps(self.mask@, ISDIR),
    {
        self.mask.contains(EventMask::isdir())
    }

    /// The names of the kinds of the event, in canonical order; `UNKNOWN`
    /// alone where it has no kind with a name.
    pub fn event_type_str(&self) -> (r: Vec<&'static str>)
        ensures
            r.len() == type_names(self.mask@).len(),
            forall|i: int| 0 <= i < r.len() ==> (#[trigger] r[i])@ == type_names(self.mask@)[i],
    {
        let mut types: Vec<&'static str> = Vec::new();
        let mut k: usize = 0;
        while k < KINDS
            invariant
                k <= KINDS,
                types.len() == names_upto(self.mask@, k as int).len(),
                forall|i: int|
                    0 <= i < types.len() ==> (#[trigger] types[i])@ == names_upto(
                        self.mask@,
                        k as int,
                    )[i],
            decreases KINDS - k,
        {
            if self.mask.0 & kind_bit_of(k) != 0 {
                types.push(kind_name_of(k));
            }
            k += 1;
        }
        if types.len() == 0 {
            types.push("UNKNOWN");
        }
        types
    }
}

/// The names that `event_type_str` gives for the set `mask`.
pub open spec fn type_names(mask: u32) -> Seq<Seq<char>> {
    if kind_names(mask).len() == 0 {
        seq!["UNKNOWN"@]
    } else {
        kind_names(mask)
    }
}

/// The set that the list `event_str` of names stands for, the names separated
/// by commas.
pub fn str_to_events(event_str: &str) -> (r: Result<EventMask, InotifyToolsError>)
    ensures
        match parse_kind_list(event_str@, ',') {
            Ok(bits) => r matches Ok(m) && m@ == bits,
            Err(bad) => r matches Err(InotifyToolsError::InvalidEventString(name)) && name@ == bad,
        },
{
    str_to_events_sep(event_str, ',')
}

/// The set that the list `event_str` of names stands for, the names separated
/// by `sep`. Each part is looked up without the white space round it and in
/// upper case; the first part that is no name is the error.
pub fn str_to_events_sep(event_str: &str, sep: char) -> (r: Result<EventMask, InotifyToolsError>)
    ensures
        match parse_kind_list(event_str@, sep) {
            Ok(bits) => r matches Ok(m) && m@ == bits,
            Err(bad) => r matches Err(InotifyToolsError::InvalidEventString(name)) && name@ == bad,
        },
{
    let chars = chars_of(event_str);
    if chars.len() == 0 {
        return Ok(EventMask(0));
    }
    let ranges = split_ranges(&chars, sep);
    let ghost parts = split(chars@, sep);
    let mut result: u32 = 0;
    let mut j: usize = 0;
    assert(parts.take(0) == Seq::<Seq<char>>::empty());
    while j < ranges.len()
        invariant
            j <= ranges.len() == parts.len(),
            chars@ == event_str@,
            chars.len() > 0,
            parts == split(chars@, sep),
            forall|i: int|
                0 <= i < ranges.len() ==> (#[trigger] ranges[i]).0 <= ranges[i].1 <= chars.len()
                    && chars@.subrange(ranges[i].0 as int, ranges[i].1 as int) == parts[i],
            parse_parts(parts.take(j as int)) == Ok::<u32, Seq<char>>(result),
        decreases ranges.len() - j,
    {
        let (from, to) = ranges[j];
        let (a, b) = trim_range(&chars, from, to);
        let part = text_of(&chars, a, b);
        let name = to_upper(part.as_str());
        assert(name@ == normalized(parts[j as int]));
        assert(parts.take(j + 1).drop_last() == parts.take(j as int));
        assert(parts.take(j + 1).last() == parts[j as int]);
        match kind_from_name(name.as_str()) {
            Some(m) => {
                result = result | m.0;
            },
            None => {
                proof {
                    lemma_parse_error_stays(parts, j + 1);
                }
                return Err(InotifyToolsError::InvalidEventString(name));
            },
        }
        j += 1;
    }
    assert(parts.take(j as int) == parts);
    Ok(EventMask(result))
}

/// The names of the kinds in `events`, with commas between them.
pub fn events_to_str(events: EventMask) -> (r: String)
    ensures
        r@ == kind_list_text(events@, ','),
{
    events_to_str_sep(events, ',')
}

/// The names of the kinds in `events`, in canonical order, with `sep` between
/// them; `NONE` where it holds no kind with a name.
pub fn events_to_str_sep(events: EventMask, sep: char) -> (r: String)
    ensures
        r@ == kind_list_text(events@, sep),
{
    let mut out = String::new();
    let mut any = false;
    let mut k: usize = 0;
    while k < KINDS
        invariant
            k <= KINDS,
            any == (names_upto(events@, k as int).len() > 0),
            out@ == join_names(names_upto(events@, k as int), sep),
        decreases KINDS - k,
    {
        if events.0 & kind_bit_of(k) != 0 {
            let ghost names = names_upto(events@, k as int);
            let name = kind_name_of(k);
            assert(names.push(name@).drop_last() == names);
            if any {
                out.push(sep);
            } else {
                assert(out@ + name@ == name@);
            }
            out.append(name);
            any = true;
        }
        k += 1;
    }
    if any {
        out
    } else {
        String::from_str("NONE")
    }
}

} // verus!
