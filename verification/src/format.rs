//! How events and statistics are written out: an event by a template, a line
//! of comma-separated values or the default line; statistics as a table or
//! as comma-separated values.

use std::fmt::Write;
use vstd::prelude::*;
use vstd::string::StringExecFns;
use crate::error::InotifyToolsError;
use crate::event::{type_names, Event, EventMask};
use crate::kinds::join_names;
use crate::path::{file_name, file_name_of, parent, parent_of};
use crate::kinds::KINDS;
use crate::stats::{lists_sorted, FileStatistics, FileTally, Statistics};
use crate::text::{
    chars_of, decimal, pad_left, pad_right, push_decimal, push_left_aligned, push_repeated,
    push_right_aligned, push_signed_decimal, repeated, signed_decimal,
};

verus! {

/// What the directives of a template stand for.
pub struct Directives {
    /// `%w`: the identifier of the watch.
    pub watch: Seq<char>,
    /// `%f`: the base name.
    pub file: Seq<char>,
    /// `%F`: the full path.
    pub path: Seq<char>,
    /// `%e`: the names of the kinds, with commas between them.
    pub kinds: Seq<char>,
    /// `%Xe`: the name of the first kind.
    pub first_kind: Seq<char>,
    /// `%c`: the cookie.
    pub cookie: Seq<char>,
    /// `%T`: the time.
    pub time: Seq<char>,
}

/// What `%` and the character `c` stand for: a directive, a percent sign for
/// `%%`, and for any other character the two as they are.
pub open spec fn directive(c: char, d: Directives) -> Seq<char> {
    if c == 'w' {
        d.watch
    } else if c == 'f' {
        d.file
    } else if c == 'F' {
        d.path
    } else if c == 'e' {
        d.kinds
    } else if c == 'c' {
        d.cookie
    } else if c == 'T' {
        d.time
    } else if c == '%' {
        seq!['%']
    } else {
        seq!['%', c]
    }
}

/// The template from its `i`-th character on, with what its directives stand
/// for in their place.
pub open spec fn expand_from(t: Seq<char>, i: int, d: Directives) -> Seq<char>
    decreases t.len() - i,
{
    if i < 0 || i >= t.len() {
        Seq::empty()
    } else if t[i] != '%' {
        seq![t[i]] + expand_from(t, i + 1, d)
    } else if i + 1 >= t.len() {
        seq!['%']
    } else if t[i + 1] == 'X' {
        if i + 2 < t.len() && t[i + 2] == 'e' {
            d.first_kind + expand_from(t, i + 3, d)
        } else {
            seq!['%', 'X'] + expand_from(t, i + 2, d)
        }
    } else {
        directive(t[i + 1], d) + expand_from(t, i + 2, d)
    }
}

/// The template with what its directives stand for in their place.
pub open spec fn expand(t: Seq<char>, d: Directives) -> Seq<char> {
    expand_from(t, 0, d)
}

/// Whether the template, from its `i`-th character on, holds the directive
/// `%T`.
pub open spec fn asks_time_from(t: Seq<char>, i: int) -> bool
    decreases t.len() - i,
{
    if i < 0 || i + 1 >= t.len() {
        false
    } else if t[i] != '%' {
        asks_time_from(t, i + 1)
    } else if t[i + 1] == 'X' {
        if i + 2 < t.len() && t[i + 2] == 'e' {
            asks_time_from(t, i + 3)
        } else {
            asks_time_from(t, i + 2)
        }
    } else {
        t[i + 1] == 'T' || asks_time_from(t, i + 2)
    }
}

/// Whether the template holds the directive `%T`.
pub open spec fn asks_time(t: Seq<char>) -> bool {
    asks_time_from(t, 0)
}

/// The base name of an event: the name of the entry that it is about, else
/// the last component of its path, else nothing.
pub open spec fn base_name(e: Event) -> Seq<char> {
    match e.name {
        Some(n) => n@,
        None => match file_name_of(e.path@) {
            Some(f) => f,
            None => Seq::empty(),
        },
    }
}

/// The directory of an event: its path without the last component, else
/// nothing.
pub open spec fn dir_name(e: Event) -> Seq<char> {
    match parent_of(e.path@) {
        Some(p) => p,
        None => Seq::empty(),
    }
}

/// The names of the kinds `mask`, with commas between them.
pub open spec fn kinds_text(mask: u32) -> Seq<char> {
    join_names(type_names(mask), ',')
}

/// What the directives stand for in the event `e`, shown at the time `time`.
pub open spec fn directives(e: Event, time: Seq<char>) -> Directives {
    Directives {
        watch: signed_decimal(e.wd as int),
        file: base_name(e),
        path: e.path@,
        kinds: kinds_text(e.mask@),
        first_kind: type_names(e.mask@)[0],
        cookie: decimal(e.cookie as nat),
        time,
    }
}

/// Appends the parts to `out`, with `sep` between each two of them.
fn push_joined(out: &mut String, parts: &Vec<&'static str>, sep: char, Ghost(names): Ghost<
    Seq<Seq<char>>,
>)
    requires
        parts.len() == names.len(),
        forall|i: int| 0 <= i < parts.len() ==> (#[trigger] parts[i])@ == names[i],
    ensures
        final(out)@ == old(out)@ + join_names(names, sep),
{
    let mut i: usize = 0;
    assert(names.take(0) == Seq::<Seq<char>>::empty());
    assert(out@ + Seq::<char>::empty() == out@);
    while i < parts.len()
        invariant
            i <= parts.len() == names.len(),
            forall|i: int| 0 <= i < parts.len() ==> (#[trigger] parts[i])@ == names[i],
            out@ == old(out)@ + join_names(names.take(i as int), sep),
        decreases parts.len() - i,
    {
        let ghost done = names.take(i as int);
        assert(names.take(i + 1).drop_last() == done);
        assert(names.take(i + 1).last() == names[i as int]);
        if i > 0 {
            out.push(sep);
            assert((old(out)@ + join_names(done, sep)).push(sep) + names[i as int] == old(out)@ + (
            join_names(done, sep).push(sep) + names[i as int]));
        } else {
            assert(join_names(done, sep) == Seq::<char>::empty());
            assert(old(out)@ + Seq::<char>::empty() + names[i as int] == old(out)@
                + names[i as int]);
        }
        out.append(parts[i]);
        i += 1;
    }
    assert(names.take(i as int) == names);
}

/// Appends the base name of the event to `out`.
fn push_base_name(out: &mut String, event: &Event)
    ensures
        final(out)@ == old(out)@ + base_name(*event),
{
    match &event.name {
        Some(name) => {
            out.append(name.as_str());
        },
        None => {
            match file_name(event.path.as_str()) {
                Some(f) => {
                    out.append(f.as_str());
                },
                None => {
                    assert(out@ + Seq::<char>::empty() == out@);
                },
            }
        },
    }
}

/// Appends the directory of the event to `out`.
fn push_dir_name(out: &mut String, event: &Event)
    ensures
        final(out)@ == old(out)@ + dir_name(*event),
{
    match parent(event.path.as_str()) {
        Some(p) => {
            out.append(p.as_str());
        },
        None => {
            assert(out@ + Seq::<char>::empty() == out@);
        },
    }
}

/// Appends the names of the kinds of the event to `out`, with commas between
/// them.
fn push_kinds(out: &mut String, event: &Event)
    ensures
        final(out)@ == old(out)@ + kinds_text(event.mask@),
{
    let types = event.event_type_str();
    push_joined(out, &types, ',', Ghost(type_names(event.mask@)));
}

/// The event written by the template `format_str`, with `time` for `%T`.
pub fn render_event(event: &Event, format_str: &str, time: &str) -> (r: String)
    ensures
        r@ == expand(format_str@, directives(*event, time@)),
{
    let t = chars_of(format_str);
    let ghost d = directives(*event, time@);
    let mut out = String::new();
    let mut i: usize = 0;
    assert(out@ + expand_from(t@, 0, d) == expand_from(t@, 0, d));
    while i < t.len()
        invariant
            i <= t.len(),
            d == directives(*event, time@),
            out@ + expand_from(t@, i as int, d) == expand_from(t@, 0, d),
        decreases t.len() - i,
    {
        let ghost before = out@;
        let ghost rest = expand_from(t@, i as int, d);
        let ch = t[i];
        if ch != '%' {
            out.push(ch);
            assert(before.push(ch) + expand_from(t@, i + 1, d) == before + rest);
            i += 1;
        } else if i + 1 == t.len() {
            out.push('%');
            assert(before.push('%') + expand_from(t@, i + 1, d) == before + rest);
            i += 1;
        } else {
            let next = t[i + 1];
            let mut used: usize = 2;
            if next == 'w' {
                push_signed_decimal(&mut out, event.wd as i64);
            } else if next == 'f' {
                push_base_name(&mut out, event);
            } else if next == 'F' {
                out.append(event.path.as_str());
            } else if next == 'e' {
                push_kinds(&mut out, event);
            } else if next == 'X' {
                if i + 2 < t.len() && t[i + 2] == 'e' {
                    let types = event.event_type_str();
                    out.append(types[0]);
                    used = 3;
                } else {
                    out.push('%');
                    out.push('X');
                    assert(before.push('%').push('X') == before + seq!['%', 'X']);
                }
            } else if next == 'c' {
                push_decimal(&mut out, event.cookie as u64);
            } else if next == 'T' {
                out.append(time);
            } else if next == '%' {
                out.push('%');
                assert(before.push('%') == before + seq!['%']);
            } else {
                out.push('%');
                out.push(next);
                assert(before.push('%').push(next) == before + seq!['%', next]);
            }
            let ghost piece = out@.skip(before.len() as int);
            assert(out@ == before + piece);
            assert(rest == piece + expand_from(t@, i + used, d));
            assert(before + piece + expand_from(t@, i + used, d) == before + (piece + expand_from(
                t@,
                i + used,
                d,
            )));
            i += used;
        }
    }
    assert(out@ + Seq::<char>::empty() == out@);
    out
}

/// Whether the template `format_str` holds the directive `%T`.
pub fn template_asks_time(format_str: &str) -> (r: bool)
    ensures
        r == asks_time(format_str@),
{
    let t = chars_of(format_str);
    let mut i: usize = 0;
    while t.len() - i > 1
        invariant
            i <= t.len(),
            t@ == format_str@,
            asks_time_from(t@, i as int) == asks_time_from(t@, 0),
        decreases t.len() - i,
    {
        if t[i] != '%' {
            i += 1;
        } else if t[i + 1] == 'X' {
            if i + 2 < t.len() && t[i + 2] == 'e' {
                i += 3;
            } else {
                i += 2;
            }
        } else if t[i + 1] == 'T' {
            return true;
        } else {
            i += 2;
        }
    }
    false
}

/// The last second of the year 9999, in seconds since the start of 1970:
/// later times are not shown.
pub const LAST_SECOND: u64 = 253_402_300_799;

/// `chrono`: the time `secs` seconds and `nanos` nanoseconds after the start
/// of 1970, in the time zone of the machine (`DateTime::from_timestamp`,
/// `with_timezone(&Local)`), written by the `strftime` pattern `pattern`
/// (`DateTime::format`); `None` where there is no such time or the pattern
/// holds what `chrono` does not know. The zone is the machine's: nothing is
/// claimed of the text.
#[verifier::external_body]
fn local_time_text(secs: u64, nanos: u32, pattern: &str) -> (r: Option<String>)
    requires
        secs <= LAST_SECOND,
{
    let utc = chrono::DateTime::from_timestamp(i64::try_from(secs).ok()?, nanos)?;
    let local = utc.with_timezone(&chrono::Local);
    let mut out = String::new();
    match write!(out, "{}", local.format(pattern)) {
        Ok(()) => Some(out),
        Err(_) => None,
    }
}

/// Writes events out.
pub struct EventFormatter {
    time_format: Option<String>,
}

impl View for EventFormatter {
    type V = Option<Seq<char>>;

    /// The `strftime` pattern that was set for `%T`, if one was.
    closed spec fn view(&self) -> Option<Seq<char>> {
        match self.time_format {
            Some(p) => Some(p@),
            None => None,
        }
    }
}

/// The line of comma-separated values for an event: directory, base name
/// and kinds.
pub open spec fn csv_line(e: Event) -> Seq<char> {
    dir_name(e) + seq![','] + base_name(e) + seq![','] + kinds_text(e.mask@)
}

/// The default line for an event: directory, kinds and base name.
pub open spec fn default_line(e: Event) -> Seq<char> {
    dir_name(e) + seq![' '] + kinds_text(e.mask@) + seq![' '] + base_name(e)
}

impl EventFormatter {
    /// The pattern by which `%T` is written.
    pub open spec fn pattern(&self) -> Seq<char> {
        match self@ {
            Some(p) => p,
            None => "%Y-%m-%d %H:%M:%S"@,
        }
    }

    /// A formatter that writes the time by the default pattern.
    pub fn new() -> (r: Self)
        ensures
            r@ is None,
    {
        EventFormatter { time_format: None }
    }

    /// Sets the `strftime` pattern by which `%T` is written.
    pub fn set_time_format(&mut self, format: String)
        ensures
            final(self)@ == Some(format@),
    {
        self.time_format = Some(format);
    }

    /// Goes back to the default pattern for `%T`.
    pub fn clear_time_format(&mut self)
        ensures
            final(self)@ is None,
    {
        self.time_format = None;
    }

    /// The event written by the template `format_str`. In a template without
    /// `%T` nothing can fail; with `%T` the time is written in the time zone
    /// of the machine, and the error says that this cannot be done with the
    /// pattern that was set.
    pub fn format_event(&self, event: &Event, format_str: &str) -> (r: Result<
        String,
        InotifyToolsError,
    >)
        ensures
            !asks_time(format_str@) ==> (r matches Ok(s) && s@ == expand(
                format_str@,
                directives(*event, Seq::empty()),
            )),
            r matches Ok(s) ==> exists|time: Seq<char>|
                s@ == expand(format_str@, #[trigger] directives(*event, time)),
            r matches Err(e) ==> (e matches InotifyToolsError::TimeFormat(p) && p@
                == self.pattern()),
    {
        if !template_asks_time(format_str) {
            let s = render_event(event, format_str, "");
            proof {
                reveal_strlit("");
                assert(""@ =~= Seq::<char>::empty());
                assert(s@ == expand(format_str@, directives(*event, Seq::empty())));
            }
            return Ok(s);
        }
        let pattern: String = match &self.time_format {
            Some(p) => p.clone(),
            None => String::from_str("%Y-%m-%d %H:%M:%S"),
        };
        if event.timestamp.secs > LAST_SECOND {
            return Err(InotifyToolsError::TimeFormat(pattern));
        }
        match local_time_text(event.timestamp.secs, event.timestamp.nanos, pattern.as_str()) {
            Some(time) => {
                let s = render_event(event, format_str, time.as_str());
                assert(s@ == expand(format_str@, directives(*event, time@)));
                Ok(s)
            },
            None => Err(InotifyToolsError::TimeFormat(pattern)),
        }
    }

    /// The event as a line of comma-separated values.
    pub fn format_csv(&self, event: &Event) -> (r: String)
        ensures
            r@ == csv_line(*event),
    {
        let mut out = String::new();
        push_dir_name(&mut out, event);
        out.push(',');
        push_base_name(&mut out, event);
        out.push(',');
        push_kinds(&mut out, event);
        assert(out@ =~= csv_line(*event));
        out
    }

    /// The event as the default line.
    pub fn format_default(&self, event: &Event) -> (r: String)
        ensures
            r@ == default_line(*event),
    {
        let mut out = String::new();
        push_dir_name(&mut out, event);
        out.push(' ');
        push_kinds(&mut out, event);
        out.push(' ');
        push_base_name(&mut out, event);
        assert(out@ =~= default_line(*event));
        out
    }
}

impl Default for EventFormatter {
    fn default() -> (r: Self)
        ensures
            r@ is None,
    {
        EventFormatter::new()
    }
}

/// The first `k` counters, a comma before each.
pub open spec fn csv_cells(counts: Seq<nat>, k: int) -> Seq<char>
    decreases k,
{
    if k <= 0 {
        Seq::empty()
    } else {
        csv_cells(counts, k - 1) + seq![','] + decimal(counts[k - 1])
    }
}

/// The statistics `file` as comma-separated values under the path `path`:
/// the path, the counters by kind in canonical order, and the total.
pub open spec fn csv_row(path: Seq<char>, file: FileTally) -> Seq<char> {
    path + csv_cells(file.counts, KINDS as int) + seq![','] + decimal(file.total)
}

/// Writes statistics as comma-separated values.
pub struct CsvFormatter;

impl CsvFormatter {
    /// The statistics of one path as comma-separated values, under the path
    /// `path`.
    pub fn format_file_stats(path: &str, stats: &FileStatistics) -> (r: String)
        ensures
            r@ == csv_row(path@, stats@),
    {
        let mut out = String::from_str(path);
        let counts = stats.count_list();
        let mut k: usize = 0;
        assert(out@ + Seq::<char>::empty() == out@);
        while k < KINDS
            invariant
                k <= KINDS == counts.len(),
                forall|k: int| 0 <= k < KINDS ==> (#[trigger] counts[k]) as nat == stats.counts()[k],
                out@ == path@ + csv_cells(stats.counts(), k as int),
            decreases KINDS - k,
        {
            let ghost before = csv_cells(stats.counts(), k as int);
            out.push(',');
            push_decimal(&mut out, counts[k]);
            assert((path@ + before).push(',') + decimal(counts[k as int] as nat) == path@ + (before
                + seq![','] + decimal(counts[k as int] as nat)));
            k += 1;
        }
        out.push(',');
        push_decimal(&mut out, stats.total);
        assert(out@ =~= csv_row(path@, stats@));
        out
    }

    /// The names of the columns of `format_file_stats`.
    pub fn file_stats_header() -> (r: &'static str)
        ensures
            r@
                == "filename,access,modify,attrib,close_write,close_nowrite,open,moved_from,moved_to,create,delete,delete_self,move_self,unmount,total"@,
    {
        "filename,access,modify,attrib,close_write,close_nowrite,open,moved_from,moved_to,create,delete,delete_self,move_self,unmount,total"
    }
}

/// The width of the first column of the table.
pub const NAME_WIDTH: usize = 30;

/// The width of each other column of the table.
pub const CELL_WIDTH: usize = 8;

/// The length of the rules of the table.
pub const RULE_WIDTH: usize = 150;

/// The heading of the column of the `k`-th kind.
pub open spec fn heading(k: int) -> Seq<char> {
    if k == 0 {
        "access"@
    } else if k == 1 {
        "modify"@
    } else if k == 2 {
        "attrib"@
    } else if k == 3 {
        "close_w"@
    } else if k == 4 {
        "close_nw"@
    } else if k == 5 {
        "open"@
    } else if k == 6 {
        "move_fr"@
    } else if k == 7 {
        "move_to"@
    } else if k == 8 {
        "create"@
    } else if k == 9 {
        "delete"@
    } else if k == 10 {
        "del_slf"@
    } else if k == 11 {
        "move_slf"@
    } else {
        "unmount"@
    }
}

fn heading_of(k: usize) -> (r: &'static str)
    requires
        k < KINDS,
    ensures
        r@ == heading(k as int),
{
    if k == 0 {
        "access"
    } else if k == 1 {
        "modify"
    } else if k == 2 {
        "attrib"
    } else if k == 3 {
        "close_w"
    } else if k == 4 {
        "close_nw"
    } else if k == 5 {
        "open"
    } else if k == 6 {
        "move_fr"
    } else if k == 7 {
        "move_to"
    } else if k == 8 {
        "create"
    } else if k == 9 {
        "delete"
    } else if k == 10 {
        "del_slf"
    } else if k == 11 {
        "move_slf"
    } else {
        "unmount"
    }
}

/// One cell: a space, and the text right-aligned in its column.
pub open spec fn cell(text: Seq<char>) -> Seq<char> {
    seq![' '] + pad_left(text, CELL_WIDTH as nat)
}

/// A count as it is shown: in decimal, or not at all where it is zero and
/// zeros are left out.
pub open spec fn shown_count(n: nat, show_zeros: bool) -> Seq<char> {
    if show_zeros || n > 0 {
        decimal(n)
    } else {
        Seq::empty()
    }
}

/// The headings of the first `k` kinds, as cells.
pub open spec fn heading_cells(k: int) -> Seq<char>
    decreases k,
{
    if k <= 0 {
        Seq::empty()
    } else {
        heading_cells(k - 1) + cell(heading(k - 1))
    }
}

/// The first `k` counters, as cells.
pub open spec fn count_cells(counts: Seq<nat>, show_zeros: bool, k: int) -> Seq<char>
    decreases k,
{
    if k <= 0 {
        Seq::empty()
    } else {
        count_cells(counts, show_zeros, k - 1) + cell(shown_count(counts[k - 1], show_zeros))
    }
}

/// The first line of the table.
pub open spec fn header_line() -> Seq<char> {
    pad_right("filename"@, NAME_WIDTH as nat) + heading_cells(KINDS as int) + cell("total"@) + seq![
        '\n',
    ]
}

/// A line of dashes.
pub open spec fn rule_line() -> Seq<char> {
    repeated('-', RULE_WIDTH as nat) + seq!['\n']
}

/// A line of the table: a name, the counters by kind and the total.
pub open spec fn count_line(name: Seq<char>, counts: Seq<nat>, total: nat, show_zeros: bool) -> Seq<
    char,
> {
    pad_right(name, NAME_WIDTH as nat) + count_cells(counts, show_zeros, KINDS as int) + cell(
        shown_count(total, show_zeros),
    ) + seq!['\n']
}

/// The name under which a path is listed: its last component, or the path
/// itself where it has none.
pub open spec fn shown_name(path: Seq<char>) -> Seq<char> {
    match file_name_of(path) {
        Some(f) => f,
        None => path,
    }
}

/// The lines for the paths `files`; where zeros are left out, a path
/// without events has no line.
pub open spec fn file_lines(files: Seq<FileTally>, show_zeros: bool) -> Seq<char>
    decreases files.len(),
{
    if files.len() == 0 {
        Seq::empty()
    } else {
        let file = files.last();
        file_lines(files.drop_last(), show_zeros) + if !show_zeros && file.total == 0 {
            Seq::empty()
        } else {
            count_line(shown_name(file.path), file.counts, file.total, show_zeros)
        }
    }
}

/// The table: the headings, a line for each of `files`, and the counters for
/// all paths, which are `totals` and `events`.
pub open spec fn table(files: Seq<FileTally>, totals: Seq<nat>, events: nat, show_zeros: bool) -> Seq<
    char,
> {
    header_line() + rule_line() + file_lines(files, show_zeros) + rule_line() + count_line(
        "total"@,
        totals,
        events,
        true,
    )
}

/// The keys by which the table is sorted: the counts of the events of the
/// kinds `sort_by`, or the totals where no kinds are given.
pub open spec fn sort_keys(stats: Statistics, sort_by: Option<EventMask>) -> Seq<u64> {
    match sort_by {
        Some(mask) => stats.count_keys(mask@),
        None => stats.total_keys(),
    }
}

/// Appends one cell with `text` to `out`.
fn push_cell(out: &mut String, text: &str)
    ensures
        final(out)@ == old(out)@ + cell(text@),
{
    out.push(' ');
    push_right_aligned(out, text, CELL_WIDTH);
    assert(old(out)@.push(' ') + pad_left(text@, CELL_WIDTH as nat) == old(out)@ + cell(text@));
}

/// Appends one cell with the count `n` to `out`.
fn push_count_cell(out: &mut String, n: u64, show_zeros: bool)
    ensures
        final(out)@ == old(out)@ + cell(shown_count(n as nat, show_zeros)),
{
    let mut text = String::new();
    if show_zeros || n > 0 {
        push_decimal(&mut text, n);
        assert(Seq::<char>::empty() + decimal(n as nat) == decimal(n as nat));
    }
    push_cell(out, text.as_str());
}

/// Appends one line of the table to `out`.
fn push_count_line(
    out: &mut String,
    name: &str,
    counts: &Vec<u64>,
    total: u64,
    show_zeros: bool,
    Ghost(tally): Ghost<Seq<nat>>,
)
    requires
        counts.len() == KINDS,
        forall|k: int| 0 <= k < KINDS ==> (#[trigger] counts[k]) as nat == tally[k],
    ensures
        final(out)@ == old(out)@ + count_line(name@, tally, total as nat, show_zeros),
{
    push_left_aligned(out, name, NAME_WIDTH);
    let ghost start = out@;
    let mut k: usize = 0;
    assert(out@ + Seq::<char>::empty() == out@);
    while k < KINDS
        invariant
            k <= KINDS == counts.len(),
            forall|k: int| 0 <= k < KINDS ==> (#[trigger] counts[k]) as nat == tally[k],
            out@ == start + count_cells(tally, show_zeros, k as int),
        decreases KINDS - k,
    {
        let ghost before = count_cells(tally, show_zeros, k as int);
        push_count_cell(out, counts[k], show_zeros);
        assert(start + before + cell(shown_count(tally[k as int], show_zeros)) == start + (before
            + cell(shown_count(tally[k as int], show_zeros))));
        k += 1;
    }
    push_count_cell(out, total, show_zeros);
    out.push('\n');
    assert(out@ =~= old(out)@ + count_line(name@, tally, total as nat, show_zeros));
}

/// Writes statistics as a table.
pub struct TableFormatter;

impl TableFormatter {
    /// The statistics as a table: a line for each path, sorted by the count
    /// of the events of the kinds `sort_by`, or by the total where no kinds
    /// are given, and a line with the counters for all paths. Where
    /// `show_zeros` does not hold, a count of zero is left blank and a path
    /// without events is left out.
    pub fn format_stats_table(
        stats: &Statistics,
        sort_by: Option<EventMask>,
        ascending: bool,
        show_zeros: bool,
    ) -> (r: String)
        requires
            sort_by matches Some(mask) ==> forall|i: int|
                0 <= i < stats.file_stats.len() ==> crate::kinds::selected_total(
                    (#[trigger] stats.file_stats[i]).counts(),
                    mask@,
                ) <= u64::MAX,
        ensures
            exists|listed: Seq<&FileStatistics>|
                {
                    &&& #[trigger] lists_sorted(
                        listed,
                        stats.file_stats@,
                        sort_keys(*stats, sort_by),
                        ascending,
                    )
                    &&& r@ == table(
                        listed.map_values(|f: &FileStatistics| f@),
                        stats.totals(),
                        stats.total_events as nat,
                        show_zeros,
                    )
                },
    {
        let mut out = String::new();
        push_left_aligned(&mut out, "filename", NAME_WIDTH);
        let mut k: usize = 0;
        assert(out@ + Seq::<char>::empty() == out@);
        while k < KINDS
            invariant
                k <= KINDS,
                out@ == pad_right("filename"@, NAME_WIDTH as nat) + heading_cells(k as int),
            decreases KINDS - k,
        {
            let ghost before = heading_cells(k as int);
            push_cell(&mut out, heading_of(k));
            assert(pad_right("filename"@, NAME_WIDTH as nat) + before + cell(heading(k as int))
                == pad_right("filename"@, NAME_WIDTH as nat) + (before + cell(heading(k as int))));
            k += 1;
        }
        push_cell(&mut out, "total");
        out.push('\n');
        assert(out@ =~= header_line());
        push_repeated(&mut out, '-', RULE_WIDTH);
        out.push('\n');
        assert(out@ =~= header_line() + rule_line());
        let file_stats = match sort_by {
            Some(mask) => stats.get_sorted_file_stats_by_event(mask, ascending),
            None => stats.get_sorted_file_stats(ascending),
        };
        let ghost files = file_stats@.map_values(|f: &FileStatistics| f@);
        let mut i: usize = 0;
        assert(files.take(0) == Seq::<FileTally>::empty());
        assert(out@ + Seq::<char>::empty() == out@);
        while i < file_stats.len()
            invariant
                i <= file_stats.len(),
                files == file_stats@.map_values(|f: &FileStatistics| f@),
                out@ == header_line() + rule_line() + file_lines(files.take(i as int), show_zeros),
            decreases file_stats.len() - i,
        {
            let file_stat = file_stats[i];
            let ghost before = file_lines(files.take(i as int), show_zeros);
            assert(files.take(i + 1).drop_last() == files.take(i as int));
            assert(files.take(i + 1).last() == file_stat@);
            if !show_zeros && file_stat.total == 0 {
                assert(before + Seq::<char>::empty() == before);
            } else {
                let counts = file_stat.count_list();
                let ghost line = count_line(
                    shown_name(file_stat.path@),
                    file_stat.counts(),
                    file_stat.total as nat,
                    show_zeros,
                );
                match file_name(file_stat.path.as_str()) {
                    Some(name) => {
                        push_count_line(
                            &mut out,
                            name.as_str(),
                            &counts,
                            file_stat.total,
                            show_zeros,
                            Ghost(file_stat.counts()),
                        );
                    },
                    None => {
                        push_count_line(
                            &mut out,
                            file_stat.path.as_str(),
                            &counts,
                            file_stat.total,
                            show_zeros,
                            Ghost(file_stat.counts()),
                        );
                    },
                }
                assert(header_line() + rule_line() + before + line == header_line() + rule_line()
                    + (before + line));
            }
            i += 1;
        }
        assert(files.take(i as int) == files);
        push_repeated(&mut out, '-', RULE_WIDTH);
        out.push('\n');
        let totals = stats.total_list();
        push_count_line(
            &mut out,
            "total",
            &totals,
            stats.total_events,
            true,
            Ghost(stats.totals()),
        );
        assert(out@ =~= table(files, stats.totals(), stats.total_events as nat, show_zeros));
        assert(lists_sorted(file_stats@, stats.file_stats@, sort_keys(*stats, sort_by), ascending));
        out
    }
}

} // verus!
