//! What the command-line programs decide between reading their arguments and
//! writing their output.

use vstd::prelude::*;
use crate::error::InotifyToolsError;
use crate::event::{
    overlaps, Event, EventMask, ACCESS, ALL_EVENTS, ATTRIB, CLOSE, CLOSE_NOWRITE, CLOSE_WRITE,
    CREATE, DELETE, DELETE_SELF, MODIFY, MOVE, MOVED_FROM, MOVED_TO, MOVE_SELF, OPEN, UNMOUNT,
};
use crate::format::{
    asks_time, csv_line, default_line, directives, expand, EventFormatter,
};
use crate::text::{chars_of, lowercase, str_equal, text_of, to_lower, trim_range, trimmed};

verus! {

/// The exit code of a run that ended as it should.
pub const EXIT_SUCCESS: i32 = 0;

/// The exit code of a run that failed.
pub const EXIT_FAILURE: i32 = 1;

/// The exit code of a run that waited in vain.
pub const EXIT_TIMEOUT: i32 = 2;

/// The kinds that a watched tree is kept in step by.
pub const TREE_EVENTS: u32 = 0x0000_01c0;

/// The kinds to listen for: those asked for, or all where none was asked
/// for.
pub fn effective_events(requested: EventMask) -> (r: EventMask)
    ensures
        r@ == if requested@ == 0 {
            ALL_EVENTS
        } else {
            requested@
        },
{
    if requested.mask() == 0 {
        EventMask(ALL_EVENTS)
    } else {
        requested
    }
}

/// The kinds to watch a tree for: `events`, and `CREATE`, `MOVED_TO` and
/// `MOVED_FROM`, which tell of the changes of the tree.
pub fn tree_events(events: EventMask) -> (r: EventMask)
    ensures
        r@ == events@ | TREE_EVENTS,
        TREE_EVENTS == CREATE | MOVED_TO | MOVED_FROM,
{
    assert(0x1c0u32 == 0x100u32 | 0x80u32 | 0x40u32) by (bit_vector);
    EventMask(events.0 | TREE_EVENTS)
}

/// The time to wait, in seconds: none where `secs` is zero.
pub fn timeout_of(secs: u64) -> (r: Option<u64>)
    ensures
        r == if secs == 0 {
            None
        } else {
            Some(secs)
        },
{
    if secs == 0 {
        None
    } else {
        Some(secs)
    }
}

/// The path that a line of a list of paths names: the line without the white
/// space round it, unless nothing is left or it begins with `#`.
pub open spec fn path_in_line(line: Seq<char>) -> Option<Seq<char>> {
    let path = trimmed(line);
    if path.len() == 0 || path[0] == '#' {
        None
    } else {
        Some(path)
    }
}

/// The path that a line of a list of paths names, if it names one.
pub fn path_of_line(line: &str) -> (r: Option<String>)
    ensures
        r is Some <==> path_in_line(line@) is Some,
        r matches Some(p) ==> path_in_line(line@) == Some(p@),
{
    let chars = chars_of(line);
    let (a, b) = trim_range(&chars, 0, chars.len());
    assert(chars@.subrange(0, chars.len() as int) == chars@);
    if a == b {
        return None;
    }
    assert(chars@.subrange(a as int, b as int)[0] == chars@[a as int]);
    if chars[a] == '#' {
        return None;
    }
    Some(text_of(&chars, a, b))
}

/// The line that is written for an event: comma-separated values, the
/// template, or the default line, and a line feed after it unless none is
/// wanted or comma-separated values are written.
pub fn output_line(
    formatter: &EventFormatter,
    event: &Event,
    csv: bool,
    format: Option<&str>,
    no_newline: bool,
) -> (r: Result<String, InotifyToolsError>)
    ensures
        csv ==> (r matches Ok(s) && s@ == csv_line(*event)),
        !csv && format is None ==> (r matches Ok(s) && s@ == if no_newline {
            default_line(*event)
        } else {
            default_line(*event).push('\n')
        }),
        !csv && format is Some ==> match r {
            Ok(s) => exists|time: Seq<char>|
                s@ == #[trigger] with_line_end(
                    expand(format->0@, directives(*event, time)),
                    no_newline,
                ),
            Err(e) => asks_time(format->0@) && (e matches InotifyToolsError::TimeFormat(p) && p@
                == formatter.pattern()),
        },
        !csv && format is Some && !asks_time(format->0@) ==> (r matches Ok(s) && s@
            == with_line_end(expand(format->0@, directives(*event, Seq::empty())), no_newline)),
{
    let mut output = if csv {
        formatter.format_csv(event)
    } else {
        match format {
            Some(format_str) => {
                match formatter.format_event(event, format_str) {
                    Ok(output) => output,
                    Err(e) => {
                        return Err(e);
                    },
                }
            },
            None => formatter.format_default(event),
        }
    };
    let ghost line = output@;
    if !(no_newline || csv) {
        output.push('\n');
    }
    proof {
        if !csv && format is Some {
            let time = choose|time: Seq<char>|
                line == expand(format->0@, #[trigger] directives(*event, time));
            assert(output@ == with_line_end(expand(format->0@, directives(*event, time)), no_newline));
        }
    }
    Ok(output)
}

/// `line`, with a line feed after it unless none is wanted.
pub open spec fn with_line_end(line: Seq<char>, no_newline: bool) -> Seq<char> {
    if no_newline {
        line
    } else {
        line.push('\n')
    }
}

/// The kinds that the lower-case name of a column of the table stands for.
pub open spec fn column_bits(name: Seq<char>) -> Option<u32> {
    if name == "access"@ {
        Some(ACCESS)
    } else if name == "modify"@ {
        Some(MODIFY)
    } else if name == "attrib"@ {
        Some(ATTRIB)
    } else if name == "close_write"@ {
        Some(CLOSE_WRITE)
    } else if name == "close_nowrite"@ {
        Some(CLOSE_NOWRITE)
    } else if name == "close"@ {
        Some(CLOSE)
    } else if name == "open"@ {
        Some(OPEN)
    } else if name == "moved_from"@ {
        Some(MOVED_FROM)
    } else if name == "moved_to"@ {
        Some(MOVED_TO)
    } else if name == "move"@ {
        Some(MOVE)
    } else if name == "create"@ {
        Some(CREATE)
    } else if name == "delete"@ {
        Some(DELETE)
    } else if name == "delete_self"@ {
        Some(DELETE_SELF)
    } else if name == "move_self"@ {
        Some(MOVE_SELF)
    } else if name == "unmount"@ {
        Some(UNMOUNT)
    } else {
        None
    }
}

/// The kinds to sort the table by, for the name `field` of a column in
/// small or capital letters; none for `total` and for what is no name of a
/// column, which both sort by the total.
pub fn parse_sort_field(field: &str) -> (r: Option<EventMask>)
    ensures
        r is Some <==> column_bits(lowercase(field@)) is Some,
        r matches Some(m) ==> column_bits(lowercase(field@)) == Some(m@),
{
    let lower = to_lower(field);
    let name = lower.as_str();
    if str_equal(name, "access") {
        Some(EventMask(ACCESS))
    } else if str_equal(name, "modify") {
        Some(EventMask(MODIFY))
    } else if str_equal(name, "attrib") {
        Some(EventMask(ATTRIB))
    } else if str_equal(name, "close_write") {
        Some(EventMask(CLOSE_WRITE))
    } else if str_equal(name, "close_nowrite") {
        Some(EventMask(CLOSE_NOWRITE))
    } else if str_equal(name, "close") {
        Some(EventMask(CLOSE))
    } else if str_equal(name, "open") {
        Some(EventMask(OPEN))
    } else if str_equal(name, "moved_from") {
        Some(EventMask(MOVED_FROM))
    } else if str_equal(name, "moved_to") {
        Some(EventMask(MOVED_TO))
    } else if str_equal(name, "move") {
        Some(EventMask(MOVE))
    } else if str_equal(name, "create") {
        Some(EventMask(CREATE))
    } else if str_equal(name, "delete") {
        Some(EventMask(DELETE))
    } else if str_equal(name, "delete_self") {
        Some(EventMask(DELETE_SELF))
    } else if str_equal(name, "move_self") {
        Some(EventMask(MOVE_SELF))
    } else if str_equal(name, "unmount") {
        Some(EventMask(UNMOUNT))
    } else {
        None
    }
}

/// Whether an event with the kinds `mask` is written out when the kinds
/// `events` were asked for.
pub fn is_asked_for(mask: EventMask, events: EventMask) -> (r: bool)
    ensures
        r == overlaps(mask@, events@),
{
    (mask & events).mask() != 0
}

} // verus!
