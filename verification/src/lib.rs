//! Watching a filesystem subtree with inotify: sets of event kinds, the
//! table of watches, usage statistics, the pipeline that takes in what the
//! event source reports, the walk that puts a directory tree under watch,
//! and the formatting of events and statistics.
//!
//! The library asks neither the event source nor the file system. The caller
//! owns them: it asks, and hands the answers in.

use vstd::prelude::*;

pub mod error;
pub mod event;
pub mod filter;
pub mod format;
pub mod kinds;
pub mod path;
pub mod pipeline;
pub mod run;
pub mod stats;
pub mod table;
pub mod text;
pub mod walk;
pub mod watch;

pub use error::InotifyToolsError;
pub use event::{Event, EventMask};
pub use pipeline::{Config, InotifyTools};
pub use stats::Statistics;
pub use watch::Watch;

verus! {

/// The set that the list `event_str` of names stands for, the names separated
/// by commas.
pub fn str_to_events(event_str: &str) -> (r: Result<EventMask, InotifyToolsError>)
    ensures
        match kinds::parse_kind_list(event_str@, ',') {
            Ok(bits) => r matches Ok(m) && m@ == bits,
            Err(bad) => r matches Err(InotifyToolsError::InvalidEventString(name)) && name@ == bad,
        },
{
    event::str_to_events(event_str)
}

/// The names of the kinds in `events`, with commas between them.
pub fn events_to_str(events: EventMask) -> (r: String)
    ensures
        r@ == kinds::kind_list_text(events@, ','),
{
    event::events_to_str(events)
}

} // verus!
