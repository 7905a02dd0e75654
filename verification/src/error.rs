//! What can go wrong while watching.

use vstd::prelude::*;
use vstd::string::StringExecFns;
use crate::text::push_signed_decimal;

verus! {

/// What `regex::Error` prints of itself.
pub uninterp spec fn regex_error_text(e: regex::Error) -> Seq<char>;

/// The `Display` text of a `regex::Error`. Not proved: that the text depends
/// on the error alone.
#[verifier::external_body]
pub(crate) fn describe_regex_error(e: &regex::Error) -> (r: String)
    ensures
        r@ == regex_error_text(*e),
{
    format!("{}", e)
}

/// A failure of the library or of the event source behind it. Paths and the
/// reasons that the operating system gave are kept as text.
#[derive(Debug)]
pub enum InotifyToolsError {
    /// The event source could not be set up.
    InotifyInit(String),
    /// No watch could be added for the path; the second field is the reason.
    WatchAdd(String, String),
    /// The directory could not be listed; the second field is the reason.
    ReadDir(String, String),
    /// The event source failed while events were read.
    ReadEvents(String),
    /// A filter pattern is no regular expression.
    Regex(regex::Error),
    /// The statistics could not be locked.
    LockError,
    /// A name in a list of event kinds is not the name of a kind.
    InvalidEventString(String),
    /// No watch has this identifier.
    WatchDescriptorNotFound(i32),
    PathNotFound(String),
    PermissionDenied(String),
    InvalidTimeout(i64),
    /// The time of an event cannot be shown with this pattern.
    TimeFormat(String),
}

impl InotifyToolsError {
    /// The sentence that `message` returns.
    pub open spec fn message_text(self) -> Seq<char> {
        match self {
            InotifyToolsError::InotifyInit(e) => "Failed to initialize inotify: "@ + e@,
            InotifyToolsError::WatchAdd(p, e) => "Failed to add watch for "@ + p@ + ": "@ + e@,
            InotifyToolsError::ReadDir(p, e) => "Failed to read directory "@ + p@ + ": "@ + e@,
            InotifyToolsError::ReadEvents(e) => "Failed to read events: "@ + e@,
            InotifyToolsError::Regex(e) => "Regular expression error: "@ + regex_error_text(e),
            InotifyToolsError::LockError => "Lock error occurred"@,
            InotifyToolsError::InvalidEventString(s) => "Invalid event string: "@ + s@,
            InotifyToolsError::WatchDescriptorNotFound(wd) => "Watch descriptor "@
                + crate::text::signed_decimal(wd as int) + " not found"@,
            InotifyToolsError::PathNotFound(p) => "Path not found: "@ + p@,
            InotifyToolsError::PermissionDenied(p) => "Permission denied for path: "@ + p@,
            InotifyToolsError::InvalidTimeout(t) => "Invalid timeout value: "@
                + crate::text::signed_decimal(t as int),
            InotifyToolsError::TimeFormat(f) => "Invalid time format: "@ + f@,
        }
    }

    /// The error as a sentence for the user.
    pub fn message(&self) -> (r: String)
        ensures
            r@ == self.message_text(),
    {
        match self {
            InotifyToolsError::InotifyInit(e) => {
                let mut s = String::from_str("Failed to initialize inotify: ");
                s.append(e.as_str());
                s
            },
            InotifyToolsError::WatchAdd(p, e) => {
                let mut s = String::from_str("Failed to add watch for ");
                s.append(p.as_str());
                s.append(": ");
                s.append(e.as_str());
                s
            },
            InotifyToolsError::ReadDir(p, e) => {
                let mut s = String::from_str("Failed to read directory ");
                s.append(p.as_str());
                s.append(": ");
                s.append(e.as_str());
                s
            },
            InotifyToolsError::ReadEvents(e) => {
                let mut s = String::from_str("Failed to read events: ");
                s.append(e.as_str());
                s
            },
            InotifyToolsError::Regex(e) => {
                let mut s = String::from_str("Regular expression error: ");
                let text = describe_regex_error(e);
                s.append(text.as_str());
                s
            },
            InotifyToolsError::LockError => String::from_str("Lock error occurred"),
            InotifyToolsError::InvalidEventString(name) => {
                let mut s = String::from_str("Invalid event string: ");
                s.append(name.as_str());
                s
            },
            InotifyToolsError::WatchDescriptorNotFound(wd) => {
                let mut s = String::from_str("Watch descriptor ");
                push_signed_decimal(&mut s, *wd as i64);
                s.append(" not found");
                s
            },
            InotifyToolsError::PathNotFound(p) => {
                let mut s = String::from_str("Path not found: ");
                s.append(p.as_str());
                s
            },
            InotifyToolsError::PermissionDenied(p) => {
                let mut s = String::from_str("Permission denied for path: ");
                s.append(p.as_str());
                s
            },
            InotifyToolsError::InvalidTimeout(t) => {
                let mut s = String::from_str("Invalid timeout value: ");
                push_signed_decimal(&mut s, *t);
                s
            },
            InotifyToolsError::TimeFormat(f) => {
                let mut s = String::from_str("Invalid time format: ");
                s.append(f.as_str());
                s
            },
        }
    }
}

} // verus!
