use inotifytools::event::{Event, EventMask, Timestamp};
use inotifytools::format::EventFormatter;
use inotifytools::run::{
    effective_events, is_asked_for, output_line, parse_sort_field, path_of_line, timeout_of,
    tree_events, EXIT_FAILURE, EXIT_SUCCESS, EXIT_TIMEOUT,
};

#[test]
fn test_parse_basic_args() {
    // The arguments are read by the program, with clap; what the library
    // decides of them is tested below.
}

#[test]
fn test_parse_sort_field() {
    assert_eq!(parse_sort_field("access"), Some(EventMask::access()));
    assert_eq!(parse_sort_field("modify"), Some(EventMask::modify()));
    assert_eq!(parse_sort_field("total"), None);
    assert_eq!(parse_sort_field("invalid"), None);
}

#[test]
fn sort_fields_in_any_case() {
    assert_eq!(parse_sort_field("ACCESS"), Some(EventMask::access()));
    assert_eq!(parse_sort_field("Close_NoWrite"), Some(EventMask::close_nowrite()));
    assert_eq!(parse_sort_field("close"), Some(EventMask::close()));
    assert_eq!(parse_sort_field("MOVE"), Some(EventMask::move_any()));
    assert_eq!(parse_sort_field("unmount"), Some(EventMask::unmount()));
    assert_eq!(parse_sort_field("move_self"), Some(EventMask::move_self()));
    assert_eq!(parse_sort_field(" access"), None);
    assert_eq!(parse_sort_field(""), None);
    assert_eq!(parse_sort_field("all_events"), None);
    assert_eq!(parse_sort_field("TOTAL"), None);
}

#[test]
fn events_to_listen_for() {
    assert_eq!(effective_events(EventMask::new(0)), EventMask::all_events());
    assert_eq!(effective_events(EventMask::modify()), EventMask::modify());
    assert_eq!(
        tree_events(EventMask::modify()),
        EventMask::modify() | EventMask::create() | EventMask::moved_to() | EventMask::moved_from()
    );
    assert_eq!(tree_events(EventMask::all_events()), EventMask::all_events());
    assert!(is_asked_for(EventMask::modify() | EventMask::isdir(), EventMask::modify()));
    assert!(!is_asked_for(EventMask::create(), EventMask::modify()));
    assert!(!is_asked_for(EventMask::new(0), EventMask::all_events()));
}

#[test]
fn timeouts_and_exit_codes() {
    assert_eq!(timeout_of(0), None);
    assert_eq!(timeout_of(1), Some(1));
    assert_eq!(timeout_of(u64::MAX), Some(u64::MAX));
    assert_eq!((EXIT_SUCCESS, EXIT_FAILURE, EXIT_TIMEOUT), (0, 1, 2));
}

#[test]
fn lines_of_a_list_of_paths() {
    assert_eq!(path_of_line("/tmp/a"), Some("/tmp/a".to_string()));
    assert_eq!(path_of_line("  /tmp/a b \t"), Some("/tmp/a b".to_string()));
    assert_eq!(path_of_line(""), None);
    assert_eq!(path_of_line("   "), None);
    assert_eq!(path_of_line("# comment"), None);
    assert_eq!(path_of_line("   #comment"), None);
    assert_eq!(path_of_line("a#b"), Some("a#b".to_string()));
}

#[test]
fn lines_for_an_event() {
    let event = Event::at(
        3,
        EventMask::modify(),
        0,
        Some("x.txt".to_string()),
        "/d/x.txt".to_string(),
        Timestamp { secs: 0, nanos: 0 },
    );
    let formatter = EventFormatter::new();
    assert_eq!(output_line(&formatter, &event, false, None, false).unwrap(), "/d MODIFY x.txt\n");
    assert_eq!(output_line(&formatter, &event, false, None, true).unwrap(), "/d MODIFY x.txt");
    assert_eq!(output_line(&formatter, &event, true, None, false).unwrap(), "/d,x.txt,MODIFY");
    assert_eq!(output_line(&formatter, &event, true, Some("%w"), false).unwrap(), "/d,x.txt,MODIFY");
    assert_eq!(output_line(&formatter, &event, false, Some("%w:%f:%e"), false).unwrap(), "3:x.txt:MODIFY\n");
    assert_eq!(output_line(&formatter, &event, false, Some("%w:%f:%e"), true).unwrap(), "3:x.txt:MODIFY");
    let mut formatter = EventFormatter::new();
    formatter.set_time_format("%Q".to_string());
    assert!(output_line(&formatter, &event, false, Some("%T"), false).is_err());
    assert!(output_line(&formatter, &event, false, Some("%f"), false).is_ok());
}
