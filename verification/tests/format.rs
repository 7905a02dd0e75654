use inotifytools::event::{Event, EventMask, Timestamp};
use inotifytools::format::{
    render_event, template_asks_time, CsvFormatter, EventFormatter, TableFormatter,
};
use inotifytools::stats::{FileStatistics, Statistics};
use inotifytools::InotifyToolsError;

#[test]
fn test_event_formatter() {
    let event = Event::new(
        1,
        EventMask::modify(),
        0,
        Some("test.txt".to_string()),
        "/tmp/test.txt".to_string(),
    );

    let formatter = EventFormatter::new();

    // Test filename format
    let result = formatter.format_event(&event, "%f").unwrap();
    assert_eq!(result, "test.txt");

    // Test event format
    let result = formatter.format_event(&event, "%e").unwrap();
    assert_eq!(result, "MODIFY");

    // Test watch descriptor format
    let result = formatter.format_event(&event, "%w").unwrap();
    assert_eq!(result, "1");
}

#[test]
fn test_csv_formatter() {
    let event = Event::new(
        1,
        EventMask::modify(),
        0,
        Some("test.txt".to_string()),
        "/tmp/test.txt".to_string(),
    );

    let formatter = EventFormatter::new();
    let result = formatter.format_csv(&event);
    assert!(result.contains("test.txt"));
    assert!(result.contains("MODIFY"));
}

#[test]
fn test_default_formatter() {
    let event = Event::new(
        1,
        EventMask::modify(),
        0,
        Some("test.txt".to_string()),
        "/tmp/test.txt".to_string(),
    );

    let formatter = EventFormatter::new();
    let result = formatter.format_default(&event);
    assert!(result.contains("test.txt"));
    assert!(result.contains("MODIFY"));
}

fn event(wd: i32, mask: EventMask, cookie: u32, name: Option<&str>, path: &str) -> Event {
    Event::at(
        wd,
        mask,
        cookie,
        name.map(|n| n.to_string()),
        path.to_string(),
        Timestamp { secs: 1_700_000_000, nanos: 123 },
    )
}

#[test]
fn template_with_watch_name_and_kinds() {
    let e = event(3, EventMask::modify(), 0, Some("x.txt"), "/d/x.txt");
    let formatter = EventFormatter::new();
    assert_eq!(formatter.format_event(&e, "%w:%f:%e").unwrap(), "3:x.txt:MODIFY");
}

#[test]
fn template_directives() {
    let e = event(-12, EventMask::create() | EventMask::modify() | EventMask::isdir(), 4711, None, "/a/b/c");
    let formatter = EventFormatter::default();
    assert_eq!(formatter.format_event(&e, "").unwrap(), "");
    assert_eq!(formatter.format_event(&e, "plain text").unwrap(), "plain text");
    assert_eq!(formatter.format_event(&e, "%w").unwrap(), "-12");
    assert_eq!(formatter.format_event(&e, "%f").unwrap(), "c");
    assert_eq!(formatter.format_event(&e, "%F").unwrap(), "/a/b/c");
    assert_eq!(formatter.format_event(&e, "%e").unwrap(), "MODIFY,CREATE");
    assert_eq!(formatter.format_event(&e, "%Xe").unwrap(), "MODIFY");
    assert_eq!(formatter.format_event(&e, "%c").unwrap(), "4711");
    assert_eq!(formatter.format_event(&e, "%%").unwrap(), "%");
    assert_eq!(formatter.format_event(&e, "[%F] %e #%c%%").unwrap(), "[/a/b/c] MODIFY,CREATE #4711%");
}

#[test]
fn unknown_directives_stay() {
    let e = event(1, EventMask::modify(), 0, None, "/p");
    let formatter = EventFormatter::new();
    assert_eq!(formatter.format_event(&e, "%q").unwrap(), "%q");
    assert_eq!(formatter.format_event(&e, "%X").unwrap(), "%X");
    assert_eq!(formatter.format_event(&e, "%Xf").unwrap(), "%Xf");
    assert_eq!(formatter.format_event(&e, "%Xw").unwrap(), "%Xw");
    assert_eq!(formatter.format_event(&e, "100%").unwrap(), "100%");
    assert_eq!(formatter.format_event(&e, "%%w").unwrap(), "%w");
    assert_eq!(formatter.format_event(&e, "%é%w").unwrap(), "%é1");
}

#[test]
fn kinds_of_an_event_without_named_kind() {
    let e = event(1, EventMask::isdir(), 0, None, "/p");
    let formatter = EventFormatter::new();
    assert_eq!(formatter.format_event(&e, "%e/%Xe").unwrap(), "UNKNOWN/UNKNOWN");
}

#[test]
fn base_name_of_a_path() {
    let formatter = EventFormatter::new();
    let e = event(1, EventMask::modify(), 0, None, "/");
    assert_eq!(formatter.format_event(&e, "<%f>").unwrap(), "<>");
    let e = event(1, EventMask::modify(), 0, None, "/a/b/");
    assert_eq!(formatter.format_event(&e, "<%f>").unwrap(), "<b>");
    let e = event(1, EventMask::modify(), 0, Some("given"), "/a/other");
    assert_eq!(formatter.format_event(&e, "<%f>").unwrap(), "<given>");
}

#[test]
fn time_in_a_template() {
    let e = event(1, EventMask::modify(), 0, None, "/p");
    let mut formatter = EventFormatter::new();
    formatter.set_time_format("%s".to_string());
    assert_eq!(formatter.format_event(&e, "%T").unwrap(), "1700000000");
    assert_eq!(formatter.format_event(&e, "at %T: %e").unwrap(), "at 1700000000: MODIFY");
    formatter.clear_time_format();
    let text = formatter.format_event(&e, "%T").unwrap();
    assert_eq!(text.len(), 19);
    assert!(text.starts_with("2023-11-1"));
    assert_eq!(&text[4..5], "-");
    assert_eq!(&text[10..11], " ");
    assert_eq!(&text[13..14], ":");
}

#[test]
fn time_that_cannot_be_written() {
    let e = event(1, EventMask::modify(), 0, None, "/p");
    let mut formatter = EventFormatter::new();
    formatter.set_time_format("%Q".to_string());
    match formatter.format_event(&e, "%T") {
        Err(InotifyToolsError::TimeFormat(pattern)) => assert_eq!(pattern, "%Q"),
        other => panic!("unexpected: {:?}", other),
    }
    assert_eq!(formatter.format_event(&e, "%%T %w").unwrap(), "%T 1");

    let late = Event::at(
        1,
        EventMask::modify(),
        0,
        None,
        "/p".to_string(),
        Timestamp { secs: u64::MAX, nanos: 0 },
    );
    let formatter = EventFormatter::new();
    match formatter.format_event(&late, "%T") {
        Err(InotifyToolsError::TimeFormat(pattern)) => assert_eq!(pattern, "%Y-%m-%d %H:%M:%S"),
        other => panic!("unexpected: {:?}", other),
    }
    assert_eq!(formatter.format_event(&late, "%w").unwrap(), "1");
}

#[test]
fn asking_for_the_time() {
    assert!(template_asks_time("%T"));
    assert!(template_asks_time("a%wb%Tc"));
    assert!(template_asks_time("%Xe%T"));
    assert!(template_asks_time("%X%T"));
    assert!(!template_asks_time("%%T"));
    assert!(!template_asks_time("T%"));
    assert!(!template_asks_time("%XT"));
    assert!(!template_asks_time(""));
}

#[test]
fn rendering_with_a_given_time() {
    let e = event(2, EventMask::open(), 0, Some("n"), "/d/n");
    assert_eq!(render_event(&e, "%T|%T %f", "noon"), "noon|noon n");
}

#[test]
fn csv_and_default_lines() {
    let formatter = EventFormatter::new();
    let e = event(1, EventMask::modify() | EventMask::close_write(), 0, Some("test.txt"), "/tmp/test.txt");
    assert_eq!(formatter.format_csv(&e), "/tmp,test.txt,MODIFY,CLOSE_WRITE");
    assert_eq!(formatter.format_default(&e), "/tmp MODIFY,CLOSE_WRITE test.txt");
    let e = event(1, EventMask::delete_self(), 0, None, "/tmp/dir");
    assert_eq!(formatter.format_csv(&e), "/tmp,dir,DELETE_SELF");
    assert_eq!(formatter.format_default(&e), "/tmp DELETE_SELF dir");
    let e = event(1, EventMask::delete_self(), 0, None, "/");
    assert_eq!(formatter.format_csv(&e), ",,DELETE_SELF");
    assert_eq!(formatter.format_default(&e), " DELETE_SELF ");
    let e = event(1, EventMask::attrib(), 0, None, "plain");
    assert_eq!(formatter.format_csv(&e), ",plain,ATTRIB");
}

#[test]
fn statistics_as_csv() {
    let mut stats = FileStatistics::new("/tmp/f".to_string());
    stats.record_event(EventMask::modify());
    stats.record_event(EventMask::modify() | EventMask::unmount());
    stats.record_event(EventMask::move_self());
    assert_eq!(
        CsvFormatter::format_file_stats("/tmp/f", &stats),
        "/tmp/f,0,2,0,0,0,0,0,0,0,0,0,1,1,3"
    );
    assert_eq!(
        CsvFormatter::file_stats_header(),
        "filename,access,modify,attrib,close_write,close_nowrite,open,moved_from,moved_to,create,delete,delete_self,move_self,unmount,total"
    );
    assert_eq!(
        CsvFormatter::file_stats_header().split(',').count(),
        CsvFormatter::format_file_stats("x", &stats).split(',').count()
    );
}

fn row(name: &str, cells: [&str; 14]) -> String {
    let mut line = format!("{:<30}", name);
    for cell in cells {
        line.push_str(&format!(" {:>8}", cell));
    }
    line.push('\n');
    line
}

fn header() -> String {
    let mut text = row(
        "filename",
        [
            "access", "modify", "attrib", "close_w", "close_nw", "open", "move_fr", "move_to",
            "create", "delete", "del_slf", "move_slf", "unmount", "total",
        ],
    );
    text.push_str(&"-".repeat(150));
    text.push('\n');
    text
}

fn recorded() -> Statistics {
    let mut stats = Statistics::new();
    let on = |path: &str, mask: EventMask| Event::new(1, mask, 0, None, path.to_string());
    stats.record_event(&on("/d/a.txt", EventMask::modify()));
    stats.record_event(&on("/d/b.txt", EventMask::modify() | EventMask::create()));
    stats.record_event(&on("/d/b.txt", EventMask::access()));
    stats.record_event(&on("/", EventMask::open() | EventMask::move_self()));
    stats
}

#[test]
fn table_without_zeros() {
    let stats = recorded();
    let mut expected = header();
    expected.push_str(&row("b.txt", ["1", "1", "", "", "", "", "", "", "1", "", "", "", "", "2"]));
    expected.push_str(&row("a.txt", ["", "1", "", "", "", "", "", "", "", "", "", "", "", "1"]));
    expected.push_str(&row("/", ["", "", "", "", "", "1", "", "", "", "", "", "1", "", "1"]));
    expected.push_str(&"-".repeat(150));
    expected.push('\n');
    expected.push_str(&row("total", ["1", "2", "0", "0", "0", "1", "0", "0", "1", "0", "0", "1", "0", "4"]));
    assert_eq!(TableFormatter::format_stats_table(&stats, None, false, false), expected);
}

#[test]
fn table_with_zeros_sorted_by_kind() {
    let mut stats = recorded();
    stats.file_stats.push(FileStatistics::new("/d/idle".to_string()));
    let mut expected = header();
    expected.push_str(&row("/", ["0", "0", "0", "0", "0", "1", "0", "0", "0", "0", "0", "1", "0", "1"]));
    expected.push_str(&row("idle", ["0"; 14]));
    expected.push_str(&row("a.txt", ["0", "1", "0", "0", "0", "0", "0", "0", "0", "0", "0", "0", "0", "1"]));
    expected.push_str(&row("b.txt", ["1", "1", "0", "0", "0", "0", "0", "0", "1", "0", "0", "0", "0", "2"]));
    expected.push_str(&"-".repeat(150));
    expected.push('\n');
    expected.push_str(&row("total", ["1", "2", "0", "0", "0", "1", "0", "0", "1", "0", "0", "1", "0", "4"]));
    assert_eq!(
        TableFormatter::format_stats_table(&stats, Some(EventMask::modify()), true, true),
        expected
    );

    let hidden = TableFormatter::format_stats_table(&stats, Some(EventMask::modify()), true, false);
    assert!(!hidden.contains("idle"));
    assert_eq!(hidden.lines().count(), 7);
}

#[test]
fn table_of_nothing() {
    let mut expected = header();
    expected.push_str(&"-".repeat(150));
    expected.push('\n');
    expected.push_str(&row("total", ["0"; 14]));
    assert_eq!(TableFormatter::format_stats_table(&Statistics::new(), None, true, false), expected);
}

#[test]
fn long_names_are_not_cut() {
    let mut stats = Statistics::new();
    let name = "n".repeat(40);
    stats.record_event(&Event::new(1, EventMask::modify(), 0, None, format!("/d/{}", name)));
    let table = TableFormatter::format_stats_table(&stats, None, false, true);
    let line = table.lines().nth(2).unwrap();
    assert!(line.starts_with(&format!("{}        0        1", name)));
}
