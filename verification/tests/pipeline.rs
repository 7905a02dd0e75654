use inotifytools::event::{Event, EventMask};
use inotifytools::filter::path_excluded;
use inotifytools::pipeline::{
    Added, Config, InotifyTools, Outcome, RawEvent, SourceRead, Step,
};
use inotifytools::table::WatchTable;
use inotifytools::InotifyToolsError;

const MODIFY: u32 = 0x2;
const MOVED_FROM: u32 = 0x40;
const MOVED_TO: u32 = 0x80;
const CREATE: u32 = 0x100;
const DELETE_SELF: u32 = 0x400;
const UNMOUNT: u32 = 0x2000;
const Q_OVERFLOW: u32 = 0x4000;
const IGNORED: u32 = 0x8000;
const ISDIR: u32 = 0x4000_0000;

fn tools(recursive: bool) -> InotifyTools {
    let mut tools = InotifyTools::new(Config::default()).unwrap();
    tools.set_recursive(recursive);
    for (wd, path) in [(1, "/a"), (2, "/a/sub"), (3, "/a/sub/deep"), (4, "/a/subway"), (5, "/b")] {
        let added = Added { wd, is_directory: true };
        assert_eq!(tools.watch_file(path.to_string(), Ok(added)).unwrap(), wd);
    }
    tools
}

fn raw(wd: i32, mask: u32, cookie: u32, name: Option<&str>) -> SourceRead {
    SourceRead::Event(RawEvent { wd, mask, cookie, name: name.map(|n| n.to_string()) })
}

fn seen(step: &Step) -> &Event {
    match &step.outcome {
        Outcome::Observable(event) => event,
        other => panic!("unexpected: {:?}", other),
    }
}

#[test]
fn an_event_is_resolved_counted_and_shown() {
    let mut tools = tools(false);
    let step = tools.next_event(raw(2, MODIFY, 0, Some("f.txt"))).unwrap();
    let event = seen(&step);
    assert_eq!(event.wd, 2);
    assert_eq!(event.path, "/a/sub/f.txt");
    assert_eq!(event.name.as_deref(), Some("f.txt"));
    assert_eq!(event.mask, EventMask::modify());
    assert!(step.removed.is_empty());
    assert_eq!(step.grow, None);
    let stats = tools.get_statistics().unwrap();
    assert_eq!(stats.total_events, 1);
    assert_eq!(stats.total_modify, 1);
    assert_eq!(stats.get_file_stats(&"/a/sub/f.txt".to_string()).unwrap().modify, 1);
    assert_eq!(tools.get_num_watches(), 5);
}

#[test]
fn an_event_of_an_unknown_watch_is_dropped() {
    let mut tools = tools(true);
    let step = tools.next_event(raw(99, MODIFY, 0, Some("f"))).unwrap();
    assert!(matches!(step.outcome, Outcome::Discarded));
    assert!(step.removed.is_empty());
    assert_eq!(step.grow, None);
    assert_eq!(tools.get_statistics().unwrap().total_events, 0);
    assert_eq!(tools.get_num_watches(), 5);
}

#[test]
fn lost_events_are_reported() {
    let mut tools = tools(true);
    let step = tools.next_event(raw(-1, Q_OVERFLOW, 0, None)).unwrap();
    assert!(matches!(step.outcome, Outcome::Overflow));
    let step = tools.next_event(raw(1, Q_OVERFLOW | MODIFY, 0, None)).unwrap();
    assert!(matches!(step.outcome, Outcome::Overflow));
    assert_eq!(tools.get_statistics().unwrap().total_events, 0);
}

#[test]
fn timeout_end_and_failure() {
    let mut tools = tools(true);
    let step = tools.next_event(SourceRead::Timeout).unwrap();
    assert!(matches!(step.outcome, Outcome::Timeout));
    let step = tools.next_event(SourceRead::EndOfStream).unwrap();
    assert!(matches!(step.outcome, Outcome::EndOfStream));
    match tools.next_event(SourceRead::Failed("broken pipe".to_string())) {
        Err(InotifyToolsError::ReadEvents(reason)) => assert_eq!(reason, "broken pipe"),
        other => panic!("unexpected: {:?}", other),
    }
    assert_eq!(tools.get_statistics().unwrap().total_events, 0);
    assert_eq!(tools.get_num_watches(), 5);
}

#[test]
fn filters_hide_but_do_not_stop_the_count() {
    let stream = [
        (1, MODIFY, "keep.txt"),
        (1, MODIFY, "skip.log"),
        (2, CREATE, "other.txt"),
        (5, MODIFY | CREATE, "skip.log"),
        (2, MODIFY, "notes"),
    ];
    let run = |unwanted: Option<&str>, wanted: Option<&str>| {
        let mut tools = tools(false);
        if let Some(pattern) = unwanted {
            tools.set_exclude_regex(pattern).unwrap();
        }
        if let Some(pattern) = wanted {
            tools.set_include_regex(pattern).unwrap();
        }
        let mut shown = Vec::new();
        for (wd, mask, name) in stream {
            let step = tools.next_event(raw(wd, mask, 0, Some(name))).unwrap();
            match step.outcome {
                Outcome::Observable(event) => shown.push(event.path),
                Outcome::Filtered => {}
                other => panic!("unexpected: {:?}", other),
            }
        }
        let stats = tools.get_statistics().unwrap();
        let per_path: Vec<(String, u64, u64, u64)> =
            stats.file_stats.iter().map(|f| (f.path.clone(), f.modify, f.create, f.total)).collect();
        (shown, stats.total_events, stats.total_modify, stats.total_create, per_path)
    };
    let plain = run(None, None);
    assert_eq!(
        plain.0,
        vec!["/a/keep.txt", "/a/skip.log", "/a/sub/other.txt", "/b/skip.log", "/a/sub/notes"]
    );
    assert_eq!((plain.1, plain.2, plain.3), (5, 4, 2));
    let excluded = run(Some(r"\.log$"), None);
    assert_eq!(excluded.0, vec!["/a/keep.txt", "/a/sub/other.txt", "/a/sub/notes"]);
    let included = run(None, Some(r"\.txt$"));
    assert_eq!(included.0, vec!["/a/keep.txt", "/a/sub/other.txt"]);
    let both = run(Some("^/a/sub"), Some(r"\.txt$"));
    assert_eq!(both.0, vec!["/a/keep.txt"]);
    for filtered in [excluded, included, both] {
        assert_eq!((filtered.1, filtered.2, filtered.3), (plain.1, plain.2, plain.3));
        assert_eq!(filtered.4, plain.4);
    }
}

#[test]
fn a_pattern_that_is_no_expression_is_an_error() {
    let mut tools = tools(false);
    tools.set_exclude_regex("sub").unwrap();
    match tools.set_exclude_regex("(") {
        Err(InotifyToolsError::Regex(_)) => {}
        other => panic!("unexpected: {:?}", other),
    }
    assert!(matches!(tools.set_include_regex("[a-"), Err(InotifyToolsError::Regex(_))));
    let step = tools.next_event(raw(2, MODIFY, 0, Some("f"))).unwrap();
    assert!(matches!(step.outcome, Outcome::Filtered));
    let step = tools.next_event(raw(5, MODIFY, 0, Some("f"))).unwrap();
    assert_eq!(seen(&step).path, "/b/f");
}

#[test]
fn should_filter_event_by_path() {
    let mut tools = tools(false);
    let event = Event::new(1, EventMask::modify(), 0, None, "/a/x.tmp".to_string());
    assert!(!tools.should_filter_event(&event));
    tools.set_include_regex("^/a/").unwrap();
    assert!(!tools.should_filter_event(&event));
    tools.set_exclude_regex("tmp$").unwrap();
    assert!(tools.should_filter_event(&event));
    tools.set_exclude_regex("nothing").unwrap();
    tools.set_include_regex("^/b/").unwrap();
    assert!(tools.should_filter_event(&event));
}

#[test]
fn excluded_by_one_of_the_patterns() {
    let patterns = vec!["(".to_string(), "skip".to_string(), "^/tmp".to_string()];
    assert!(path_excluded("/r/skip", &patterns));
    assert!(path_excluded("/tmp/x", &patterns));
    assert!(!path_excluded("/r/keep", &patterns));
    assert!(!path_excluded("/r/(", &patterns));
    assert!(!path_excluded("/r/skip", &Vec::new()));
}

#[test]
fn a_rename_within_the_tree_keeps_the_watches() {
    let mut tools = tools(true);
    let step = tools.next_event(raw(1, MOVED_FROM | ISDIR, 77, Some("sub"))).unwrap();
    assert_eq!(seen(&step).path, "/a/sub");
    assert!(step.removed.is_empty());
    let step = tools.next_event(raw(1, MOVED_TO | ISDIR, 77, Some("renamed"))).unwrap();
    assert_eq!(seen(&step).path, "/a/renamed");
    assert!(step.removed.is_empty());
    assert_eq!(step.grow.as_deref(), Some("/a/renamed"));
    assert_eq!(tools.get_num_watches(), 5);
    let step = tools.next_event(raw(2, MODIFY, 0, Some("f"))).unwrap();
    assert_eq!(seen(&step).path, "/a/sub/f");
    assert!(step.removed.is_empty());
    assert_eq!(tools.get_num_watches(), 5);
}

#[test]
fn a_rename_out_of_the_tree_takes_the_subtree_out() {
    let mut tools = tools(true);
    tools.next_event(raw(1, MOVED_FROM | ISDIR, 77, Some("sub"))).unwrap();
    let step = tools.next_event(raw(5, MODIFY, 0, Some("f"))).unwrap();
    assert_eq!(seen(&step).path, "/b/f");
    assert_eq!(step.removed, vec![2, 3]);
    assert_eq!(tools.get_num_watches(), 3);
    let step = tools.next_event(raw(2, MODIFY, 0, Some("f"))).unwrap();
    assert!(matches!(step.outcome, Outcome::Discarded));
    let step = tools.next_event(raw(4, MODIFY, 0, Some("f"))).unwrap();
    assert_eq!(seen(&step).path, "/a/subway/f");
    assert!(step.removed.is_empty());
}

#[test]
fn a_rename_with_another_cookie_is_not_completed() {
    let mut tools = tools(true);
    tools.next_event(raw(1, MOVED_FROM | ISDIR, 77, Some("sub"))).unwrap();
    let step = tools.next_event(raw(5, MOVED_TO | ISDIR, 78, Some("came"))).unwrap();
    assert_eq!(step.removed, vec![2, 3]);
    assert_eq!(step.grow.as_deref(), Some("/b/came"));
    assert_eq!(tools.get_num_watches(), 3);
}

#[test]
fn a_second_rename_closes_the_first() {
    let mut tools = tools(true);
    tools.next_event(raw(1, MOVED_FROM | ISDIR, 1, Some("sub"))).unwrap();
    let step = tools.next_event(raw(1, MOVED_FROM | ISDIR, 2, Some("subway"))).unwrap();
    assert_eq!(step.removed, vec![2, 3]);
    let step = tools.next_event(raw(5, MOVED_TO | ISDIR, 2, Some("subway"))).unwrap();
    assert!(step.removed.is_empty());
    assert_eq!(tools.get_num_watches(), 3);
}

#[test]
fn renames_are_left_alone_unless_the_tree_is_kept() {
    let mut tools = tools(false);
    tools.next_event(raw(1, MOVED_FROM | ISDIR, 77, Some("sub"))).unwrap();
    let step = tools.next_event(raw(5, CREATE | ISDIR, 0, Some("new"))).unwrap();
    assert!(step.removed.is_empty());
    assert_eq!(step.grow, None);
    assert_eq!(tools.get_num_watches(), 5);
}

#[test]
fn new_directories_are_to_be_watched() {
    let mut tools = tools(true);
    let step = tools.next_event(raw(1, CREATE | ISDIR, 0, Some("new"))).unwrap();
    assert_eq!(step.grow.as_deref(), Some("/a/new"));
    let step = tools.next_event(raw(1, CREATE, 0, Some("file"))).unwrap();
    assert_eq!(step.grow, None);
    let step = tools.next_event(raw(1, MOVED_TO | ISDIR, 5, Some("in"))).unwrap();
    assert_eq!(step.grow.as_deref(), Some("/a/in"));
    let step = tools.next_event(raw(1, MODIFY | ISDIR, 0, Some("in"))).unwrap();
    assert_eq!(step.grow, None);
}

#[test]
fn a_watch_whose_path_is_gone_leaves_the_table() {
    for mask in [DELETE_SELF, UNMOUNT, IGNORED] {
        let mut tools = tools(false);
        let step = tools.next_event(raw(3, mask, 0, None)).unwrap();
        assert_eq!(seen(&step).path, "/a/sub/deep");
        assert_eq!(step.removed, vec![3]);
        assert_eq!(tools.get_num_watches(), 4);
        assert_eq!(tools.get_statistics().unwrap().total_events, 1);
        let step = tools.next_event(raw(3, MODIFY, 0, None)).unwrap();
        assert!(matches!(step.outcome, Outcome::Discarded));
    }
}

#[test]
fn a_failed_watch_is_the_error() {
    let mut tools = tools(false);
    match tools.watch_file("/nowhere".to_string(), Err("No such file or directory".to_string())) {
        Err(InotifyToolsError::WatchAdd(path, reason)) => {
            assert_eq!(path, "/nowhere");
            assert_eq!(reason, "No such file or directory");
        }
        other => panic!("unexpected: {:?}", other),
    }
    assert_eq!(tools.get_num_watches(), 5);
}

#[test]
fn an_identifier_that_comes_again_makes_a_fresh_watch() {
    let mut tools = tools(false);
    tools.next_event(raw(2, MODIFY, 0, None)).unwrap();
    tools.watch_file("/elsewhere".to_string(), Ok(Added { wd: 2, is_directory: false })).unwrap();
    assert_eq!(tools.get_num_watches(), 5);
    let step = tools.next_event(raw(2, MODIFY, 0, None)).unwrap();
    assert_eq!(seen(&step).path, "/elsewhere");
}

#[test]
fn removing_watches() {
    let mut tools = tools(false);
    tools.remove_watch(2).unwrap();
    tools.remove_watch(2).unwrap();
    tools.remove_watch(42).unwrap();
    assert_eq!(tools.get_num_watches(), 4);
    tools.remove_watch_by_filename("/a/sub/deep").unwrap();
    tools.remove_watch_by_filename("/a/sub").unwrap();
    tools.remove_watch_by_filename("/a/").unwrap();
    assert_eq!(tools.get_num_watches(), 3);
    let step = tools.next_event(raw(3, MODIFY, 0, None)).unwrap();
    assert!(matches!(step.outcome, Outcome::Discarded));
}

#[test]
fn the_table_of_watches() {
    let mut table = WatchTable::new();
    assert_eq!(table.len(), 0);
    assert!(table.lookup(1).is_none());
    let watch = table.insert(1, "/a".to_string(), true);
    assert_eq!((watch.wd, watch.path.as_str(), watch.is_directory, watch.hit_total), (1, "/a", true, 0));
    table.insert(2, "/a/b".to_string(), true);
    table.insert(3, "/a/b/c".to_string(), false);
    table.insert(4, "/a/b".to_string(), true);
    assert_eq!(table.len(), 4);
    assert!(table.record_hit(2, EventMask::modify() | EventMask::create()));
    assert!(table.record_hit(2, EventMask::modify()));
    assert!(!table.record_hit(9, EventMask::modify()));
    let hit = table.lookup(2).unwrap();
    assert_eq!((hit.hit_modify, hit.hit_create, hit.hit_total), (2, 1, 2));
    assert_eq!(table.lookup(3).unwrap().hit_total, 0);

    let fresh = table.insert(2, "/z".to_string(), false);
    assert_eq!((fresh.path.as_str(), fresh.hit_total), ("/z", 0));
    assert_eq!(table.len(), 4);
    assert_eq!(table.lookup(2).unwrap().hit_modify, 0);

    assert_eq!(table.remove_by_path("/a/b").unwrap().wd, 4);
    assert!(table.remove_by_path("/a/b").is_none());
    assert_eq!(table.remove(1).unwrap().path, "/a");
    assert!(table.remove(1).is_none());
    assert_eq!(table.len(), 2);
    table.insert(5, "/a/b/c/d".to_string(), true);
    table.insert(6, "/a/b/cc".to_string(), true);
    assert_eq!(table.remove_subtree("/a/b/c"), vec![3, 5]);
    assert_eq!(table.len(), 2);
    assert!(table.lookup(6).is_some());
    assert!(table.lookup(2).is_some());
    assert_eq!(table.remove_subtree("/none"), Vec::<i32>::new());
}

#[test]
fn what_the_pipeline_tells_of_itself() {
    let mut tools = tools(false);
    assert_eq!(tools.get_num_events(), 0);
    tools.next_event(raw(1, MODIFY, 0, None)).unwrap();
    tools.next_event(raw(1, MODIFY, 0, None)).unwrap();
    assert_eq!(tools.get_num_events(), 2);
    assert_eq!(tools.get_watch_path(3).as_deref(), Some("/a/sub/deep"));
    assert_eq!(tools.get_watch_path(99), None);
}

#[test]
fn watches_for_several_paths() {
    let mut tools = InotifyTools::new(Config::default()).unwrap();
    let answers = vec![
        ("/x".to_string(), Ok(Added { wd: 1, is_directory: true })),
        ("/y".to_string(), Ok(Added { wd: 2, is_directory: false })),
    ];
    assert_eq!(tools.watch_files(answers).unwrap(), vec![1, 2]);
    assert_eq!(tools.get_num_watches(), 2);
    assert_eq!(tools.watch_files(Vec::new()).unwrap(), Vec::<i32>::new());

    let answers = vec![
        ("/z".to_string(), Ok(Added { wd: 3, is_directory: true })),
        ("/gone".to_string(), Err("No such file or directory".to_string())),
        ("/late".to_string(), Ok(Added { wd: 4, is_directory: true })),
    ];
    match tools.watch_files(answers) {
        Err(InotifyToolsError::WatchAdd(path, reason)) => {
            assert_eq!(path, "/gone");
            assert_eq!(reason, "No such file or directory");
        }
        other => panic!("unexpected: {:?}", other),
    }
    assert_eq!(tools.get_num_watches(), 3);
    assert_eq!(tools.get_watch_path(3).as_deref(), Some("/z"));
    assert_eq!(tools.get_watch_path(4), None);
}
