use inotifytools::event::{Event, EventMask};
use inotifytools::stats::{sorted_order, FileStatistics, Statistics};

#[test]
fn test_statistics_creation() {
    let stats = Statistics::new();
    assert_eq!(stats.total_events, 0);
    assert!(stats.file_stats.is_empty());
}

#[test]
fn stats_test_event_recording() {
    let mut stats = Statistics::new();
    let event = Event::new(1, EventMask::modify(), 0, None, "/tmp/test.txt".to_string());

    stats.record_event(&event);

    assert_eq!(stats.total_modify, 1);
    assert_eq!(stats.total_events, 1);
    assert_eq!(stats.file_stats.len(), 1);
}

#[test]
fn test_file_statistics() {
    let mut file_stats = FileStatistics::new("/tmp/test.txt".to_string());

    file_stats.record_event(EventMask::modify());
    assert_eq!(file_stats.modify, 1);
    assert_eq!(file_stats.total, 1);

    file_stats.record_event(EventMask::create() | EventMask::modify());
    assert_eq!(file_stats.modify, 2);
    assert_eq!(file_stats.create, 1);
    assert_eq!(file_stats.total, 2);
}

fn on(path: &str, mask: EventMask) -> Event {
    Event::new(1, mask, 0, None, path.to_string())
}

#[test]
fn two_events_on_one_path() {
    let mut stats = Statistics::new();
    stats.record_event(&on("/f", EventMask::modify()));
    stats.record_event(&on("/f", EventMask::create() | EventMask::modify()));
    let file = stats.get_file_stats(&"/f".to_string()).unwrap();
    assert_eq!(file.modify, 2);
    assert_eq!(file.create, 1);
    assert_eq!(file.total, 2);
    assert_eq!(stats.total_modify, 2);
    assert_eq!(stats.total_create, 1);
    assert_eq!(stats.total_events, 2);
    assert_eq!(stats.file_stats.len(), 1);
    assert!(stats.get_file_stats(&"/g".to_string()).is_none());
}

#[test]
fn totals_agree_with_the_paths() {
    let mut stats = Statistics::new();
    let paths = ["/a", "/b", "/a/c", "/b", "/a", "/d", "/a"];
    let mut n = 0u64;
    for (i, path) in paths.iter().enumerate() {
        for bits in [0x1u32, 0x102, 0x4000_0000, 0x2fff] {
            stats.record_event(&on(path, EventMask::new(bits << (i % 2))));
            n += 1;
        }
    }
    assert_eq!(stats.total_events, n);
    assert_eq!(stats.file_stats.iter().map(|f| f.total).sum::<u64>(), n);
    assert_eq!(stats.file_stats.iter().map(|f| f.modify).sum::<u64>(), stats.total_modify);
    assert_eq!(stats.file_stats.iter().map(|f| f.unmount).sum::<u64>(), stats.total_unmount);
    assert_eq!(stats.file_stats.iter().map(|f| f.access).sum::<u64>(), stats.total_access);
    let seen: Vec<&str> = stats.file_stats.iter().map(|f| f.path.as_str()).collect();
    assert_eq!(seen, vec!["/a", "/b", "/a/c", "/d"]);
}

#[test]
fn counts_for_a_set_of_kinds() {
    let mut stats = Statistics::new();
    stats.record_event(&on("/a", EventMask::close_write() | EventMask::modify()));
    stats.record_event(&on("/b", EventMask::close_nowrite()));
    stats.record_event(&on("/b", EventMask::open()));
    assert_eq!(stats.get_total_count(EventMask::close()), 2);
    assert_eq!(stats.get_total_count(EventMask::modify()), 1);
    assert_eq!(stats.get_total_count(EventMask::new(0xffff_ffff)), 4);
    assert_eq!(stats.get_total_count(EventMask::new(0)), 0);
    let b = stats.get_file_stats(&"/b".to_string()).unwrap();
    assert_eq!(b.get_count(EventMask::close() | EventMask::open()), 2);
    assert_eq!(b.get_count(EventMask::modify()), 0);
    assert_eq!(b.count_list(), vec![0, 0, 0, 0, 1, 1, 0, 0, 0, 0, 0, 0, 0]);
    assert_eq!(stats.total_list(), vec![0, 1, 0, 1, 1, 1, 0, 0, 0, 0, 0, 0, 0]);
}

fn sample() -> Statistics {
    let mut stats = Statistics::new();
    for (path, times) in [("/one", 1), ("/three", 3), ("/uno", 1), ("/two", 2)] {
        for _ in 0..times {
            stats.record_event(&on(path, EventMask::modify()));
        }
    }
    stats.record_event(&on("/uno", EventMask::create()));
    stats.record_event(&on("/one", EventMask::create()));
    stats.record_event(&on("/one", EventMask::create()));
    stats
}

fn paths(listed: Vec<&FileStatistics>) -> Vec<String> {
    listed.into_iter().map(|f| f.path.clone()).collect()
}

#[test]
fn sorted_by_total() {
    let stats = sample();
    assert_eq!(paths(stats.get_sorted_file_stats(true)), vec!["/uno", "/two", "/one", "/three"]);
    assert_eq!(paths(stats.get_sorted_file_stats(false)), vec!["/one", "/three", "/uno", "/two"]);
    assert!(Statistics::new().get_sorted_file_stats(true).is_empty());
}

#[test]
fn sorted_by_kind() {
    let stats = sample();
    let modify = EventMask::modify();
    assert_eq!(
        paths(stats.get_sorted_file_stats_by_event(modify, true)),
        vec!["/one", "/uno", "/two", "/three"]
    );
    assert_eq!(
        paths(stats.get_sorted_file_stats_by_event(modify, false)),
        vec!["/three", "/two", "/one", "/uno"]
    );
    let create = EventMask::create();
    assert_eq!(
        paths(stats.get_sorted_file_stats_by_event(create, false)),
        vec!["/one", "/uno", "/three", "/two"]
    );
}

#[test]
fn order_is_stable() {
    assert_eq!(sorted_order(&vec![2, 1, 2, 1, 3], true), vec![1, 3, 0, 2, 4]);
    assert_eq!(sorted_order(&vec![2, 1, 2, 1, 3], false), vec![4, 0, 2, 1, 3]);
    assert_eq!(sorted_order(&vec![], true), Vec::<usize>::new());
}

#[test]
fn reset_forgets_everything() {
    let mut stats = sample();
    stats.reset();
    assert_eq!(stats.total_events, 0);
    assert_eq!(stats.total_modify, 0);
    assert_eq!(stats.total_create, 0);
    assert!(stats.file_stats.is_empty());
    assert_eq!(stats.get_total_count(EventMask::new(0xffff_ffff)), 0);
    stats.record_event(&on("/one", EventMask::modify()));
    assert_eq!(stats.get_file_stats(&"/one".to_string()).unwrap().total, 1);
}

#[test]
fn snapshot_is_a_copy() {
    let mut stats = sample();
    let copy = stats.snapshot();
    stats.record_event(&on("/new", EventMask::open()));
    assert_eq!(copy.total_events, 10);
    assert_eq!(copy.file_stats.len(), 4);
    assert_eq!(copy.total_open, 0);
    assert_eq!(stats.total_events, 11);
    let default = Statistics::default();
    assert_eq!(default.total_events, 0);
    assert!(default.file_stats.is_empty());
}

#[test]
fn counts_that_fit() {
    let mut stats = sample();
    assert!(stats.counts_fit(EventMask::new(0xffff_ffff)));
    assert!(stats.total_count_fits(EventMask::new(0xffff_ffff)));
    stats.file_stats[1].modify = u64::MAX;
    stats.file_stats[1].create = 1;
    assert!(stats.file_stats[1].count_fits(EventMask::modify()));
    assert!(!stats.file_stats[1].count_fits(EventMask::modify() | EventMask::create()));
    assert!(stats.counts_fit(EventMask::modify()));
    assert!(!stats.counts_fit(EventMask::modify() | EventMask::create()));
    stats.total_access = u64::MAX;
    assert!(!stats.total_count_fits(EventMask::access() | EventMask::modify()));
    assert!(stats.total_count_fits(EventMask::access()));
}
