use inotifytools::event::EventMask;
use inotifytools::watch::Watch;

#[test]
fn test_watch_creation() {
    let path = "/tmp/test".to_string();
    let watch = Watch::new(1, path.clone(), false);

    assert_eq!(watch.wd, 1);
    assert_eq!(watch.path, path);
    assert_eq!(watch.hit_total, 0);
}

#[test]
fn watch_test_event_recording() {
    let path = "/tmp/test".to_string();
    let mut watch = Watch::new(1, path, false);

    watch.record_event(EventMask::modify());
    assert_eq!(watch.hit_modify, 1);
    assert_eq!(watch.hit_total, 1);

    watch.record_event(EventMask::create() | EventMask::modify());
    assert_eq!(watch.hit_modify, 2);
    assert_eq!(watch.hit_create, 1);
    assert_eq!(watch.hit_total, 2);
}

#[test]
fn test_hit_count_retrieval() {
    let path = "/tmp/test".to_string();
    let mut watch = Watch::new(1, path, false);

    watch.record_event(EventMask::modify());
    watch.record_event(EventMask::create());

    assert_eq!(watch.get_hit_count(EventMask::modify()), 1);
    assert_eq!(watch.get_hit_count(EventMask::create()), 1);
    assert_eq!(watch.get_hit_count(EventMask::modify() | EventMask::create()), 2);
}

#[test]
fn watch_counts_each_kind() {
    let mut watch = Watch::new(4, "/d".to_string(), true);
    assert!(watch.is_directory);
    watch.record_event(EventMask::new(0xffff_ffff));
    assert_eq!(
        [
            watch.hit_access,
            watch.hit_modify,
            watch.hit_attrib,
            watch.hit_close_write,
            watch.hit_close_nowrite,
            watch.hit_open,
            watch.hit_moved_from,
            watch.hit_moved_to,
            watch.hit_create,
            watch.hit_delete,
            watch.hit_delete_self,
            watch.hit_move_self,
            watch.hit_unmount,
            watch.hit_total
        ],
        [1; 14]
    );
    watch.record_event(EventMask::isdir());
    assert_eq!(watch.hit_total, 2);
    assert_eq!(watch.get_hit_count(EventMask::new(0xffff_ffff)), 13);
    assert_eq!(watch.get_hit_count(EventMask::close()), 2);
    assert_eq!(watch.get_hit_count(EventMask::new(0)), 0);
}

#[test]
fn watch_reset_forgets_hits() {
    let mut watch = Watch::new(4, "/d".to_string(), true);
    watch.record_event(EventMask::close() | EventMask::unmount());
    watch.reset_stats();
    assert_eq!(watch.hit_total, 0);
    assert_eq!(watch.get_hit_count(EventMask::new(0xffff_ffff)), 0);
    assert_eq!(watch.wd, 4);
    assert_eq!(watch.path, "/d");
    assert!(watch.is_directory);
}
