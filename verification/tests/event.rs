use inotifytools::event::{
    events_to_str, events_to_str_sep, str_to_events, str_to_events_sep, Event, EventMask,
    Timestamp, ALL_EVENTS, ALL_FLAGS, CLOSE, ISDIR, MODIFY, MOVE, Q_OVERFLOW,
};
use inotifytools::InotifyToolsError;

#[test]
fn test_event_mask_operations() {
    let mask1 = EventMask::modify();
    let mask2 = EventMask::create();
    let combined = mask1 | mask2;

    assert!(combined.contains(EventMask::modify()));
    assert!(combined.contains(EventMask::create()));
    assert!(!combined.contains(EventMask::delete()));
}

#[test]
fn event_test_str_to_events() {
    let result = str_to_events("modify,create,delete").unwrap();
    assert!(result.contains(EventMask::modify()));
    assert!(result.contains(EventMask::create()));
    assert!(result.contains(EventMask::delete()));
}

#[test]
fn test_events_to_str() {
    let events = EventMask::modify() | EventMask::create();
    let result = events_to_str(events);
    assert!(result.contains("MODIFY"));
    assert!(result.contains("CREATE"));
}

#[test]
fn mask_keeps_its_bits() {
    assert_eq!(EventMask::new(0x1234).mask(), 0x1234);
    assert_eq!(EventMask::modify().mask(), 0x2);
    assert_eq!(EventMask::isdir().mask(), 0x4000_0000);
    assert_eq!(EventMask::all_events().mask(), 0xfff);
    assert_eq!(EventMask::close().mask(), 0x18);
    assert_eq!(EventMask::move_any().mask(), 0xc0);
}

#[test]
fn union_and_intersection() {
    let a = EventMask::new(0b0110);
    let b = EventMask::new(0b0011);
    assert_eq!(a.union(b), EventMask::new(0b0111));
    assert_eq!(a | b, EventMask::new(0b0111));
    assert_eq!(a & b, EventMask::new(0b0010));
}

#[test]
fn contains_asks_for_a_common_kind() {
    let close = EventMask::close();
    assert!(close.contains(EventMask::close_write()));
    assert!(EventMask::close_write().contains(close));
    assert!(!close.contains(EventMask::open()));
    assert!(!EventMask::new(0).contains(EventMask::new(0)));
}

#[test]
fn composites_are_unions_of_kinds() {
    assert_eq!(CLOSE, EventMask::close_write().mask() | EventMask::close_nowrite().mask());
    assert_eq!(MOVE, EventMask::moved_from().mask() | EventMask::moved_to().mask());
    let mut all = 0u32;
    for bit in 0..12 {
        all |= 1 << bit;
    }
    assert_eq!(ALL_EVENTS, all);
    assert_eq!(ALL_FLAGS, ALL_EVENTS | 0x2000 | 0x4000 | 0x8000 | ISDIR);
}

#[test]
fn watch_mask_holds_the_twelve_kinds() {
    let mask = EventMask::modify() | EventMask::create() | EventMask::isdir() | EventMask::unmount();
    let watch = mask.to_watch_mask();
    assert_eq!(watch, inotify::WatchMask::MODIFY | inotify::WatchMask::CREATE);
    assert_eq!(watch.bits(), 0x102);
    assert_eq!(EventMask::new(0).to_watch_mask(), inotify::WatchMask::empty());
    assert_eq!(EventMask::all_events().to_watch_mask(), inotify::WatchMask::ALL_EVENTS);
}

#[test]
fn source_mask_keeps_the_named_flags() {
    let raw = (inotify::EventMask::CREATE | inotify::EventMask::ISDIR).bits();
    assert_eq!(EventMask::from_inotify_event_mask(raw), EventMask::create() | EventMask::isdir());
    assert_eq!(EventMask::from_inotify_event_mask(0xffff_ffff).mask(), ALL_FLAGS);
    assert_eq!(
        EventMask::from_inotify_event_mask(inotify::EventMask::Q_OVERFLOW.bits()).mask(),
        Q_OVERFLOW
    );
}

#[test]
fn names_in_canonical_order() {
    let all = EventMask::new(0xffff_ffff);
    assert_eq!(
        events_to_str(all),
        "ACCESS,MODIFY,ATTRIB,CLOSE_WRITE,CLOSE_NOWRITE,OPEN,MOVED_FROM,MOVED_TO,CREATE,DELETE,DELETE_SELF,MOVE_SELF,UNMOUNT"
    );
    assert_eq!(events_to_str(EventMask::create() | EventMask::modify()), "MODIFY,CREATE");
    assert_eq!(events_to_str_sep(EventMask::create() | EventMask::modify(), '|'), "MODIFY|CREATE");
}

#[test]
fn no_kind_is_none() {
    assert_eq!(events_to_str(EventMask::new(0)), "NONE");
    assert_eq!(events_to_str(EventMask::isdir()), "NONE");
    assert_eq!(events_to_str_sep(EventMask::q_overflow() | EventMask::ignored(), ';'), "NONE");
}

#[test]
fn empty_list_is_the_empty_set() {
    assert_eq!(str_to_events("").unwrap(), EventMask::new(0));
    assert_eq!(str_to_events_sep("", ':').unwrap(), EventMask::new(0));
}

#[test]
fn names_are_trimmed_and_upper_cased() {
    assert_eq!(str_to_events("  modify , Create\t").unwrap().mask(), 0x102);
    assert_eq!(str_to_events_sep("open:Close", ':').unwrap().mask(), 0x38);
    assert_eq!(str_to_events("all_events").unwrap().mask(), ALL_EVENTS);
    assert_eq!(str_to_events("move").unwrap().mask(), MOVE);
    assert_eq!(str_to_events("\u{a0}unmount\u{2003}").unwrap(), EventMask::unmount());
}

#[test]
fn unknown_name_is_an_error() {
    match str_to_events("modify,bogus,nonsense") {
        Err(InotifyToolsError::InvalidEventString(name)) => assert_eq!(name, "BOGUS"),
        other => panic!("unexpected: {:?}", other),
    }
    match str_to_events("modify,") {
        Err(InotifyToolsError::InvalidEventString(name)) => assert_eq!(name, ""),
        other => panic!("unexpected: {:?}", other),
    }
    match str_to_events(" ") {
        Err(InotifyToolsError::InvalidEventString(name)) => assert_eq!(name, ""),
        other => panic!("unexpected: {:?}", other),
    }
    assert!(str_to_events("isdir").is_err());
    assert!(str_to_events("NONE").is_err());
    assert!(str_to_events_sep("modify,create", ';').is_err());
}

#[test]
fn names_round_trip() {
    for bits in 1u32..0x1000 {
        let mask = EventMask::new(bits);
        assert_eq!(str_to_events(&events_to_str(mask)).unwrap(), mask);
    }
    for sep in [',', ' ', ';', 'a', '\u{17f}'] {
        let mask = EventMask::new(0x2fff);
        assert_eq!(str_to_events_sep(&events_to_str_sep(mask, sep), sep).unwrap(), mask);
        let mask = EventMask::new(0x4000_2c01);
        assert_eq!(
            str_to_events_sep(&events_to_str_sep(mask, sep), sep).unwrap(),
            EventMask::new(0x2c01)
        );
    }
}

#[test]
fn composite_names_expand() {
    let close = str_to_events("CLOSE").unwrap();
    assert_eq!(events_to_str(close), "CLOSE_WRITE,CLOSE_NOWRITE");
    assert_eq!(str_to_events(&events_to_str(close)).unwrap(), close);
    let all = str_to_events("ALL_EVENTS").unwrap();
    assert_eq!(
        events_to_str(all),
        "ACCESS,MODIFY,ATTRIB,CLOSE_WRITE,CLOSE_NOWRITE,OPEN,MOVED_FROM,MOVED_TO,CREATE,DELETE,DELETE_SELF,MOVE_SELF"
    );
}

#[test]
fn event_keeps_what_it_is_given() {
    let event = Event::new(
        7,
        EventMask::modify(),
        9,
        Some("a.txt".to_string()),
        "/tmp/a.txt".to_string(),
    );
    assert_eq!(event.wd, 7);
    assert_eq!(event.mask, EventMask::modify());
    assert_eq!(event.cookie, 9);
    assert_eq!(event.name.as_deref(), Some("a.txt"));
    assert_eq!(event.path, "/tmp/a.txt");
    assert!(event.timestamp.nanos < 1_000_000_000);
    assert!(event.timestamp.secs > 1_000_000_000);
    assert!(!event.is_dir());

    let at = Timestamp { secs: 5, nanos: 6 };
    let event = Event::at(1, EventMask::isdir() | EventMask::create(), 0, None, "/d".to_string(), at);
    assert_eq!(event.timestamp, at);
    assert!(event.is_dir());
}

#[test]
fn event_type_names() {
    let event = Event::new(1, EventMask::new(MODIFY | 0x100 | ISDIR), 0, None, "/x".to_string());
    assert_eq!(event.event_type_str(), vec!["MODIFY", "CREATE"]);
    let event = Event::new(1, EventMask::isdir(), 0, None, "/x".to_string());
    assert_eq!(event.event_type_str(), vec!["UNKNOWN"]);
    let event = Event::new(1, EventMask::unmount(), 0, None, "/x".to_string());
    assert_eq!(event.event_type_str(), vec!["UNMOUNT"]);
}

#[test]
fn source_event_is_resolved_against_its_watch() {
    let event =
        Event::from_inotify_event(3, 0x4000_0100, 0, Some("sub".to_string()), "/a".to_string())
            .unwrap();
    assert_eq!(event.wd, 3);
    assert_eq!(event.path, "/a/sub");
    assert_eq!(event.name.as_deref(), Some("sub"));
    assert_eq!(event.mask, EventMask::create() | EventMask::isdir());

    let event = Event::from_inotify_event(3, 0x400, 0, None, "/a".to_string()).unwrap();
    assert_eq!(event.path, "/a");
    assert_eq!(event.name, None);

    let event =
        Event::from_inotify_event(3, 0x2, 0, Some("f".to_string()), "/a/".to_string()).unwrap();
    assert_eq!(event.path, "/a/f");
    let event =
        Event::from_inotify_event(3, 0x2, 0, Some("f".to_string()), "".to_string()).unwrap();
    assert_eq!(event.path, "f");
    let event =
        Event::from_inotify_event(3, 0x2, 0, Some("/abs".to_string()), "/a".to_string()).unwrap();
    assert_eq!(event.path, "/abs");
}
