use inotifytools::pipeline::{Config, InotifyTools};
use inotifytools::{events_to_str, str_to_events, EventMask};

#[test]
fn test_inotifytools_creation() {
    let config = Config::default();
    let result = InotifyTools::new(config);
    assert!(result.is_ok());

    let tools = result.unwrap();
    assert!(tools.is_initialized());
    assert_eq!(tools.get_num_watches(), 0);
}

#[test]
fn lib_test_str_to_events() {
    let result = str_to_events("modify,create,delete");
    assert!(result.is_ok());

    let events = result.unwrap();
    assert!(events.contains(EventMask::modify()));
    assert!(events.contains(EventMask::create()));
    assert!(events.contains(EventMask::delete()));
}

#[test]
fn names_at_the_crate_root() {
    assert_eq!(events_to_str(EventMask::delete() | EventMask::open()), "OPEN,DELETE");
    assert_eq!(str_to_events("OPEN,DELETE").unwrap(), EventMask::delete() | EventMask::open());
    assert!(str_to_events("open delete").is_err());
}

#[test]
fn default_configuration() {
    let config = Config::default();
    assert!(!config.fanotify);
    assert!(!config.filesystem_watch);
    assert!(!config.verbose);
}
