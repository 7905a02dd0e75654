use inotifytools::pipeline::{Added, Config, InotifyTools};
use inotifytools::walk::{DirEntry, Listing, TreeWalk, WalkAnswer, WalkRequest};
use inotifytools::InotifyToolsError;

/// A tree as a list of directories with their entries; what is not listed
/// is a file.
struct Tree {
    dirs: Vec<(&'static str, Vec<&'static str>)>,
    unwatchable: Vec<&'static str>,
    unreadable: Vec<&'static str>,
    asked: Vec<String>,
    next_wd: i32,
}

impl Tree {
    fn new(dirs: Vec<(&'static str, Vec<&'static str>)>) -> Tree {
        Tree { dirs, unwatchable: Vec::new(), unreadable: Vec::new(), asked: Vec::new(), next_wd: 1 }
    }

    fn is_dir(&self, path: &str) -> bool {
        self.dirs.iter().any(|(dir, _)| *dir == path)
    }

    fn answer(&mut self, request: &WalkRequest) -> WalkAnswer {
        match request {
            WalkRequest::AddWatch(path) => {
                self.asked.push(format!("watch {}", path));
                if self.unwatchable.contains(&path.as_str()) {
                    WalkAnswer::AddFailed("Permission denied".to_string())
                } else {
                    let wd = self.next_wd;
                    self.next_wd += 1;
                    WalkAnswer::Added(Added { wd, is_directory: self.is_dir(path) })
                }
            }
            WalkRequest::ListDir(path) => {
                self.asked.push(format!("list {}", path));
                let names = self.dirs.iter().find(|(dir, _)| dir == path).map(|(_, e)| e.clone());
                let mut entries = Vec::new();
                for name in names.unwrap_or_default() {
                    let path = format!("{}/{}", path, name);
                    let is_dir = self.is_dir(&path);
                    entries.push(DirEntry { path, is_dir });
                }
                let failure = if self.unreadable.contains(&path.as_str()) {
                    Some("Input/output error".to_string())
                } else {
                    None
                };
                WalkAnswer::Listed(Listing { entries, failure })
            }
            other => panic!("unexpected: {:?}", other),
        }
    }

    fn establish(
        &mut self,
        tools: &mut InotifyTools,
        root: &str,
        exclude: &[&str],
    ) -> Result<Vec<i32>, InotifyToolsError> {
        let exclude = exclude.iter().map(|p| p.to_string()).collect();
        let (mut walk, mut request) = tools.watch_recursively_with_exclude(root.to_string(), exclude);
        loop {
            match request {
                WalkRequest::Done(ids) => return Ok(ids),
                WalkRequest::Failed(error) => return Err(error),
                other => {
                    let answer = self.answer(&other);
                    assert!(walk.waits_for(&answer));
                    request = walk.step(tools, answer);
                }
            }
        }
    }
}

#[test]
fn excluded_directories_are_neither_watched_nor_entered() {
    let mut tree = Tree::new(vec![
        ("/r", vec!["keep", "skip", "file"]),
        ("/r/keep", vec![]),
        ("/r/skip", vec!["below"]),
        ("/r/skip/below", vec![]),
    ]);
    let mut tools = InotifyTools::new(Config::default()).unwrap();
    let ids = tree.establish(&mut tools, "/r", &["skip"]).unwrap();
    assert_eq!(ids, vec![1, 2]);
    assert_eq!(tree.asked, vec!["watch /r", "list /r", "watch /r/keep", "list /r/keep"]);
    assert_eq!(tools.get_num_watches(), 2);
}

#[test]
fn the_tree_is_walked_depth_first() {
    let mut tree = Tree::new(vec![
        ("/r", vec!["a", "f", "b"]),
        ("/r/a", vec!["x", "y"]),
        ("/r/a/x", vec!["deep"]),
        ("/r/a/x/deep", vec![]),
        ("/r/a/y", vec![]),
        ("/r/b", vec![]),
    ]);
    let mut tools = InotifyTools::new(Config::default()).unwrap();
    let ids = tree.establish(&mut tools, "/r", &[]).unwrap();
    assert_eq!(ids, vec![1, 2, 3, 4, 5, 6]);
    let watched: Vec<&str> =
        tree.asked.iter().filter_map(|a| a.strip_prefix("watch ")).collect();
    assert_eq!(watched, vec!["/r", "/r/a", "/r/a/x", "/r/a/x/deep", "/r/a/y", "/r/b"]);
    assert_eq!(tools.get_num_watches(), 6);
}

#[test]
fn a_file_is_watched_alone() {
    let mut tree = Tree::new(vec![("/r", vec!["f"])]);
    let mut tools = InotifyTools::new(Config::default()).unwrap();
    let ids = tree.establish(&mut tools, "/r/f", &[]).unwrap();
    assert_eq!(ids, vec![1]);
    assert_eq!(tree.asked, vec!["watch /r/f"]);
}

#[test]
fn a_pattern_that_is_no_expression_excludes_nothing() {
    let mut tree = Tree::new(vec![("/r", vec!["a"]), ("/r/a", vec![])]);
    let mut tools = InotifyTools::new(Config::default()).unwrap();
    assert_eq!(tree.establish(&mut tools, "/r", &["("]).unwrap(), vec![1, 2]);
}

#[test]
fn the_root_is_watched_whatever_the_patterns() {
    let mut tree = Tree::new(vec![("/r", vec!["a"]), ("/r/a", vec![])]);
    let mut tools = InotifyTools::new(Config::default()).unwrap();
    assert_eq!(tree.establish(&mut tools, "/r", &["^/r"]).unwrap(), vec![1]);
    assert_eq!(tree.asked, vec!["watch /r", "list /r"]);
}

#[test]
fn a_watch_that_cannot_be_made_ends_the_walk() {
    let mut tree = Tree::new(vec![
        ("/r", vec!["a", "b", "c"]),
        ("/r/a", vec![]),
        ("/r/b", vec![]),
        ("/r/c", vec![]),
    ]);
    tree.unwatchable.push("/r/b");
    let mut tools = InotifyTools::new(Config::default()).unwrap();
    match tree.establish(&mut tools, "/r", &[]) {
        Err(InotifyToolsError::WatchAdd(path, reason)) => {
            assert_eq!(path, "/r/b");
            assert_eq!(reason, "Permission denied");
        }
        other => panic!("unexpected: {:?}", other),
    }
    assert_eq!(tree.asked.last().unwrap(), "watch /r/b");
    assert_eq!(tools.get_num_watches(), 2);

    let mut tree = Tree::new(vec![("/r", vec![])]);
    tree.unwatchable.push("/r");
    let mut tools = InotifyTools::new(Config::default()).unwrap();
    assert!(matches!(
        tree.establish(&mut tools, "/r", &[]),
        Err(InotifyToolsError::WatchAdd(_, _))
    ));
    assert_eq!(tools.get_num_watches(), 0);
}

#[test]
fn a_listing_that_breaks_off_ends_the_walk() {
    let mut tree = Tree::new(vec![
        ("/r", vec!["a", "b"]),
        ("/r/a", vec!["x"]),
        ("/r/a/x", vec![]),
        ("/r/b", vec![]),
    ]);
    tree.unreadable.push("/r/a");
    let mut tools = InotifyTools::new(Config::default()).unwrap();
    match tree.establish(&mut tools, "/r", &[]) {
        Err(InotifyToolsError::ReadDir(path, reason)) => {
            assert_eq!(path, "/r/a");
            assert_eq!(reason, "Input/output error");
        }
        other => panic!("unexpected: {:?}", other),
    }
    assert_eq!(
        tree.asked,
        vec!["watch /r", "list /r", "watch /r/a", "list /r/a", "watch /r/a/x", "list /r/a/x"]
    );
    assert_eq!(tools.get_num_watches(), 3);
}

#[test]
fn a_walk_waits_for_the_answer_to_its_request() {
    let (mut walk, request) = TreeWalk::start("/r".to_string(), Vec::new());
    assert!(matches!(request, WalkRequest::AddWatch(ref p) if p == "/r"));
    let listed = WalkAnswer::Listed(Listing { entries: Vec::new(), failure: None });
    let added = WalkAnswer::Added(Added { wd: 1, is_directory: true });
    assert!(!walk.waits_for(&listed));
    assert!(walk.waits_for(&added));
    assert!(walk.waits_for(&WalkAnswer::AddFailed("no".to_string())));
    let mut tools = InotifyTools::new(Config::default()).unwrap();
    let request = walk.step(&mut tools, added);
    assert!(matches!(request, WalkRequest::ListDir(ref p) if p == "/r"));
    assert!(walk.waits_for(&listed));
    assert!(!walk.waits_for(&WalkAnswer::Added(Added { wd: 2, is_directory: true })));
    let request = walk.step(&mut tools, listed);
    assert!(matches!(request, WalkRequest::Done(ref ids) if ids == &vec![1]));
    assert!(!walk.waits_for(&WalkAnswer::AddFailed("no".to_string())));
}
