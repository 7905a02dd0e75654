use inotifytools::error::InotifyToolsError;
use inotifytools::path::{join, under};
use inotifytools::text::{
    chars_of, push_decimal, push_left_aligned, push_repeated, push_right_aligned,
    push_signed_decimal, str_equal, text_of, trim_range, white_space,
};

#[test]
fn characters_of_a_text() {
    assert_eq!(chars_of("aé\u{1f600}"), vec!['a', 'é', '\u{1f600}']);
    assert_eq!(chars_of(""), Vec::<char>::new());
    let chars = chars_of("héllo");
    assert_eq!(text_of(&chars, 1, 4), "éll");
    assert_eq!(text_of(&chars, 2, 2), "");
}

#[test]
fn equal_texts() {
    assert!(str_equal("", ""));
    assert!(str_equal("añb", "añb"));
    assert!(!str_equal("a", "b"));
    assert!(!str_equal("a", "ab"));
    assert!(!str_equal("é", "e\u{301}"));
}

#[test]
fn white_space_is_the_unicode_property() {
    for code in 0u32..0x11_0000 {
        if let Some(c) = char::from_u32(code) {
            assert_eq!(white_space(c), c.is_whitespace(), "U+{:04X}", code);
        }
    }
}

#[test]
fn trimming() {
    for text in ["", " ", "a", "  a b \t", "\u{3000}x\u{85}", " \n ", "ab  ", "  ab", "é "] {
        let chars = chars_of(text);
        let (a, b) = trim_range(&chars, 0, chars.len());
        assert_eq!(text_of(&chars, a, b), text.trim());
    }
    let chars = chars_of("ab  cd  ef");
    assert_eq!(trim_range(&chars, 2, 8), (4, 6));
    assert_eq!(trim_range(&chars, 2, 4), (4, 4));
}

#[test]
fn decimal_numbers() {
    for n in [0u64, 1, 9, 10, 11, 99, 100, 12345, 1_000_000, u64::MAX] {
        let mut out = String::from("n=");
        push_decimal(&mut out, n);
        assert_eq!(out, format!("n={}", n));
    }
    for n in [0i64, 1, -1, -9, -10, 42, i32::MIN as i64, i32::MAX as i64, i64::MIN, i64::MAX] {
        let mut out = String::new();
        push_signed_decimal(&mut out, n);
        assert_eq!(out, format!("{}", n));
    }
}

#[test]
fn padding() {
    let mut out = String::from("|");
    push_left_aligned(&mut out, "ab", 5);
    out.push('|');
    push_right_aligned(&mut out, "cd", 5);
    out.push('|');
    push_left_aligned(&mut out, "toolong", 3);
    out.push('|');
    push_right_aligned(&mut out, "ééé", 4);
    out.push('|');
    push_repeated(&mut out, '-', 3);
    push_repeated(&mut out, 'x', 0);
    assert_eq!(out, "|ab   |   cd|toolong| ééé|---");
}

#[test]
fn joining_paths() {
    assert_eq!(join("/a", "b"), "/a/b");
    assert_eq!(join("/a/", "b"), "/a/b");
    assert_eq!(join("", "b"), "b");
    assert_eq!(join("/a", "/b"), "/b");
    assert_eq!(join("/a", ""), "/a/");
    assert_eq!(join("/", "b"), "/b");
    for (base, name) in [("/a", "b"), ("/a/", "b"), ("", "b"), ("/a", "/b"), ("/a", ""), ("rel", "x y")] {
        assert_eq!(
            join(base, name),
            std::path::Path::new(base).join(name).to_string_lossy()
        );
    }
}

#[test]
fn paths_below_a_directory() {
    assert!(under("/a/sub", "/a/sub"));
    assert!(under("/a/sub/x", "/a/sub"));
    assert!(under("/a/sub/x/y", "/a/sub"));
    assert!(under("/a/sub/x", "/a/sub/"));
    assert!(!under("/a/subway", "/a/sub"));
    assert!(!under("/a", "/a/sub"));
    assert!(!under("/b/sub", "/a/sub"));
    assert!(!under("/a/sub", ""));
    assert!(under("", ""));
    assert!(under("/x", "/"));
}

#[test]
fn messages() {
    let cases = [
        (InotifyToolsError::InotifyInit("no".to_string()), "Failed to initialize inotify: no"),
        (
            InotifyToolsError::WatchAdd("/p".to_string(), "denied".to_string()),
            "Failed to add watch for /p: denied",
        ),
        (
            InotifyToolsError::ReadDir("/d".to_string(), "gone".to_string()),
            "Failed to read directory /d: gone",
        ),
        (InotifyToolsError::ReadEvents("eof".to_string()), "Failed to read events: eof"),
        (InotifyToolsError::LockError, "Lock error occurred"),
        (InotifyToolsError::InvalidEventString("FOO".to_string()), "Invalid event string: FOO"),
        (InotifyToolsError::WatchDescriptorNotFound(-3), "Watch descriptor -3 not found"),
        (InotifyToolsError::PathNotFound("/p".to_string()), "Path not found: /p"),
        (
            InotifyToolsError::PermissionDenied("/p".to_string()),
            "Permission denied for path: /p",
        ),
        (InotifyToolsError::InvalidTimeout(-17), "Invalid timeout value: -17"),
        (InotifyToolsError::TimeFormat("%Q".to_string()), "Invalid time format: %Q"),
    ];
    for (error, text) in cases {
        assert_eq!(error.message(), text);
    }
    let error = regex::Regex::new("(").unwrap_err();
    let text = error.to_string();
    assert!(!text.is_empty());
    assert_eq!(
        InotifyToolsError::Regex(error).message(),
        format!("Regular expression error: {}", text)
    );
}
