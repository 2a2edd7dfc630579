use rotatelogs::naming::file_path;
use rotatelogs::plan::FileOp;
use rotatelogs::rotator::LogRotator;
use rotatelogs::scan::count_lines;
use std::collections::BTreeMap;

/// Files in memory, with the handle of the active file: what a caller of the
/// rotator does on disk, done on a map from path to content.
struct Store {
    files: BTreeMap<String, Vec<u8>>,
    open: bool,
}

impl Store {
    fn empty() -> Store {
        Store { files: BTreeMap::new(), open: false }
    }

    fn with_file(path: &str, content: &str) -> Store {
        let mut store = Store::empty();
        store.files.insert(path.to_string(), content.as_bytes().to_vec());
        store
    }

    /// Opens or creates the file at `path` and hands it to a new rotator.
    fn start(
        &mut self,
        path: &str,
        max_size: u64,
        max_lines: Option<u64>,
        max_count: usize,
    ) -> LogRotator {
        assert!(!self.open);
        let existing = self.files.entry(path.to_string()).or_default().clone();
        self.open = true;
        LogRotator::new(path, max_size, max_lines, max_count, &existing)
    }

    fn perform(&mut self, rotator: &LogRotator, plan: Vec<FileOp>) {
        for op in plan {
            match op {
                FileOp::Append { data } => {
                    assert!(self.open);
                    self.files
                        .entry(rotator.file_path(0))
                        .or_default()
                        .extend_from_slice(&data);
                }
                FileOp::Close => {
                    assert!(self.open);
                    self.open = false;
                }
                FileOp::Remove { index } => {
                    assert!(!self.open);
                    self.files.remove(&rotator.file_path(index));
                }
                FileOp::Rename { from, to } => {
                    assert!(!self.open);
                    if let Some(content) = self.files.remove(&rotator.file_path(from)) {
                        self.files.insert(rotator.file_path(to), content);
                    }
                }
                FileOp::Copy { from, to } => {
                    assert!(!self.open);
                    if let Some(content) = self.files.get(&rotator.file_path(from)).cloned() {
                        self.files.insert(rotator.file_path(to), content);
                    }
                }
                FileOp::Truncate { index } => {
                    assert!(!self.open);
                    if let Some(content) = self.files.get_mut(&rotator.file_path(index)) {
                        content.clear();
                    }
                }
                FileOp::Open => {
                    assert!(!self.open);
                    self.files.entry(rotator.file_path(0)).or_default();
                    self.open = true;
                }
            }
        }
    }

    fn write_line(&mut self, rotator: &mut LogRotator, line: &str) {
        let plan = rotator.write_line(line);
        self.perform(rotator, plan);
    }

    fn rotate(&mut self, rotator: &mut LogRotator) {
        let plan = rotator.rotate();
        self.perform(rotator, plan);
    }

    fn has_file(&self, path: &str) -> bool {
        self.files.contains_key(path)
    }

    fn read_to_string(&self, path: &str) -> String {
        String::from_utf8(self.files[path].clone()).unwrap()
    }
}

#[test]
fn test_size_based_rotation() {
    let mut store = Store::empty();
    let mut rotator = store.start("test.log", 20, None, 3);

    store.write_line(&mut rotator, "this is a very long line that exceeds the size limit");

    assert!(store.has_file("test.log"));
    assert!(store.has_file("test.log.1"));

    let rotated_content = store.read_to_string("test.log.1");
    assert!(rotated_content.contains("this is a very long line that exceeds the size limit"));

    let current_content = store.read_to_string("test.log");
    assert!(current_content.is_empty() || current_content.len() < 20);
}

#[test]
fn test_default_behavior_no_rotation() {
    let mut store = Store::empty();
    let mut rotator = store.start("test.log", 0, None, 5);

    store.write_line(&mut rotator, "line 1");
    store.write_line(&mut rotator, "line 2");
    store.write_line(&mut rotator, "line 3");

    assert!(store.has_file("test.log"));
    assert!(!store.has_file("test.log.1"));

    let content = store.read_to_string("test.log");
    assert!(content.contains("line 1"));
    assert!(content.contains("line 2"));
    assert!(content.contains("line 3"));
}

#[test]
fn test_line_based_rotation() {
    let mut store = Store::empty();
    let mut rotator = store.start("test.log", 0, Some(2), 3);

    store.write_line(&mut rotator, "line 1");
    store.write_line(&mut rotator, "line 2");
    store.write_line(&mut rotator, "line 3");

    assert!(store.has_file("test.log"));
    assert!(store.has_file("test.log.1"));

    let rotated_content = store.read_to_string("test.log.1");
    assert!(rotated_content.contains("line 1"));
    assert!(rotated_content.contains("line 2"));
}

#[test]
fn test_combined_size_and_line_limits() {
    let mut store = Store::empty();
    let mut rotator = store.start("test.log", 50, Some(3), 3);

    store.write_line(&mut rotator, "this is a very long line that exceeds the size limit");

    assert!(store.has_file("test.log"));
    assert!(store.has_file("test.log.1"));

    store.write_line(&mut rotator, "short line");
    store.write_line(&mut rotator, "another short line");
    store.write_line(&mut rotator, "third short line");
    store.write_line(&mut rotator, "fourth line should trigger rotation");

    assert!(store.has_file("test.log.2"));
}

#[test]
fn test_rotation_count_limit() {
    let mut store = Store::empty();
    let mut rotator = store.start("test.log", 10, None, 2);

    for i in 1..=5 {
        store.write_line(&mut rotator, &format!("line {} that exceeds size limit", i));
    }

    assert!(store.has_file("test.log"));
    assert!(store.has_file("test.log.1"));
    assert!(store.has_file("test.log.2"));
    assert!(!store.has_file("test.log.3"));
}

#[test]
fn test_rotate_on_startup() {
    let mut store = Store::with_file("test.log", "existing content\n");
    let mut rotator = store.start("test.log", 0, None, 3);

    store.write_line(&mut rotator, "new content");

    store.rotate(&mut rotator);

    assert!(store.has_file("test.log"));
    assert!(store.has_file("test.log.1"));

    let rotated_content = store.read_to_string("test.log.1");
    assert!(rotated_content.contains("new content"));
}

#[test]
fn test_existing_file_line_counting() {
    let mut store = Store::with_file("test.log", "line 1\nline 2\nline 3\n");
    let mut rotator = store.start("test.log", 0, Some(5), 3);

    store.write_line(&mut rotator, "line 4");

    assert!(store.has_file("test.log"));
    assert!(!store.has_file("test.log.1"));

    store.write_line(&mut rotator, "line 5");

    assert!(store.has_file("test.log.1"));

    let rotated_content = store.read_to_string("test.log.1");
    assert!(rotated_content.contains("line 4"));
    assert!(rotated_content.contains("line 5"));
}

#[test]
fn test_empty_file_creation() {
    let mut store = Store::empty();
    let mut rotator = store.start("test.log", 0, None, 3);

    assert!(store.has_file("test.log"));

    store.write_line(&mut rotator, "test line");

    let content = store.read_to_string("test.log");
    assert!(content.contains("test line"));
}

#[test]
fn new_rotator_starts_at_zero_on_an_empty_file() {
    let rotator = LogRotator::new("app.log", 100, Some(7), 4, b"");
    assert_eq!(rotator.base_path(), "app.log");
    assert_eq!(rotator.max_size(), 100);
    assert_eq!(rotator.max_lines(), Some(7));
    assert_eq!(rotator.max_count(), 4);
    assert_eq!(rotator.current_size(), 0);
    assert_eq!(rotator.current_lines(), 0);
}

#[test]
fn new_rotator_counts_the_existing_content() {
    let rotator = LogRotator::new("app.log", 0, None, 5, b"one\ntwo\nthree\n");
    assert_eq!(rotator.current_size(), 14);
    assert_eq!(rotator.current_lines(), 3);
}

#[test]
fn unterminated_tail_counts_as_bytes_but_not_as_a_line() {
    let rotator = LogRotator::new("app.log", 0, None, 5, b"one\ntwo\npart");
    assert_eq!(rotator.current_size(), 12);
    assert_eq!(rotator.current_lines(), 2);
}

#[test]
fn count_lines_counts_newline_bytes() {
    assert_eq!(count_lines(b""), 0);
    assert_eq!(count_lines(b"no newline"), 0);
    assert_eq!(count_lines(b"\n"), 1);
    assert_eq!(count_lines(b"\n\n\n"), 3);
    assert_eq!(count_lines(b"a\nb\nc"), 2);
    assert_eq!(count_lines(b"a\r\nb\r\n"), 2);
}

#[test]
fn file_path_of_the_active_file_is_the_base_path() {
    assert_eq!(file_path("logs/app.log", 0), "logs/app.log");
    assert_eq!(file_path("", 0), "");
}

#[test]
fn file_path_of_a_backup_has_the_decimal_suffix() {
    assert_eq!(file_path("app.log", 1), "app.log.1");
    assert_eq!(file_path("app.log", 9), "app.log.9");
    assert_eq!(file_path("app.log", 10), "app.log.10");
    assert_eq!(file_path("app.log", 105), "app.log.105");
    assert_eq!(file_path("app.log", 12345), "app.log.12345");
    assert_eq!(file_path("", 7), ".7");
    assert_eq!(file_path("app.log", usize::MAX), format!("app.log.{}", usize::MAX));
}

#[test]
fn file_paths_of_different_files_differ() {
    let rotator = LogRotator::new("app.log", 0, None, 5, b"");
    let mut seen: Vec<String> = Vec::new();
    for index in 0..=120 {
        let path = rotator.file_path(index);
        assert!(!seen.contains(&path));
        seen.push(path);
    }
}

#[test]
fn rotate_plans_the_shift_from_the_oldest_backup_down() {
    let mut rotator = LogRotator::new("app.log", 0, None, 3, b"some\ncontent\n");
    let plan = rotator.rotate();
    assert_eq!(
        plan,
        vec![
            FileOp::Close,
            FileOp::Remove { index: 3 },
            FileOp::Rename { from: 2, to: 3 },
            FileOp::Rename { from: 1, to: 2 },
            FileOp::Copy { from: 0, to: 1 },
            FileOp::Truncate { index: 0 },
            FileOp::Open,
        ]
    );
    assert_eq!(rotator.current_size(), 0);
    assert_eq!(rotator.current_lines(), 0);
    assert_eq!(rotator.max_count(), 3);
}

#[test]
fn rotate_with_one_backup_only_drops_and_promotes() {
    let mut rotator = LogRotator::new("app.log", 0, None, 1, b"");
    assert_eq!(
        rotator.rotate(),
        vec![
            FileOp::Close,
            FileOp::Remove { index: 1 },
            FileOp::Copy { from: 0, to: 1 },
            FileOp::Truncate { index: 0 },
            FileOp::Open,
        ]
    );
}

#[test]
fn rotate_with_no_backups_kept_still_promotes_the_active_file() {
    let mut store = Store::with_file("app.log", "old\n");
    let mut rotator = store.start("app.log", 0, None, 0);
    let plan = rotator.rotate();
    assert_eq!(
        plan,
        vec![
            FileOp::Close,
            FileOp::Copy { from: 0, to: 1 },
            FileOp::Truncate { index: 0 },
            FileOp::Open,
        ]
    );
    store.perform(&rotator, plan);
    assert_eq!(store.read_to_string("app.log"), "");
    assert_eq!(store.read_to_string("app.log.1"), "old\n");
}

#[test]
fn write_line_below_the_thresholds_only_appends() {
    let mut rotator = LogRotator::new("app.log", 100, Some(10), 3, b"");
    let plan = rotator.write_line("line 1");
    assert_eq!(plan, vec![FileOp::Append { data: b"line 1\n".to_vec() }]);
    assert_eq!(rotator.current_size(), 7);
    assert_eq!(rotator.current_lines(), 1);
}

#[test]
fn write_line_counts_bytes_not_characters() {
    let mut rotator = LogRotator::new("app.log", 0, None, 3, b"");
    let plan = rotator.write_line("h\u{e9}llo \u{2603}");
    assert_eq!(plan, vec![FileOp::Append { data: "h\u{e9}llo \u{2603}\n".as_bytes().to_vec() }]);
    assert_eq!(rotator.current_size(), 11);
    assert_eq!(rotator.current_lines(), 1);
}

#[test]
fn write_line_of_an_empty_line_writes_the_newline() {
    let mut rotator = LogRotator::new("app.log", 0, None, 3, b"");
    let plan = rotator.write_line("");
    assert_eq!(plan, vec![FileOp::Append { data: b"\n".to_vec() }]);
    assert_eq!(rotator.current_size(), 1);
    assert_eq!(rotator.current_lines(), 1);
}

#[test]
fn write_line_over_the_size_limit_appends_then_rotates() {
    let mut rotator = LogRotator::new("app.log", 5, None, 2, b"");
    let plan = rotator.write_line("123456");
    assert_eq!(
        plan,
        vec![
            FileOp::Append { data: b"123456\n".to_vec() },
            FileOp::Close,
            FileOp::Remove { index: 2 },
            FileOp::Rename { from: 1, to: 2 },
            FileOp::Copy { from: 0, to: 1 },
            FileOp::Truncate { index: 0 },
            FileOp::Open,
        ]
    );
    assert_eq!(rotator.current_size(), 0);
    assert_eq!(rotator.current_lines(), 0);
}

#[test]
fn size_at_the_limit_does_not_rotate_and_one_byte_more_does() {
    let mut rotator = LogRotator::new("app.log", 8, None, 2, b"");
    assert_eq!(rotator.write_line("1234567").len(), 1);
    assert_eq!(rotator.current_size(), 8);
    assert_eq!(rotator.write_line("").len(), 7);
    assert_eq!(rotator.current_size(), 0);
}

#[test]
fn line_count_at_the_limit_rotates() {
    let mut rotator = LogRotator::new("app.log", 0, Some(3), 1, b"");
    assert_eq!(rotator.write_line("a").len(), 1);
    assert_eq!(rotator.write_line("b").len(), 1);
    assert_eq!(rotator.current_lines(), 2);
    assert_eq!(rotator.write_line("c").len(), 6);
    assert_eq!(rotator.current_lines(), 0);
}

#[test]
fn line_limit_of_zero_rotates_after_every_line() {
    let mut store = Store::empty();
    let mut rotator = store.start("app.log", 0, Some(0), 2);
    store.write_line(&mut rotator, "a");
    store.write_line(&mut rotator, "b");
    assert_eq!(store.read_to_string("app.log"), "");
    assert_eq!(store.read_to_string("app.log.1"), "b\n");
    assert_eq!(store.read_to_string("app.log.2"), "a\n");
}

#[test]
fn try_write_line_plans_as_write_line_does() {
    let mut checked = LogRotator::new("app.log", 12, Some(3), 2, b"here\n");
    let mut plain = LogRotator::new("app.log", 12, Some(3), 2, b"here\n");
    for line in ["", "a line", "another", "x"] {
        assert_eq!(checked.try_write_line(line), Some(plain.write_line(line)));
        assert_eq!(checked.current_size(), plain.current_size());
        assert_eq!(checked.current_lines(), plain.current_lines());
    }
    assert_eq!(checked.current_size(), 10);
    assert_eq!(checked.current_lines(), 2);
    assert_eq!(
        checked.try_write_line("one more"),
        Some(vec![
            FileOp::Append { data: b"one more\n".to_vec() },
            FileOp::Close,
            FileOp::Remove { index: 2 },
            FileOp::Rename { from: 1, to: 2 },
            FileOp::Copy { from: 0, to: 1 },
            FileOp::Truncate { index: 0 },
            FileOp::Open,
        ])
    );
    assert_eq!(checked.current_size(), 0);
    assert_eq!(checked.current_lines(), 0);
}

#[test]
fn lines_within_the_thresholds_stay_in_the_active_file_in_order() {
    let mut store = Store::with_file("app.log", "zero\n");
    let mut rotator = store.start("app.log", 20, Some(5), 3);
    store.write_line(&mut rotator, "one");
    store.write_line(&mut rotator, "two");
    store.write_line(&mut rotator, "three4");
    assert_eq!(store.read_to_string("app.log"), "zero\none\ntwo\nthree4\n");
    assert_eq!(rotator.current_size(), 20);
    assert_eq!(rotator.current_lines(), 4);
    assert!(!store.has_file("app.log.1"));
    assert!(store.open);
}

#[test]
fn long_line_is_archived_whole_and_the_active_file_is_empty() {
    let mut store = Store::empty();
    let mut rotator = store.start("test.log", 20, None, 3);
    store.write_line(&mut rotator, "this is a very long line that exceeds the size limit");
    assert_eq!(store.read_to_string("test.log"), "");
    assert_eq!(
        store.read_to_string("test.log.1"),
        "this is a very long line that exceeds the size limit\n"
    );
    assert!(!store.has_file("test.log.2"));
    assert_eq!(rotator.current_size(), 0);
    assert_eq!(rotator.current_lines(), 0);
}

#[test]
fn third_line_lands_in_the_fresh_file_after_a_line_rotation() {
    let mut store = Store::empty();
    let mut rotator = store.start("test.log", 0, Some(2), 3);
    store.write_line(&mut rotator, "line 1");
    assert!(!store.has_file("test.log.1"));
    store.write_line(&mut rotator, "line 2");
    assert_eq!(store.read_to_string("test.log.1"), "line 1\nline 2\n");
    assert_eq!(store.read_to_string("test.log"), "");
    store.write_line(&mut rotator, "line 3");
    assert_eq!(store.read_to_string("test.log.1"), "line 1\nline 2\n");
    assert_eq!(store.read_to_string("test.log"), "line 3\n");
    assert!(!store.has_file("test.log.2"));
}

#[test]
fn chain_holds_the_latest_epochs_newest_first() {
    let mut store = Store::empty();
    let mut rotator = store.start("test.log", 10, None, 2);
    for i in 1..=5 {
        store.write_line(&mut rotator, &format!("line {} that exceeds size limit", i));
    }
    assert_eq!(store.read_to_string("test.log"), "");
    assert_eq!(store.read_to_string("test.log.1"), "line 5 that exceeds size limit\n");
    assert_eq!(store.read_to_string("test.log.2"), "line 4 that exceeds size limit\n");
    assert!(!store.has_file("test.log.3"));
    assert_eq!(store.files.len(), 3);
}

#[test]
fn rotation_leaves_files_beyond_the_chain_alone() {
    let mut store = Store::with_file("app.log", "now\n");
    store.files.insert("app.log.1".to_string(), b"one\n".to_vec());
    store.files.insert("app.log.2".to_string(), b"two\n".to_vec());
    store.files.insert("app.log.3".to_string(), b"three\n".to_vec());
    store.files.insert("app.log.4".to_string(), b"four\n".to_vec());
    let mut rotator = store.start("app.log", 0, None, 2);
    store.rotate(&mut rotator);
    assert_eq!(store.read_to_string("app.log"), "");
    assert_eq!(store.read_to_string("app.log.1"), "now\n");
    assert_eq!(store.read_to_string("app.log.2"), "one\n");
    assert_eq!(store.read_to_string("app.log.3"), "three\n");
    assert_eq!(store.read_to_string("app.log.4"), "four\n");
}

#[test]
fn rotation_moves_a_gap_in_the_chain_up() {
    let mut store = Store::with_file("app.log", "now\n");
    store.files.insert("app.log.2".to_string(), b"two\n".to_vec());
    let mut rotator = store.start("app.log", 0, None, 4);
    store.rotate(&mut rotator);
    assert_eq!(store.read_to_string("app.log.1"), "now\n");
    assert!(!store.has_file("app.log.2"));
    assert_eq!(store.read_to_string("app.log.3"), "two\n");
    assert!(!store.has_file("app.log.4"));
}

#[test]
fn rotation_without_an_active_file_creates_an_empty_one() {
    let mut store = Store::empty();
    store.files.insert("app.log.1".to_string(), b"one\n".to_vec());
    store.open = true;
    let mut rotator = LogRotator::new("app.log", 0, None, 3, b"");
    store.rotate(&mut rotator);
    assert_eq!(store.read_to_string("app.log"), "");
    assert!(!store.has_file("app.log.1"));
    assert_eq!(store.read_to_string("app.log.2"), "one\n");
}

#[test]
fn resumed_rotator_rotates_exactly_at_the_line_limit() {
    let mut store = Store::with_file("test.log", "line 1\nline 2\nline 3\n");
    let mut rotator = store.start("test.log", 0, Some(5), 3);
    assert_eq!(rotator.current_lines(), 3);
    store.write_line(&mut rotator, "line 4");
    assert_eq!(rotator.current_lines(), 4);
    assert!(!store.has_file("test.log.1"));
    store.write_line(&mut rotator, "line 5");
    assert_eq!(rotator.current_lines(), 0);
    assert_eq!(store.read_to_string("test.log.1"), "line 1\nline 2\nline 3\nline 4\nline 5\n");
    assert_eq!(store.read_to_string("test.log"), "");
}

#[test]
fn rotation_at_startup_archives_the_content_found() {
    let mut store = Store::with_file("test.log", "existing content\n");
    let mut rotator = store.start("test.log", 0, None, 3);
    store.rotate(&mut rotator);
    assert_eq!(store.read_to_string("test.log.1"), "existing content\n");
    assert_eq!(store.read_to_string("test.log"), "");
    store.write_line(&mut rotator, "new content");
    assert_eq!(store.read_to_string("test.log"), "new content\n");
    assert_eq!(store.read_to_string("test.log.1"), "existing content\n");
}

#[test]
fn counters_match_the_active_file_after_every_call() {
    let mut store = Store::with_file("app.log", "a\nbb\n");
    let mut rotator = store.start("app.log", 12, Some(4), 2);
    let lines = ["ccc", "", "dddd", "e", "ffffffffffffff", "g"];
    for line in lines {
        store.write_line(&mut rotator, line);
        let content = store.files["app.log"].clone();
        assert_eq!(rotator.current_size(), content.len() as u64);
        assert_eq!(rotator.current_lines(), count_lines(&content));
        assert!(store.open);
    }
    store.rotate(&mut rotator);
    assert_eq!(rotator.current_size(), 0);
    assert_eq!(store.read_to_string("app.log"), "");
}
