use dupelib::detect_dupes;
use dupelib::FileEntry;
use dupelib::Opt;

fn entry(path: &str, content: &[u8]) -> FileEntry {
    FileEntry { path: path.to_string(), content: content.to_vec() }
}

#[test]
fn test_base_case() {
    let options: Opt = Default::default();
    let files: Vec<FileEntry> = Vec::new();
    assert_eq!(detect_dupes(options, &files), "");
}

#[test]
fn test_one_file() {
    let options = Opt {
        paths: vec!["tests/test_cases/one_file".to_string()],
        ..Default::default()
    };
    let files = vec![entry("tests/test_cases/one_file/alone.txt", b"hello")];
    assert_eq!(detect_dupes(options, &files), "");
}

#[test]
fn test_ident_files() {
    let options = Opt {
        paths: vec!["tests/test_cases/four_ident_files".to_string()],
        ..Default::default()
    };
    // Two pairs of identical files: (a, c) of two bytes, (b, d) of one byte.
    let files = vec![
        entry("tests/test_cases/four_ident_files/a.txt", b"xy"),
        entry("tests/test_cases/four_ident_files/b.txt", b"x"),
        entry("tests/test_cases/four_ident_files/c.txt", b"xy"),
        entry("tests/test_cases/four_ident_files/d.txt", b"x"),
    ];
    assert_eq!(
        detect_dupes(options, &files),
        "1: tests/test_cases/four_ident_files/b.txt | tests/test_cases/four_ident_files/d.txt\n\
         2: tests/test_cases/four_ident_files/a.txt | tests/test_cases/four_ident_files/c.txt\n"
    );
}

#[test]
fn test_ident_files_minimum() {
    let options = Opt {
        paths: vec!["tests/test_cases/four_ident_files".to_string()],
        minimum: Some(2),
        ..Default::default()
    };
    let files = vec![
        entry("tests/test_cases/four_ident_files/a.txt", b"xy"),
        entry("tests/test_cases/four_ident_files/b.txt", b"x"),
        entry("tests/test_cases/four_ident_files/c.txt", b"xy"),
        entry("tests/test_cases/four_ident_files/d.txt", b"x"),
    ];
    assert_eq!(
        detect_dupes(options, &files),
        "2: tests/test_cases/four_ident_files/a.txt | tests/test_cases/four_ident_files/c.txt\n"
    );
}

#[test]
fn group_members_have_identical_content() {
    // The two reported paths hold byte-identical content; the odd one out is
    // absent from the report.
    let same = b"the very same bytes";
    let files = vec![
        entry("first.bin", same),
        entry("second.bin", same),
        entry("other.bin", b"something different"),
    ];
    assert_eq!(files[0].content, files[1].content);
    let report = detect_dupes(Default::default(), &files);
    assert_eq!(report, "19: first.bin | second.bin\n");
    assert!(!report.contains("other.bin"));
}

#[test]
fn unique_size_never_reported() {
    // Sizes 1, 2, 2: the one-byte file cannot have a duplicate.
    let files = vec![
        entry("tiny.txt", b"x"),
        entry("left.txt", b"aa"),
        entry("right.txt", b"aa"),
    ];
    let report = detect_dupes(Default::default(), &files);
    assert_eq!(report, "2: left.txt | right.txt\n");
    assert!(!report.contains("tiny.txt"));
}

#[test]
fn rerun_is_byte_identical() {
    let files = vec![
        entry("a.txt", b"pair"),
        entry("b.txt", b"pair"),
        entry("c.txt", b"loner"),
    ];
    let first = detect_dupes(Default::default(), &files);
    let second = detect_dupes(Default::default(), &files);
    assert_eq!(first, second);
    assert_eq!(first, "4: a.txt | b.txt\n");
}

#[test]
fn minimum_excludes_small_files_entirely() {
    let files = vec![entry("a.txt", b"tie"), entry("b.txt", b"tie")];
    let options = Opt { minimum: Some(5), ..Default::default() };
    assert_eq!(detect_dupes(options, &files), "");
}

#[test]
fn zero_byte_files_excluded_by_default() {
    // The default minimum is one byte, so empty files never match.
    let files = vec![entry("a.txt", b""), entry("b.txt", b"")];
    assert_eq!(detect_dupes(Default::default(), &files), "");
    // An explicit zero minimum lets them match.
    let options = Opt { minimum: Some(0), ..Default::default() };
    assert_eq!(detect_dupes(options, &files), "0: a.txt | b.txt\n");
}

#[test]
fn same_size_different_content_not_reported() {
    // The size cull is a pre-filter, not a verdict.
    let files = vec![entry("a.txt", b"abcd"), entry("b.txt", b"wxyz")];
    assert_eq!(detect_dupes(Default::default(), &files), "");
}

#[test]
fn three_way_group_on_one_line() {
    let files = vec![
        entry("a.txt", b"three of us"),
        entry("b.txt", b"three of us"),
        entry("c.txt", b"three of us"),
    ];
    assert_eq!(
        detect_dupes(Default::default(), &files),
        "11: a.txt | b.txt | c.txt\n"
    );
}

#[test]
fn two_groups_of_equal_size_both_reported() {
    // Two pairs of the same byte length but different content: two lines,
    // ordered among themselves by hash value.
    let files = vec![
        entry("a.txt", b"aaaa"),
        entry("b.txt", b"aaaa"),
        entry("c.txt", b"bbbb"),
        entry("d.txt", b"bbbb"),
    ];
    let report = detect_dupes(Default::default(), &files);
    let lines: Vec<&str> = report.lines().collect();
    assert_eq!(lines.len(), 2);
    assert!(lines.contains(&"4: a.txt | b.txt"));
    assert!(lines.contains(&"4: c.txt | d.txt"));
}

#[test]
fn equal_prefix_different_tail_not_reported() {
    // Both contents share the whole hashed prefix and the byte length; only
    // the full-content stage can tell them apart.
    let mut one = vec![7u8; dupelib::PREFIX_LEN + 1];
    let mut two = vec![7u8; dupelib::PREFIX_LEN + 1];
    one[dupelib::PREFIX_LEN] = 1;
    two[dupelib::PREFIX_LEN] = 2;
    let files = vec![entry("one.bin", &one), entry("two.bin", &two)];
    assert_eq!(detect_dupes(Default::default(), &files), "");
}

#[test]
fn long_identical_files_reported() {
    let content = vec![42u8; dupelib::PREFIX_LEN + 123];
    let files = vec![entry("big_a.bin", &content), entry("big_b.bin", &content)];
    assert_eq!(
        detect_dupes(Default::default(), &files),
        "64123: big_a.bin | big_b.bin\n"
    );
}

#[test]
fn report_is_independent_of_input_order() {
    // The same snapshot handed over in two different traversal orders renders
    // byte-identical reports.
    let forward = vec![
        entry("a.txt", b"pair"),
        entry("b.txt", b"pair"),
        entry("c.txt", b"another"),
        entry("d.txt", b"another"),
    ];
    let shuffled = vec![
        entry("d.txt", b"another"),
        entry("b.txt", b"pair"),
        entry("c.txt", b"another"),
        entry("a.txt", b"pair"),
    ];
    let first = detect_dupes(Default::default(), &forward);
    let second = detect_dupes(Default::default(), &shuffled);
    assert_eq!(first, second);
    assert_eq!(first, "4: a.txt | b.txt\n7: c.txt | d.txt\n");
}

#[test]
fn group_members_sorted_by_path() {
    let files = vec![
        entry("zebra.txt", b"same bytes"),
        entry("mango.txt", b"same bytes"),
        entry("apple.txt", b"same bytes"),
    ];
    assert_eq!(
        detect_dupes(Default::default(), &files),
        "10: apple.txt | mango.txt | zebra.txt\n"
    );
}
