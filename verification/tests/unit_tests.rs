use dupelib::AppState;
use dupelib::CandidateFile;
use dupelib::DisplayablePath;
use dupelib::Opt;
use dupelib::cull_by_filesize;
use dupelib::format_results;
use dupelib::is_hidden;
use dupelib::u64_to_string;

fn candidate(path: &str, size: Option<u64>, full_hash: Option<u64>) -> CandidateFile {
    let mut c = CandidateFile::new(path.to_string());
    c.size = size;
    c.full_hash = full_hash;
    c
}

#[test]
fn u64_to_string_exact_values() {
    assert_eq!(u64_to_string(0), "0");
    assert_eq!(u64_to_string(7), "7");
    assert_eq!(u64_to_string(10), "10");
    assert_eq!(u64_to_string(64000), "64000");
    assert_eq!(u64_to_string(u64::MAX), "18446744073709551615");
}

#[test]
fn cull_by_filesize_keeps_shared_sizes_in_order() {
    let input = vec![
        candidate("a", Some(5), None),
        candidate("b", Some(3), None),
        candidate("c", Some(5), None),
        candidate("d", None, None),
        candidate("e", Some(3), None),
        candidate("f", Some(9), None),
    ];
    let out = cull_by_filesize(&input, 0);
    let paths: Vec<&str> = out.iter().map(|c| c.path.as_str()).collect();
    assert_eq!(paths, vec!["a", "b", "c", "e"]);
}

#[test]
fn cull_by_filesize_applies_minimum() {
    let input = vec![
        candidate("a", Some(2), None),
        candidate("b", Some(2), None),
        candidate("c", Some(4), None),
        candidate("d", Some(4), None),
    ];
    let out = cull_by_filesize(&input, 3);
    let paths: Vec<&str> = out.iter().map(|c| c.path.as_str()).collect();
    assert_eq!(paths, vec!["c", "d"]);
}

#[test]
fn format_results_sorts_by_size_then_hash() {
    let input = vec![
        candidate("big1", Some(9), Some(100)),
        candidate("small1", Some(2), Some(300)),
        candidate("big2", Some(9), Some(100)),
        candidate("small2", Some(2), Some(300)),
        candidate("mid1", Some(9), Some(50)),
        candidate("mid2", Some(9), Some(50)),
    ];
    assert_eq!(
        format_results(&input),
        "2: small1 | small2\n9: mid1 | mid2\n9: big1 | big2\n"
    );
}

#[test]
fn format_results_empty_input() {
    let input: Vec<CandidateFile> = Vec::new();
    assert_eq!(format_results(&input), "");
}

#[test]
fn is_hidden_checks_leading_dot() {
    assert!(is_hidden(".git"));
    assert!(is_hidden("."));
    assert!(!is_hidden("src"));
    assert!(!is_hidden(""));
    assert!(!is_hidden("dir.with.dots"));
}

#[test]
fn opt_default_and_from_paths() {
    let d: Opt = Default::default();
    assert!(d.paths.is_empty());
    assert!(!d.timing);
    assert!(!d.debug);
    assert!(d.minimum.is_none());

    let o = Opt::from_paths(vec!["one".to_string(), "two".to_string()]);
    assert_eq!(o.paths, vec!["one".to_string(), "two".to_string()]);
    assert!(o.minimum.is_none());
}

#[test]
fn app_state_transitions() {
    let mut state: AppState = Default::default();
    assert!(!state.processing);
    assert!(state.paths.is_empty());

    state.push_path(DisplayablePath::new("/somewhere".to_string()));
    state.push_path(DisplayablePath::new("/elsewhere".to_string()));
    assert_eq!(state.path_list(), vec!["/somewhere".to_string(), "/elsewhere".to_string()]);
    assert_eq!(state.paths[0].display(), "/somewhere");

    state.start_processing();
    assert!(state.processing);
    assert!(state.dupes.is_empty());

    state.set_progress("Culling by filesizes".to_string());
    assert_eq!(state.progress_info, "Culling by filesizes");

    state.finish_processing(vec!["4: a | b".to_string()]);
    assert!(!state.processing);
    assert_eq!(state.dupes, vec!["4: a | b".to_string()]);
}

#[test]
fn format_results_orders_tied_keys_by_path() {
    // Equal size and hash: members order by path, a proper prefix first.
    let input = vec![
        candidate("pic.jpeg", Some(3), Some(9)),
        candidate("pic", Some(3), Some(9)),
        candidate("pic.jpg", Some(3), Some(9)),
    ];
    assert_eq!(format_results(&input), "3: pic | pic.jpeg | pic.jpg\n");
}
