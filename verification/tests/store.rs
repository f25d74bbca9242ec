use bundle_extractor::container::{accumulate_container_index, build_container_index,
    ContainerClaim, ContainerIndex, Manifest, PreloadRef};
use bundle_extractor::progress::{is_recorded, parse_progress, progress_file_name};
use bundle_extractor::strtools::{file_stem, join_path, normalize_separators, u64_to_string};

fn pref(path_id: i64) -> PreloadRef {
    PreloadRef { path_id, file_id: 0 }
}

fn claim(name: &str, preload_index: u64, preload_size: u64) -> ContainerClaim {
    ContainerClaim { name: String::from(name), preload_index, preload_size }
}

#[test]
fn normalize_turns_backslashes_forward() {
    assert_eq!(normalize_separators("a\\b\\c.bundle"), "a/b/c.bundle");
    assert_eq!(normalize_separators("already/fine"), "already/fine");
    assert_eq!(normalize_separators(""), "");
}

#[test]
fn decimal_rendering() {
    assert_eq!(u64_to_string(0), "0");
    assert_eq!(u64_to_string(7), "7");
    assert_eq!(u64_to_string(10), "10");
    assert_eq!(u64_to_string(1234567890), "1234567890");
    assert_eq!(u64_to_string(u64::MAX), "18446744073709551615");
}

#[test]
fn join_path_cases() {
    assert_eq!(join_path("out", "docs/readme.txt"), "out/docs/readme.txt");
    assert_eq!(join_path("out/", "x"), "out/x");
    assert_eq!(join_path("", "x"), "x");
    assert_eq!(join_path("out", "/absolute"), "/absolute");
    assert_eq!(join_path("out", ""), "out/");
}

#[test]
fn progress_parsing() {
    assert_eq!(parse_progress(""), Vec::<String>::new());
    assert_eq!(parse_progress("a.bundle\n"), vec![String::from("a.bundle")]);
    assert_eq!(
        parse_progress("a.bundle\nb.bundle\n"),
        vec![String::from("a.bundle"), String::from("b.bundle")]
    );
    // a store without a final newline still yields its last entry
    assert_eq!(
        parse_progress("a\nb"),
        vec![String::from("a"), String::from("b")]
    );
    // blank lines are kept as entries, matching line-by-line reading
    assert_eq!(
        parse_progress("a\n\nb\n"),
        vec![String::from("a"), String::new(), String::from("b")]
    );
}

#[test]
fn progress_membership() {
    let entries = parse_progress("data/a.bundle\ndata/b.bundle\n");
    assert!(is_recorded(&entries, &String::from("data/a.bundle")));
    assert!(is_recorded(&entries, &String::from("data/b.bundle")));
    assert!(!is_recorded(&entries, &String::from("data/c.bundle")));
}

#[test]
fn progress_file_name_from_config_stem() {
    assert_eq!(progress_file_name("config"), "config_progress.txt");
    assert_eq!(progress_file_name(""), "_progress.txt");
}

#[test]
fn appended_entry_appears_once_after_reload() {
    let mut content = String::from("a.bundle\n");
    content.push_str("b.bundle\n");
    let entries = parse_progress(&content);
    assert_eq!(entries.iter().filter(|e| e.as_str() == "b.bundle").count(), 1);
}

#[test]
fn container_resolution_in_and_out_of_range() {
    // container "c1" claims [0, 2) over a three-entry preload table: the
    // first two path identifiers resolve to it, the third stays unmapped
    let manifest = Manifest {
        containers: vec![claim("c1", 0, 2)],
        preload_table: vec![pref(10), pref(20), pref(30)],
    };
    let idx = build_container_index(&manifest);
    assert_eq!(idx.resolve(10), "c1");
    assert_eq!(idx.resolve(20), "c1");
    assert_eq!(idx.resolve(30), "");
    assert_eq!(idx.resolve(99), "");
}

#[test]
fn out_of_table_range_positions_are_skipped() {
    let manifest = Manifest {
        containers: vec![claim("c1", 1, 5)],
        preload_table: vec![pref(10), pref(20)],
    };
    let idx = build_container_index(&manifest);
    assert_eq!(idx.resolve(10), "");
    assert_eq!(idx.resolve(20), "c1");
}

#[test]
fn later_claim_wins_on_overlap() {
    let manifest = Manifest {
        containers: vec![claim("first", 0, 2), claim("second", 1, 1)],
        preload_table: vec![pref(10), pref(20)],
    };
    let idx = build_container_index(&manifest);
    assert_eq!(idx.resolve(10), "first");
    assert_eq!(idx.resolve(20), "second");
}

#[test]
fn empty_manifest_maps_nothing() {
    let manifest = Manifest { containers: vec![], preload_table: vec![] };
    let idx = build_container_index(&manifest);
    assert_eq!(idx.resolve(0), "");
    let fresh = ContainerIndex::new();
    assert_eq!(fresh.resolve(0), "");
}

#[test]
fn several_manifests_accumulate_into_one_index() {
    let manifests = vec![
        Manifest { containers: vec![claim("one", 0, 1)], preload_table: vec![pref(10), pref(20)] },
        Manifest { containers: vec![claim("two", 0, 2)], preload_table: vec![pref(20), pref(30)] },
    ];
    let idx = accumulate_container_index(&manifests);
    assert_eq!(idx.resolve(10), "one");
    assert_eq!(idx.resolve(20), "two");
    assert_eq!(idx.resolve(30), "two");
}

#[test]
fn huge_claim_range_does_not_overflow() {
    let manifest = Manifest {
        containers: vec![claim("big", u64::MAX - 1, u64::MAX)],
        preload_table: vec![pref(10)],
    };
    let idx = build_container_index(&manifest);
    assert_eq!(idx.resolve(10), "");
}

#[test]
fn file_stem_of_config_paths() {
    assert_eq!(file_stem("config.toml"), "config");
    assert_eq!(file_stem("dir/sub/config.toml"), "config");
    assert_eq!(file_stem("noext"), "noext");
    assert_eq!(file_stem(".hidden"), ".hidden");
    assert_eq!(file_stem("a.b.c"), "a.b");
    assert_eq!(progress_file_name(&file_stem("run/config.toml")), "config_progress.txt");
}
