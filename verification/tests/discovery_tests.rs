use kernel_build::discovery::{discover, DiscoveryError, SourceFile};
use kernel_build::fs_tree::FsNode;
use kernel_build::paths::{extension_of, name_matches};

fn file(name: &str) -> FsNode {
    FsNode::File { name: name.to_string() }
}

fn dir(name: &str, entries: Vec<FsNode>) -> FsNode {
    FsNode::Dir { name: name.to_string(), entries }
}

fn other(name: &str) -> FsNode {
    FsNode::Other { name: name.to_string() }
}

fn segs(parts: &[&str]) -> Vec<String> {
    parts.iter().map(|p| p.to_string()).collect()
}

fn paths_of(files: &[SourceFile]) -> Vec<Vec<String>> {
    files.iter().map(|f| f.path.clone()).collect()
}

fn sample_tree() -> Vec<FsNode> {
    vec![dir(
        "src",
        vec![
            file("a.cpp"),
            file("README"),
            dir(
                "deep",
                vec![
                    file("b.cpp"),
                    dir("deeper", vec![file("c.cpp"), file("notes.txt")]),
                ],
            ),
        ],
    )]
}

#[test]
fn recursive_discovery_finds_each_matching_file_once() {
    let fs = sample_tree();
    let found = discover(&fs, &segs(&["src"]), &segs(&["cpp"]), true).unwrap();
    let paths = paths_of(&found);
    assert_eq!(paths.len(), 3);
    assert!(paths.contains(&segs(&["src", "a.cpp"])));
    assert!(paths.contains(&segs(&["src", "deep", "b.cpp"])));
    assert!(paths.contains(&segs(&["src", "deep", "deeper", "c.cpp"])));
    for p in &paths {
        assert_eq!(paths.iter().filter(|q| *q == p).count(), 1);
    }
}

#[test]
fn non_recursive_discovery_ignores_subdirectories() {
    let fs = sample_tree();
    let found = discover(&fs, &segs(&["src"]), &segs(&["cpp"]), false).unwrap();
    let paths = paths_of(&found);
    assert_eq!(paths, vec![segs(&["src", "a.cpp"])]);
}

#[test]
fn extension_filter_is_exact() {
    assert!(name_matches("a.cpp", &segs(&["cpp"])));
    assert!(!name_matches("a.cpp", &segs(&["c"])));
    assert!(!name_matches("Makefile", &segs(&["cpp"])));
    assert!(!name_matches("Makefile", &segs(&["c"])));
}

#[test]
fn extension_match_is_case_sensitive() {
    assert!(name_matches("boot.S", &segs(&["S"])));
    assert!(!name_matches("boot.s", &segs(&["S"])));
    assert!(!name_matches("BOOT.CPP", &segs(&["cpp"])));
}

#[test]
fn missing_root_yields_empty_sequence() {
    let fs = sample_tree();
    let found = discover(&fs, &segs(&["no_such_dir"]), &segs(&["cpp"]), true).unwrap();
    assert!(found.is_empty());
    let deeper = discover(&fs, &segs(&["src", "absent", "below"]), &segs(&["cpp"]), true).unwrap();
    assert!(deeper.is_empty());
}

#[test]
fn unreadable_entry_aborts_discovery() {
    let fs = vec![dir("src", vec![file("a.cpp"), FsNode::Unreadable])];
    let r = discover(&fs, &segs(&["src"]), &segs(&["cpp"]), true);
    assert!(matches!(r, Err(DiscoveryError::UnreadableEntry)));
    let non_recursive = discover(&fs, &segs(&["src"]), &segs(&["cpp"]), false);
    assert!(matches!(non_recursive, Err(DiscoveryError::UnreadableEntry)));
}

#[test]
fn unreadable_entry_below_unwalked_subtree_is_not_met() {
    let fs = vec![dir(
        "src",
        vec![file("a.cpp"), dir("sub", vec![FsNode::Unreadable])],
    )];
    let found = discover(&fs, &segs(&["src"]), &segs(&["cpp"]), false).unwrap();
    assert_eq!(paths_of(&found), vec![segs(&["src", "a.cpp"])]);
}

#[test]
fn unclassifiable_entries_are_skipped() {
    let fs = vec![dir("src", vec![other("a.cpp"), file("b.cpp")])];
    let found = discover(&fs, &segs(&["src"]), &segs(&["cpp"]), true).unwrap();
    assert_eq!(paths_of(&found), vec![segs(&["src", "b.cpp"])]);
}

#[test]
fn extension_of_dotted_names() {
    assert_eq!(extension_of("a.cpp"), Some("cpp".to_string()));
    assert_eq!(extension_of("boot.S"), Some("S".to_string()));
    assert_eq!(extension_of("a.b.c"), Some("c".to_string()));
    assert_eq!(extension_of("trailing."), Some("".to_string()));
    assert_eq!(extension_of(".hidden"), None);
    assert_eq!(extension_of("Makefile"), None);
    assert_eq!(extension_of(""), None);
}

#[test]
fn discovered_file_reports_its_extension() {
    let sf = SourceFile { path: segs(&["src", "deep", "b.cpp"]) };
    assert_eq!(sf.extension(), Some("cpp".to_string()));
    let bare = SourceFile { path: segs(&["src", "README"]) };
    assert_eq!(bare.extension(), None);
}

#[test]
fn discovery_order_follows_listing_order() {
    let fs = vec![dir(
        "src",
        vec![file("z.c"), file("a.c"), dir("sub", vec![file("m.c")])],
    )];
    let found = discover(&fs, &segs(&["src"]), &segs(&["c"]), true).unwrap();
    assert_eq!(
        paths_of(&found),
        vec![
            segs(&["src", "z.c"]),
            segs(&["src", "a.c"]),
            segs(&["src", "sub", "m.c"]),
        ]
    );
}
