use project_manager::detect::{Detector, DetectorConfig, DetectorKind, FsTree};
use project_manager::error::Error;
use project_manager::project::{NamespaceItem, Project, RootNamespace, SubNamespace};

fn file(name: &str) -> FsTree {
    FsTree::File { name: name.to_string() }
}

fn dir(name: &str, entries: Vec<FsTree>) -> FsTree {
    FsTree::Dir { name: name.to_string(), entries }
}

fn unreadable(name: &str, cause: &str) -> FsTree {
    FsTree::UnreadableDir { name: name.to_string(), cause: cause.to_string() }
}

fn scan(root: FsTree) -> RootNamespace {
    Detector::new("/p".to_string()).detect(&root).expect("scan should succeed")
}

#[test]
fn scenario_project_and_nested_namespace() {
    let root = dir(
        "p",
        vec![
            dir("alpha", vec![file(".git")]),
            dir("group", vec![dir("beta", vec![file("Cargo.toml")])]),
        ],
    );
    let catalog = scan(root);
    assert_eq!(catalog.info.name, "Root");
    assert_eq!(catalog.info.slug, "root");
    assert_eq!(catalog.info.path, "/p");
    assert_eq!(catalog.items.len(), 2);
    assert!(matches!(catalog.items[0], NamespaceItem::Project(_)));
    assert!(matches!(catalog.items[1], NamespaceItem::Namespace(_)));
    let slugs = catalog.build_project_slugs();
    assert_eq!(slugs, vec!["alpha".to_string(), "group.beta".to_string()]);
}

#[test]
fn scenario_empty_namespace_retained() {
    let root = dir("p", vec![dir("empty", vec![])]);
    let catalog = scan(root);
    assert_eq!(catalog.items.len(), 1);
    match &catalog.items[0] {
        NamespaceItem::Namespace(ns) => {
            assert_eq!(ns.info.name, "empty");
            assert_eq!(ns.items.len(), 0);
        }
        NamespaceItem::Project(_) => panic!("an empty directory is a namespace, not a project"),
    }
    assert_eq!(catalog.build_project_slugs(), Vec::<String>::new());
}

#[test]
fn scenario_unreadable_directory_aborts_scan() {
    let root = dir(
        "p",
        vec![dir("alpha", vec![file(".git")]), unreadable("locked", "permission denied")],
    );
    let err = Detector::new("/p".to_string()).detect(&root).err().expect("scan must fail");
    match err {
        Error::DirectoryUnreadable { path, cause } => {
            assert_eq!(path, "/p/locked");
            assert_eq!(cause, "permission denied");
        }
        _ => panic!("the scan fails with the unreadable-directory error"),
    }
}

#[test]
fn scenario_deep_nesting() {
    let root = dir("p", vec![dir("a", vec![dir("b", vec![dir("c", vec![file("go.mod")])])])]);
    let slugs = scan(root).build_project_slugs();
    assert_eq!(slugs, vec!["a.b.c".to_string()]);
}

#[test]
fn slug_uniqueness_on_distinct_siblings() {
    let root = dir(
        "p",
        vec![
            dir("one", vec![file("build.zig")]),
            dir("two", vec![dir("one", vec![file("build.zig")]), dir("two", vec![file("go.mod")])]),
            dir("three", vec![]),
        ],
    );
    let slugs = scan(root).build_project_slugs();
    assert_eq!(slugs, vec!["one".to_string(), "two.one".to_string(), "two.two".to_string()]);
    for i in 0..slugs.len() {
        for j in 0..slugs.len() {
            if i != j {
                assert_ne!(slugs[i], slugs[j]);
            }
        }
    }
}

#[test]
fn order_preservation_follows_listing_order() {
    let root = dir(
        "p",
        vec![
            dir("z-last-group", vec![dir("inner", vec![file("meson.build")])]),
            dir("a-first", vec![file("CMakeLists.txt")]),
            dir("m-middle", vec![file("package.json")]),
        ],
    );
    let slugs = scan(root).build_project_slugs();
    assert_eq!(
        slugs,
        vec!["z-last-group.inner".to_string(), "a-first".to_string(), "m-middle".to_string()]
    );
}

#[test]
fn project_precedence_over_namespace() {
    // The directory carries a marker and subdirectories that would themselves
    // classify: it becomes a project leaf and nothing below it is scanned.
    let root = dir(
        "p",
        vec![dir(
            "outer",
            vec![file(".git"), dir("nested", vec![file("Cargo.toml")])],
        )],
    );
    let catalog = scan(root);
    assert_eq!(catalog.items.len(), 1);
    assert!(matches!(catalog.items[0], NamespaceItem::Project(_)));
    assert_eq!(catalog.build_project_slugs(), vec!["outer".to_string()]);
}

#[test]
fn marker_priority_prefers_version_control() {
    let detector = Detector::new("/p".to_string());
    let both = vec![file("Cargo.toml"), file(".git")];
    assert_eq!(detector.classify(&both), Some(DetectorKind::Git));
    let cargo_only = vec![file("Cargo.toml")];
    assert_eq!(detector.classify(&cargo_only), Some(DetectorKind::Cargo));
    let make_and_node = vec![file("package.json"), file("GNUmakefile")];
    assert_eq!(detector.classify(&make_and_node), Some(DetectorKind::Make));
    let nix = vec![file("shell.nix")];
    assert_eq!(detector.classify(&nix), Some(DetectorKind::Nix));
    let nothing = vec![file("README.md")];
    assert_eq!(detector.classify(&nothing), None);
}

#[test]
fn marker_may_be_a_directory_entry() {
    let root = dir("p", vec![dir("repo", vec![dir(".git", vec![])])]);
    assert_eq!(scan(root).build_project_slugs(), vec!["repo".to_string()]);
}

#[test]
fn hidden_children_are_ignored_by_default() {
    let root = dir(
        "p",
        vec![dir(".hidden", vec![file(".git")]), dir("shown", vec![file(".git")])],
    );
    let slugs = scan(root).build_project_slugs();
    assert_eq!(slugs, vec!["shown".to_string()]);
}

#[test]
fn hidden_children_are_kept_when_configured() {
    let config = DetectorConfig::default().ignore_hidden_files(false);
    let root = dir("p", vec![dir(".hidden", vec![file(".git")])]);
    let catalog = Detector::with_config("/p".to_string(), config).detect(&root).unwrap();
    assert_eq!(catalog.build_project_slugs(), vec![".hidden".to_string()]);
}

#[test]
fn hidden_root_is_still_scanned() {
    // The ignore policy applies to children, never to the scan root itself.
    let root = dir(".hidden", vec![dir("alpha", vec![file(".git")])]);
    let catalog = Detector::new("/tmp/.hidden".to_string()).detect(&root).unwrap();
    assert_eq!(catalog.build_project_slugs(), vec!["alpha".to_string()]);
}

#[test]
fn root_with_marker_is_not_itself_a_project() {
    let root = dir("p", vec![file("Cargo.toml"), dir("sub", vec![file("go.mod")])]);
    let catalog = scan(root);
    assert_eq!(catalog.build_project_slugs(), vec!["sub".to_string()]);
}

#[test]
fn ignore_patterns_exclude_matching_names() {
    let config = DetectorConfig::default().ignore_pattern("node_modules".to_string());
    let root = dir(
        "p",
        vec![
            dir("node_modules", vec![file("package.json")]),
            dir("app", vec![file("package.json")]),
        ],
    );
    let catalog = Detector::with_config("/p".to_string(), config).detect(&root).unwrap();
    assert_eq!(catalog.build_project_slugs(), vec!["app".to_string()]);
}

#[test]
fn ignore_pattern_matches_substring() {
    let config = DetectorConfig::default().ignore_pattern("cache".to_string());
    let root = dir("p", vec![dir("my-cache-dir", vec![file(".git")])]);
    let catalog = Detector::with_config("/p".to_string(), config).detect(&root).unwrap();
    assert_eq!(catalog.build_project_slugs(), Vec::<String>::new());
}

#[test]
fn slugs_are_lowercased_and_spaces_become_hyphens() {
    let root = dir(
        "p",
        vec![dir("group Dir", vec![dir("My Project", vec![file(".git")])])],
    );
    let slugs = scan(root).build_project_slugs();
    assert_eq!(slugs, vec!["group-dir.my-project".to_string()]);
}

#[test]
fn hidden_marker_is_seen_by_classification() {
    // `.git` is hidden from the recursive listing, yet the direct existence
    // check that classifies a directory still sees it.
    let root = dir("p", vec![dir("repo", vec![file(".git"), dir("docs", vec![])])]);
    assert_eq!(scan(root).build_project_slugs(), vec!["repo".to_string()]);
}

#[test]
fn unreadable_root_fails_with_root_path() {
    let err = Detector::new("/p".to_string())
        .detect(&unreadable("p", "permission denied"))
        .err()
        .expect("an unreadable root cannot be scanned");
    match err {
        Error::DirectoryUnreadable { path, cause } => {
            assert_eq!(path, "/p");
            assert_eq!(cause, "permission denied");
        }
        _ => panic!("the scan fails with the unreadable-directory error"),
    }
}

#[test]
fn file_root_fails_as_unreadable() {
    let err = Detector::new("/p".to_string()).detect(&file("p")).err().unwrap();
    match err {
        Error::DirectoryUnreadable { path, .. } => assert_eq!(path, "/p"),
        _ => panic!("a root that is no directory cannot be scanned"),
    }
}

#[test]
fn files_and_unreadable_entries_that_are_filtered_are_skipped() {
    // A plain file never aborts the scan, and an unreadable directory that
    // the ignore policy filters out is never touched.
    let root = dir(
        "p",
        vec![
            file("stray.txt"),
            unreadable(".locked", "permission denied"),
            dir("ok", vec![file("default.nix")]),
        ],
    );
    assert_eq!(scan(root).build_project_slugs(), vec!["ok".to_string()]);
}

#[test]
fn error_paths_accumulate_along_the_walk() {
    let root = dir("p", vec![dir("group", vec![unreadable("inner", "gone")])]);
    let err = Detector::new("/p".to_string()).detect(&root).err().unwrap();
    match err {
        Error::DirectoryUnreadable { path, cause } => {
            assert_eq!(path, "/p/group/inner");
            assert_eq!(cause, "gone");
        }
        _ => panic!("the scan fails with the unreadable-directory error"),
    }
}

#[test]
fn unreadable_path_accessor_distinguishes_variants() {
    let unread = Error::DirectoryUnreadable { path: "/p/x".to_string(), cause: "denied".to_string() };
    assert_eq!(unread.unreadable_path().map(|p| p.as_str()), Some("/p/x"));
    let config_err = Error::CouldNotDetermineConfigLocation(vec!["$HOME/.config".to_string()]);
    assert!(config_err.unreadable_path().is_none());
}

#[test]
fn resolve_returns_paths_by_exact_slug() {
    let root = dir(
        "p",
        vec![
            dir("alpha", vec![file(".git")]),
            dir("group", vec![dir("beta", vec![file("Cargo.toml")])]),
        ],
    );
    let catalog = scan(root);
    assert_eq!(catalog.resolve("group.beta"), vec!["/p/group/beta".to_string()]);
    assert_eq!(catalog.resolve("alpha"), vec!["/p/alpha".to_string()]);
    assert_eq!(catalog.resolve("beta"), Vec::<String>::new());
    assert_eq!(catalog.project_paths(), vec!["/p/alpha".to_string(), "/p/group/beta".to_string()]);
}

#[test]
fn fresh_root_namespace_is_empty() {
    let root = RootNamespace::new("Root".to_string(), "root".to_string(), "/p".to_string());
    assert_eq!(root.build_project_slugs(), Vec::<String>::new());
    assert_eq!(root.project_paths(), Vec::<String>::new());
}

#[test]
fn project_accessors_keep_their_fields() {
    let p = Project::new("My App".to_string(), "my-app".to_string(), "/p/My App".to_string());
    assert_eq!(p.fmt_path(), "/p/My App");
    assert_eq!(p.info.name, "My App");
    assert_eq!(p.info.slug, "my-app");
}

#[test]
fn sub_namespace_slugs_thread_the_aggregate() {
    let mut ns = SubNamespace::new(
        "group".to_string(),
        "group".to_string(),
        "/p/group".to_string(),
    );
    ns.items.push(NamespaceItem::Project(Project::new(
        "beta".to_string(),
        "beta".to_string(),
        "/p/group/beta".to_string(),
    )));
    assert_eq!(ns.build_project_slugs(""), vec!["group.beta".to_string()]);
    assert_eq!(ns.build_project_slugs("top"), vec!["top.group.beta".to_string()]);
    assert_eq!(ns.project_paths(), vec!["/p/group/beta".to_string()]);
}

#[test]
fn detector_config_builders_compose() {
    let config = DetectorConfig::default()
        .ignore_hidden_files(false)
        .ignore_pattern("target".to_string())
        .ignore_pattern("build".to_string());
    let root = dir(
        "p",
        vec![
            dir(".dot", vec![file("go.mod")]),
            dir("target-dir", vec![file("go.mod")]),
            dir("builds", vec![file("go.mod")]),
            dir("keep", vec![file("go.mod")]),
        ],
    );
    let catalog = Detector::with_config("/p".to_string(), config).detect(&root).unwrap();
    assert_eq!(catalog.build_project_slugs(), vec![".dot".to_string(), "keep".to_string()]);
}
