use codesearch::paths::{is_under_dir, matches_path_filter, normalize_event_path, normalize_path, normalize_path_for_compare};

#[test]
fn normalize_strips_prefixes_and_slashes() {
    assert_eq!(normalize_path(r"\\?\C:\repo\src\main.rs"), "C:/repo/src/main.rs");
    assert_eq!(normalize_path(r"\\?\UNC\server\share\x"), "//server/share/x");
    assert_eq!(normalize_path("/repo/src/"), "/repo/src");
    assert_eq!(normalize_path("/repo//"), "/repo");
    assert_eq!(normalize_path("/"), "/");
    assert_eq!(normalize_path(""), "");
    assert_eq!(normalize_event_path(r"C:\a\b"), "C:/a/b");
}

#[test]
fn normalize_is_idempotent_on_examples() {
    for p in [r"\\?\C:\x\", r"a\\b//", "/", "//", r"\\?\UNC\s\t\", "./rel/"] {
        let once = normalize_path(p);
        assert_eq!(normalize_path(&once), once);
    }
}

#[test]
fn compare_form_and_filters() {
    assert_eq!(normalize_path_for_compare("./././src/lib.rs"), "src/lib.rs");
    assert_eq!(normalize_path_for_compare(r".\src\lib.rs"), "src/lib.rs");
    assert!(matches_path_filter("./src/api/handler.rs", "src/api/"));
    assert!(matches_path_filter(r"src\api\handler.rs", "./src/api"));
    assert!(!matches_path_filter("src/lib.rs", "src/api/"));
    assert!(matches_path_filter("anything.rs", ""));
}

#[test]
fn directory_prefix_matching() {
    assert!(is_under_dir("/repo/src/a.rs", "/repo/src"));
    assert!(is_under_dir("/repo/src/a.rs", r"/repo/src\"));
    assert!(!is_under_dir("/repo/srcx/a.rs", "/repo/src"));
    assert!(!is_under_dir("/repo/src", "/repo/src"));
}
