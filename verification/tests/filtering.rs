use better_deep_wiki::filter::{
    detect_file_type, filter_paths, path_matches_pattern, should_include_file,
};
use better_deep_wiki::types::{FileType, FilterConfig};

#[test]
fn test_regex_patterns() {
    // Exact match
    assert!(path_matches_pattern("src/main.rs", "^src/main\\.rs$"));
    assert!(!path_matches_pattern("src/main.rs", "^src/lib\\.rs$"));

    // Extension patterns
    assert!(path_matches_pattern("main.rs", r"\.rs$"));
    assert!(path_matches_pattern("main.rs", r"\.rs"));
    assert!(path_matches_pattern("src/main.rs", ".rs"));
    assert!(!path_matches_pattern("main.py", r"\.rs$"));

    // Directory patterns
    assert!(path_matches_pattern("src/main.rs", "^src/"));
    assert!(path_matches_pattern("src/main.rs", "src/"));
    assert!(path_matches_pattern("src/main.rs", "src"));
    assert!(path_matches_pattern("src/utils/mod.rs", "^src/"));
    assert!(!path_matches_pattern("tests/main.rs", "^src/"));

    // Complex patterns
    assert!(path_matches_pattern("src/test_utils.rs", "test"));
    assert!(path_matches_pattern("test_main.rs", "test"));
    assert!(path_matches_pattern("test_main.rs", "test*"));
    assert!(!path_matches_pattern("test_main.rs", "*test"));
    assert!(!path_matches_pattern("src/main.rs", "test"));
}

#[test]
fn test_filter_config_exclude() {
    let filter_config = Some(FilterConfig {
        mode: "exclude".to_string(),
        paths: vec!["node_modules".to_string(), r"\.test\.js$".to_string()],
    });

    assert!(!should_include_file("node_modules/package.json", &filter_config));
    assert!(!should_include_file("src/main.test.js", &filter_config));
    assert!(should_include_file("src/main.js", &filter_config));
}

#[test]
fn test_filter_config_include() {
    let filter_config = Some(FilterConfig {
        mode: "include".to_string(),
        paths: vec!["^src/".to_string(), r"\.rs$".to_string()],
    });

    assert!(should_include_file("src/main.js", &filter_config));
    assert!(should_include_file("main.rs", &filter_config));
    assert!(!should_include_file("docs/readme.md", &filter_config));
}

#[test]
fn detect_file_type_by_extension() {
    assert_eq!(detect_file_type("src/main.rs"), FileType::Code);
    assert_eq!(detect_file_type("a/b/app.tsx"), FileType::Code);
    assert_eq!(detect_file_type("Main.java"), FileType::Code);
    assert_eq!(detect_file_type("README.md"), FileType::Doc);
    assert_eq!(detect_file_type("notes.txt"), FileType::Doc);
    assert_eq!(detect_file_type("picture.png"), FileType::Other);
    assert_eq!(detect_file_type("Makefile"), FileType::Other);
    assert_eq!(detect_file_type(".gitignore"), FileType::Other);
    assert_eq!(detect_file_type("dir.with.dots/file"), FileType::Other);
}

#[test]
fn unknown_filter_mode_includes_everything() {
    let filter_config = Some(FilterConfig {
        mode: "whatever".to_string(),
        paths: vec!["node_modules".to_string()],
    });
    assert!(should_include_file("node_modules/x.js", &filter_config));
}

#[test]
fn no_filter_includes_everything() {
    assert!(should_include_file("anything/at/all.xyz", &None));
}

#[test]
fn invalid_regex_matches_nothing() {
    assert!(!path_matches_pattern("test_main.rs", "*test"));
    // Under include mode an invalid pattern keeps nothing in.
    let filter_config = Some(FilterConfig {
        mode: "include".to_string(),
        paths: vec!["*bad".to_string()],
    });
    assert!(!should_include_file("bad.rs", &filter_config));
}

#[test]
fn filter_paths_keeps_code_files_in_order() {
    let paths = vec![
        "src/main.rs".to_string(),
        "README.md".to_string(),
        "src/app.test.js".to_string(),
        "src/app.js".to_string(),
        "image.png".to_string(),
    ];
    let fc = Some(FilterConfig {
        mode: "exclude".to_string(),
        paths: vec![r"\.test\.js$".to_string()],
    });
    let kept = filter_paths(&paths, &fc);
    let got: Vec<&str> = kept.iter().map(|m| m.path.as_str()).collect();
    assert_eq!(got, vec!["src/main.rs", "src/app.js"]);
}
