use mod_packer::path::{normalize_separators, path_components, process_file_path, same_text};

#[test]
fn test_process_file_path() {
    assert_eq!(process_file_path("c:a/b/c/d", "c:a/b").ok().unwrap(), "c/d".to_string());
}

#[test]
fn test_process_error_file_path() {
    assert_eq!(
        process_file_path("c:a/b/c/d", "c:a/e").err().unwrap().to_string(),
        "Failed to strip prefix: c:a/e from path: c:a/b/c/d".to_string()
    );
}

#[test]
fn relative_path_uses_forward_slashes() {
    assert_eq!(process_file_path("mods\\demo\\img\\a.png", "mods\\demo").ok().unwrap(), "img/a.png");
    assert_eq!(process_file_path("mods/demo\\img/a.png", "mods\\demo").ok().unwrap(), "img/a.png");
}

#[test]
fn relative_path_needs_whole_components() {
    assert!(process_file_path("a/bc/d", "a/b").is_err());
    assert_eq!(process_file_path("a/b/c", "a/b/").ok().unwrap(), "c");
    assert_eq!(process_file_path("a/b", "a/b").ok().unwrap(), "");
    assert_eq!(process_file_path("a/b", "").ok().unwrap(), "a/b");
    assert!(process_file_path("a", "a/b").is_err());
}

#[test]
fn relative_path_joins_back() {
    let base = "tmp/demo";
    let path = "tmp/demo/img/a.png";
    let rel = process_file_path(path, base).ok().unwrap();
    assert_eq!(format!("{}/{}", base, rel), path);
}

#[test]
fn separators_are_normalized() {
    assert_eq!(normalize_separators("a\\b\\c"), "a/b/c");
    assert_eq!(normalize_separators(""), "");
    assert_eq!(normalize_separators("x/y"), "x/y");
}

#[test]
fn texts_compare_by_characters() {
    assert!(same_text("boot.json", "boot.json"));
    assert!(!same_text("boot.json", "boot.jso"));
    assert!(!same_text("ab", "ac"));
}

#[test]
fn mismatch_names_both_inputs_as_given() {
    match process_file_path("a\\b", "c") {
        Err(mod_packer::path::PathError::PrefixMismatch { path, base }) => {
            assert_eq!(path, "a\\b");
            assert_eq!(base, "c");
        }
        Ok(_) => panic!("expected a mismatch"),
    }
}

#[test]
fn relative_path_reads_components() {
    assert_eq!(process_file_path("c:a//b/c", "c:a/b").ok().unwrap(), "c");
    assert_eq!(process_file_path("a/./b/c", "a/b").ok().unwrap(), "c");
    assert_eq!(process_file_path("./tmp/Demo/img//a.png", "./tmp/Demo/").ok().unwrap(), "img/a.png");
    assert_eq!(process_file_path("/a/b", "").ok().unwrap(), "/a/b");
    assert_eq!(process_file_path("/", "").ok().unwrap(), "/");
    assert_eq!(process_file_path("/", "/").ok().unwrap(), "");
    assert!(process_file_path("./a/b", "a").is_err());
    assert!(process_file_path("/a/b", "a").is_err());
}

#[test]
fn components_of_paths() {
    assert_eq!(path_components("a//b/./c/"), vec!["a", "b", "c"]);
    assert_eq!(path_components("/a"), vec!["", "a"]);
    assert_eq!(path_components("./a"), vec![".", "a"]);
    assert_eq!(path_components(""), Vec::<String>::new());
}
