use mod_packer::boot_json::{add_found, keep_found, top_file_path, BootJson, Scan, ScanError};

fn manifest(name: &str) -> BootJson {
    BootJson {
        name: name.to_string(),
        version: None,
        addition_file: None,
        img_file_list: None,
        script_file_list: None,
        twee_file_list: None,
        style_file_list: None,
        addon_plugin: None,
        dependence_info: None,
    }
}

fn strings(items: &[&str]) -> Vec<String> {
    items.iter().map(|s| s.to_string()).collect()
}

fn sample_scan() -> Scan {
    Scan {
        addenda: strings(&["README.md"]),
        images: strings(&["/w/a.png", "/w/img/b.png", "/other/c.png", "/w/a.png"]),
        scripts: strings(&["/w/main.js"]),
        styles: strings(&["/w/style.css"]),
        stories: strings(&["/w/story.twee"]),
        source_maps: strings(&["/w/main.js.map"]),
    }
}

#[test]
fn defaults_fill_absent_fields() {
    let m = manifest("Foo").with_defaults();
    assert_eq!(m.name, "Foo");
    assert_eq!(m.version.as_deref(), Some("1.0.0"));
    assert_eq!(m.addition_file, Some(vec![]));
    assert_eq!(m.img_file_list, Some(vec![]));
    assert_eq!(m.script_file_list, Some(vec![]));
    assert_eq!(m.twee_file_list, Some(vec![]));
    assert_eq!(m.style_file_list, Some(vec![]));
    assert_eq!(m.addon_plugin.map(|v| v.len()), Some(0));
    assert_eq!(m.dependence_info.map(|v| v.len()), Some(0));
}

#[test]
fn defaults_keep_given_fields() {
    let mut m = manifest("Foo");
    m.version = Some("2.1.0".to_string());
    m.img_file_list = Some(strings(&["a.png"]));
    let m = m.with_defaults();
    assert_eq!(m.version.as_deref(), Some("2.1.0"));
    assert_eq!(m.img_file_list, Some(strings(&["a.png"])));
}

#[test]
fn manifest_file_is_always_member() {
    let m = manifest("Foo");
    assert!(m.in_list("boot.json"));
    assert!(!m.in_list("a.png"));
    assert!(!m.in_list(""));
}

#[test]
fn membership_follows_lists() {
    let mut m = manifest("Foo").with_defaults();
    m.img_file_list = Some(strings(&["img/a.png"]));
    m.addition_file = Some(strings(&["README.md"]));
    assert!(m.in_list("img/a.png"));
    assert!(m.in_list("img\\a.png"));
    assert!(m.in_list("README.md"));
    assert!(!m.in_list("img/b.png"));
    assert!(!m.in_list("notes.txt"));
}

#[test]
fn scan_merges_relative_paths() {
    let mut m = manifest("Foo");
    m.img_file_list = Some(strings(&["img/b.png"]));
    m.apply_scan(&sample_scan(), "/w");
    assert_eq!(m.img_file_list, Some(strings(&["img/b.png", "a.png"])));
    assert_eq!(m.script_file_list, Some(strings(&["main.js"])));
    assert_eq!(m.style_file_list, Some(strings(&["style.css"])));
    assert_eq!(m.twee_file_list, Some(strings(&["story.twee"])));
    assert_eq!(m.addition_file, Some(strings(&["README.md", "main.js.map"])));
    assert_eq!(m.addon_plugin.map(|v| v.len()), Some(0));
    assert_eq!(m.dependence_info.map(|v| v.len()), Some(0));
}

#[test]
fn second_scan_adds_nothing() {
    let mut m = manifest("Foo");
    m.apply_scan(&sample_scan(), "/w");
    let images = m.img_file_list.clone();
    let addenda = m.addition_file.clone();
    m.apply_scan(&sample_scan(), "/w");
    assert_eq!(m.img_file_list, images);
    assert_eq!(m.addition_file, addenda);
    assert_eq!(m.script_file_list, Some(strings(&["main.js"])));
}

#[test]
fn update_on_missing_directory_makes_empty_lists() {
    let mut m = manifest("Foo");
    assert!(m.update_file_lists("/no/such/dir/for/this/test").is_ok());
    assert_eq!(m.img_file_list, Some(vec![]));
    assert_eq!(m.addition_file, Some(vec![]));
    assert_eq!(m.twee_file_list, Some(vec![]));
}

#[test]
fn update_with_malformed_pattern_fails_and_only_fills_lists() {
    let mut m = manifest("Foo");
    let r = m.update_file_lists("/w/[");
    assert!(matches!(r, Err(ScanError::Pattern(_))));
    assert_eq!(m.img_file_list, Some(vec![]));
    assert_eq!(m.addition_file, Some(vec![]));
    assert_eq!(m.addon_plugin.map(|v| v.len()), Some(0));
}

#[test]
fn scan_with_backslash_paths_records_forward_slashes() {
    let mut m = manifest("Foo");
    let scan = Scan {
        addenda: vec![],
        images: strings(&["C:\\w\\img\\a.png", "C:/w/img/a.png"]),
        scripts: vec![],
        styles: vec![],
        stories: vec![],
        source_maps: vec![],
    };
    m.apply_scan(&scan, "C:\\w");
    assert_eq!(m.img_file_list, Some(strings(&["img/a.png"])));
    assert!(m.in_list("img\\a.png"));
}

#[test]
fn found_files_are_appended_once() {
    let mut list = strings(&["a.png"]);
    add_found(&mut list, &strings(&["/w/a.png", "/w//b.png", "/x/c.png", "/w/./b.png"]), "/w");
    assert_eq!(list, strings(&["a.png", "b.png"]));
}

#[test]
fn glob_entries_are_kept_below_the_directory() {
    let entries: Vec<Result<Option<String>, glob::GlobError>> = vec![
        Ok(Some("/w/a.png".to_string())),
        Ok(None),
        Ok(Some("/w/notes.txt".to_string())),
        Ok(Some("/x/b.png".to_string())),
        Ok(Some("/w/img/c.png".to_string())),
    ];
    let kept = keep_found(entries, "/w", "png").ok().unwrap();
    assert_eq!(kept, strings(&["/w/a.png", "/w/img/c.png"]));
    assert_eq!(keep_found(vec![], "/w", "png").ok().unwrap(), Vec::<String>::new());
}

#[test]
fn top_file_paths() {
    assert_eq!(top_file_path("/w", "README.md"), "/w/README.md");
}
