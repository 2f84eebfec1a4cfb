use mod_packer::boot_json::{BootJson, Scan};
use mod_packer::package::{archive_file_name, check_empty_dirs, is_under, prune_plan, replace_text, WalkEntry};

fn manifest(name: &str) -> BootJson {
    BootJson {
        name: name.to_string(),
        version: None,
        addition_file: None,
        img_file_list: None,
        script_file_list: None,
        twee_file_list: None,
        style_file_list: None,
        addon_plugin: None,
        dependence_info: None,
    }
}

fn entry(path: &str, is_dir: bool) -> WalkEntry {
    WalkEntry { path: path.to_string(), is_dir }
}

#[test]
fn paths_under_directories() {
    assert!(is_under("img/a.png", "img"));
    assert!(is_under("img/sub/a.png", "img"));
    assert!(!is_under("imgs/a.png", "img"));
    assert!(!is_under("img", "img"));
}

#[test]
fn directory_emptiness_counts_staying_files() {
    let entries = vec![entry("d", true), entry("d/e", true), entry("d/e/x.txt", false)];
    assert!(!check_empty_dirs(&entries, &vec![false, false, false], "d"));
    assert!(check_empty_dirs(&entries, &vec![false, false, true], "d"));
    assert!(check_empty_dirs(&entries, &vec![false, false, true], "d/e"));
    assert!(!check_empty_dirs(&entries, &vec![false, false, false], "f"));
    assert!(!check_empty_dirs(&entries, &vec![false, false, true], "d/e/x.txt"));
}

#[test]
fn pruning_removes_outsiders_and_empty_directories() {
    let mut m = manifest("Foo").with_defaults();
    m.img_file_list = Some(vec!["img/a.png".to_string()]);
    let entries = vec![
        entry("boot.json", false),
        entry("img", true),
        entry("img/a.png", false),
        entry("img/old.png", false),
        entry("src", true),
        entry("src/deep", true),
        entry("src/deep/x.ts", false),
        entry("empty", true),
    ];
    let plan = prune_plan(&m, &entries);
    assert_eq!(plan, vec![false, false, false, true, true, true, true, true]);
}

#[test]
fn replacement_reads_from_the_left() {
    assert_eq!(replace_text("{name}-{name}", "{name}", "X"), "X-X");
    assert_eq!(replace_text("aaa", "aa", "b"), "ba");
    assert_eq!(replace_text("", "x", "y"), "");
    assert_eq!(replace_text("abc", "zz", "y"), "abc");
}

#[test]
fn empty_pattern_occurs_between_characters() {
    assert_eq!(replace_text("abc", "", "-"), "abc".replace("", "-"));
    assert_eq!(replace_text("abc", "", "-"), "-a-b-c-");
    assert_eq!(replace_text("", "", "-"), "-");
}

#[test]
fn archive_name_uses_name_and_version() {
    let mut m = manifest("Demo");
    assert_eq!(archive_file_name("{name}.mod.zip", &m), "Demo.mod.zip");
    assert_eq!(archive_file_name("{name}-{ver}.zip", &m), "Demo-1.0.0.zip");
    m.version = Some("2.0".to_string());
    assert_eq!(archive_file_name("{name}-{version}.zip", &m), "Demo-2.0.zip");
    assert_eq!(archive_file_name("{name}-{ver}.zip", &m), "Demo-2.0.zip");
}

#[test]
fn demo_mod_end_to_end() {
    let mut m = manifest("Demo").with_defaults();
    let scan = Scan {
        addenda: vec![],
        images: vec!["/tmp/Demo/a.png".to_string()],
        scripts: vec![],
        styles: vec![],
        stories: vec![],
        source_maps: vec![],
    };
    m.apply_scan(&scan, "/tmp/Demo");
    assert_eq!(m.img_file_list, Some(vec!["a.png".to_string()]));
    assert!(!m.in_list("notes.txt"));
    let entries = vec![entry("a.png", false), entry("boot.json", false), entry("notes.txt", false)];
    assert_eq!(prune_plan(&m, &entries), vec![false, false, true]);
    assert_eq!(archive_file_name("{name}.mod.zip", &m), "Demo.mod.zip");
}
