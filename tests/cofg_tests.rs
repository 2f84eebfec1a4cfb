use mod_packer::cofg::{locale_from_lowercase, parse_log_level, CliArgs, Cofg, LogLevel};
use mod_packer::path::text_ends_with;
use mod_packer::staging::{needs_compile, should_stage, skips_directory};

#[test]
fn default_settings() {
    let c = Cofg::default();
    assert_eq!(c.locale, "en");
    assert_eq!(c.loglv, "info");
    assert_eq!(c.path.tmp_path, "./tmp");
    assert_eq!(c.path.results_path, "./results");
    assert_eq!(c.path.mods_path, "./mods");
    assert!(c.pause);
    assert!(c.ts_process);
    assert_eq!(c.file_name, "{name}.mod.zip");
}

#[test]
fn locale_names() {
    assert_eq!(locale_from_lowercase("zh-cn"), "zh_cn");
    assert_eq!(locale_from_lowercase("tw"), "zh_tw");
    assert_eq!(locale_from_lowercase("en-us"), "en");
    assert_eq!(locale_from_lowercase("fr"), "en");
    let mut c = Cofg::default();
    c.locale = "ZH-CN".to_string();
    assert_eq!(c.normalize_locale(), "zh_cn");
    c.locale = "Zh_Tw".to_string();
    assert_eq!(c.normalize_locale(), "zh_tw");
}

#[test]
fn log_levels() {
    assert_eq!(parse_log_level("debug"), Some(LogLevel::Debug));
    assert_eq!(parse_log_level("DEBUG"), None);
    let mut c = Cofg::default();
    c.loglv = "trace".to_string();
    assert_eq!(c.validate_log_level(), None);
    assert_eq!(c.log_level(), Some(LogLevel::Trace));
    c.loglv = "loud".to_string();
    assert_eq!(c.validate_log_level(), Some("info".to_string()));
    let s = c.settled();
    assert_eq!(s.loglv, "info");
    assert_eq!(s.locale, "en");
}

#[test]
fn command_line_overrides() {
    let c = Cofg::default().load_cli(CliArgs {
        locale: Some("tw".to_string()),
        loglv: None,
        ts_process: false,
        pause: false,
    });
    assert_eq!(c.locale, "tw");
    assert_eq!(c.loglv, "info");
    assert!(c.pause);
    assert!(c.ts_process);
    let mut quiet = Cofg::default();
    quiet.pause = false;
    quiet.ts_process = false;
    let c = quiet.load_cli(CliArgs { locale: None, loglv: Some("trace".to_string()), ts_process: true, pause: false });
    assert_eq!(c.loglv, "trace");
    assert!(!c.pause);
    assert!(c.ts_process);
}

#[test]
fn staging_rules() {
    assert!(should_stage(false, true));
    assert!(!should_stage(true, true));
    assert!(!should_stage(false, false));
    assert!(skips_directory(".git"));
    assert!(!skips_directory("src"));
    assert!(text_ends_with("a.d.ts", ".d.ts"));
    assert!(!text_ends_with("a.ts", ".d.ts"));
    assert!(needs_compile(&vec!["types.d.ts".to_string(), "main.ts".to_string()]));
    assert!(!needs_compile(&vec!["types.d.ts".to_string()]));
    assert!(!needs_compile(&vec![]));
}
