use afkaracode::config::{
    global_config_path, load_config, local_config_path, merge_configs, merge_maps, AppConfig,
    CommandMap, FormatterConfig,
};

fn map(pairs: &[(&str, &str)]) -> CommandMap {
    let mut m = CommandMap::new();
    for (k, v) in pairs {
        m.insert(k.to_string(), v.to_string());
    }
    m
}

fn config(enable: Option<bool>, pairs: Option<&[(&str, &str)]>) -> AppConfig {
    AppConfig {
        formatter: Some(FormatterConfig {
            enable,
            commands: pairs.map(map),
        }),
    }
}

#[test]
fn command_map_insert_replaces() {
    let mut m = CommandMap::new();
    m.insert("rs".to_string(), "rustfmt {file}".to_string());
    m.insert("ts".to_string(), "prettier --write {file}".to_string());
    m.insert("rs".to_string(), "rustfmt --edition 2021 {file}".to_string());
    assert_eq!(m.len(), 2);
    assert_eq!(m.get("rs"), Some("rustfmt --edition 2021 {file}".to_string()));
    assert_eq!(m.get("ts"), Some("prettier --write {file}".to_string()));
    assert_eq!(m.get("py"), None);
}

#[test]
fn merge_maps_overlay_wins() {
    let merged = merge_maps(
        Some(map(&[("rs", "rustfmt {file}"), ("go", "gofmt -w {file}")])),
        Some(map(&[("rs", "rustfmt +nightly {file}"), ("py", "black {file}")])),
    )
    .unwrap();
    assert_eq!(merged.len(), 3);
    assert_eq!(merged.get("rs"), Some("rustfmt +nightly {file}".to_string()));
    assert_eq!(merged.get("go"), Some("gofmt -w {file}".to_string()));
    assert_eq!(merged.get("py"), Some("black {file}".to_string()));
}

#[test]
fn merge_maps_one_side_missing() {
    assert!(merge_maps(None, None).is_none());
    let only_base = merge_maps(Some(map(&[("rs", "a")])), None).unwrap();
    assert_eq!(only_base.get("rs"), Some("a".to_string()));
    let only_overlay = merge_maps(None, Some(map(&[("rs", "b")]))).unwrap();
    assert_eq!(only_overlay.get("rs"), Some("b".to_string()));
}

#[test]
fn formatter_enabled_defaults_to_true() {
    assert!(AppConfig::default().formatter_enabled());
    assert!(config(None, None).formatter_enabled());
    assert!(!config(Some(false), None).formatter_enabled());
    assert!(config(Some(true), None).formatter_enabled());
}

#[test]
fn command_for_ext_ignores_ascii_case() {
    let c = config(None, Some(&[("rs", "rustfmt {file}")]));
    assert_eq!(c.command_for_ext("RS"), Some("rustfmt {file}".to_string()));
    assert_eq!(c.command_for_ext("rs"), Some("rustfmt {file}".to_string()));
    assert_eq!(c.command_for_ext("Rs"), Some("rustfmt {file}".to_string()));
    assert_eq!(c.command_for_ext("toml"), None);
    assert_eq!(AppConfig::default().command_for_ext("rs"), None);
}

#[test]
fn local_config_overrides_global() {
    let global = config(Some(false), Some(&[("rs", "rustfmt {file}"), ("go", "gofmt {file}")]));
    let local = config(Some(true), Some(&[("rs", "cargo fmt -- {file}")]));
    let merged = merge_configs(global, local);
    assert!(merged.formatter_enabled());
    assert_eq!(merged.command_for_ext("rs"), Some("cargo fmt -- {file}".to_string()));
    assert_eq!(merged.command_for_ext("go"), Some("gofmt {file}".to_string()));
}

#[test]
fn local_without_enable_keeps_global_setting() {
    let global = config(Some(false), None);
    let local = config(None, Some(&[("md", "mdformat {file}")]));
    let merged = merge_configs(global, local);
    assert!(!merged.formatter_enabled());
    assert_eq!(merged.command_for_ext("md"), Some("mdformat {file}".to_string()));
}

#[test]
fn merge_with_empty_changes_nothing() {
    let merged = merge_configs(AppConfig::default(), config(Some(false), Some(&[("rs", "x")])));
    assert!(!merged.formatter_enabled());
    assert_eq!(merged.command_for_ext("rs"), Some("x".to_string()));
    let merged = merge_configs(config(Some(false), Some(&[("rs", "x")])), AppConfig::default());
    assert!(!merged.formatter_enabled());
    assert_eq!(merged.command_for_ext("rs"), Some("x".to_string()));
}

#[test]
fn merge_is_associative_on_example() {
    let a = || config(Some(true), Some(&[("rs", "a"), ("go", "a")]));
    let b = || config(None, Some(&[("rs", "b")]));
    let c = || config(Some(false), Some(&[("py", "c")]));
    let left = merge_configs(merge_configs(a(), b()), c());
    let right = merge_configs(a(), merge_configs(b(), c()));
    for ext in ["rs", "go", "py", "md"] {
        assert_eq!(left.command_for_ext(ext), right.command_for_ext(ext));
    }
    assert_eq!(left.formatter_enabled(), right.formatter_enabled());
    assert!(!left.formatter_enabled());
}

#[test]
fn load_config_treats_missing_files_as_empty() {
    let c = load_config(None, None);
    assert!(c.formatter.is_none());
    assert!(c.formatter_enabled());
    let c = load_config(None, Some(config(Some(false), None)));
    assert!(!c.formatter_enabled());
    let c = load_config(Some(config(None, Some(&[("rs", "g")]))), None);
    assert_eq!(c.command_for_ext("rs"), Some("g".to_string()));
}

#[test]
fn config_paths() {
    assert_eq!(local_config_path(), ".afkaracode.toml");
    assert_eq!(
        global_config_path("/home/u/.config/afkaracode"),
        "/home/u/.config/afkaracode/config.toml"
    );
    assert_eq!(global_config_path("/etc/"), "/etc/config.toml");
}
