use audit_notifier_core::config::{Config, ConfigFile, DesignConfigFile, log_level};

fn file(theme: Option<&str>) -> ConfigFile {
    ConfigFile { design: DesignConfigFile { icon_theme: theme.map(|t| t.to_string()) } }
}

#[test]
fn update_field_overwrites_only_when_set() {
    let mut current = Some(1u32);
    ConfigFile::update_field(&mut current, None);
    assert_eq!(current, Some(1));
    ConfigFile::update_field(&mut current, Some(2));
    assert_eq!(current, Some(2));
    let mut empty: Option<u32> = None;
    ConfigFile::update_field(&mut empty, None);
    assert_eq!(empty, None);
}

#[test]
fn update_takes_the_newer_theme() {
    let mut base = file(Some("dark"));
    base.update(file(None));
    assert_eq!(base.design.icon_theme.as_deref(), Some("dark"));
    base.update(file(Some("light")));
    assert_eq!(base.design.icon_theme.as_deref(), Some("light"));
}

#[test]
fn later_file_wins() {
    let c = Config::from_sources(vec![file(Some("etc")), file(Some("user"))], None);
    assert_eq!(c.icon_theme, "user");
}

#[test]
fn unset_files_fall_through() {
    let c = Config::from_sources(vec![file(Some("etc")), file(None)], None);
    assert_eq!(c.icon_theme, "etc");
}

#[test]
fn default_theme_with_no_files() {
    let c = Config::from_sources(vec![], None);
    assert_eq!(c.icon_theme, "default");
    let c = Config::from_sources(vec![file(None)], None);
    assert_eq!(c.icon_theme, "default");
}

#[test]
fn command_line_overrides_files() {
    let c = Config::from_sources(vec![file(Some("etc"))], Some("cli".to_string()));
    assert_eq!(c.icon_theme, "cli");
}

#[test]
fn verbosity_selects_log_level() {
    assert_eq!(log_level(0), "off");
    assert_eq!(log_level(1), "info");
    assert_eq!(log_level(2), "debug");
    assert_eq!(log_level(9), "debug");
}
