use accentd::charmap::{builtin_locale, LocaleMap};
use accentd::config::Config;

// --- defaults ---

#[test]
fn default_threshold_is_300ms() {
    let config = Config::default();
    assert_eq!(config.general.threshold_ms, 300);
}

#[test]
fn default_enabled_is_true() {
    let config = Config::default();
    assert!(config.general.enabled);
}

#[test]
fn default_locale_is_italian() {
    let config = Config::default();
    assert_eq!(config.locale.active, "it");
}

#[test]
fn default_popup_font_size_is_24() {
    let config = Config::default();
    assert_eq!(config.popup.font_size, 24);
}

#[test]
fn default_popup_timeout_is_5000() {
    let config = Config::default();
    assert_eq!(config.popup.timeout_ms, 5000);
}

#[test]
fn default_popup_keep_open_is_true() {
    let config = Config::default();
    assert!(config.popup.keep_open);
}

// --- inline locale lookup ---

#[test]
fn inline_locale_prefers_matching_non_empty_table() {
    let mut config = Config::default();
    let table = LocaleMap::from_entries(vec![('e', vec!["ē".to_string()])]).unwrap();
    config.locale.locales.push(("it".to_string(), table));
    let m = config.inline_locale().expect("inline table should win");
    assert_eq!(m.get('e').unwrap()[0], "ē");
}

#[test]
fn inline_locale_skips_empty_and_foreign_tables() {
    let mut config = Config::default();
    config
        .locale
        .locales
        .push(("it".to_string(), LocaleMap::empty()));
    config.locale.locales.push((
        "fr".to_string(),
        LocaleMap::from_entries(vec![('c', vec!["ç".to_string()])]).unwrap(),
    ));
    assert!(config.inline_locale().is_none());
    // the daemon then falls back to the built-in table
    assert!(!builtin_locale(&config.locale.active).is_empty());
}
