use petal_browser::config::{config_dir_components, BrowserConfig, ConfigPlatform};

fn cfg(engine: &str, hw: bool) -> BrowserConfig {
    BrowserConfig { search_engine: engine.to_string(), hardware_acceleration: hw }
}

#[test]
fn default_config_uses_duckduckgo_with_acceleration() {
    let c = BrowserConfig::default();
    assert_eq!(c.search_engine, "https://duckduckgo.com/?q={}");
    assert!(c.hardware_acceleration);
}

#[test]
fn validate_trims_usable_engine() {
    let mut c = cfg("  https://s.test/?q={} \n", false);
    c.validate();
    assert_eq!(c.search_engine, "https://s.test/?q={}");
    assert!(!c.hardware_acceleration);
}

#[test]
fn validate_replaces_unusable_engine() {
    for bad in ["", "   ", "https://s.test/?q=", "{ }"] {
        let mut c = cfg(bad, true);
        c.validate();
        assert_eq!(c.search_engine, "https://duckduckgo.com/?q={}");
    }
}

#[test]
fn validate_twice_is_validate_once() {
    let mut c = cfg(" x{}y ", true);
    c.validate();
    let once = c.search_engine.clone();
    c.validate();
    assert_eq!(c.search_engine, once);
    assert_eq!(once, "x{}y");
}

#[test]
fn unescape_known_escapes() {
    assert_eq!(BrowserConfig::unescape_value_legacy("a\\nb"), "a\nb");
    assert_eq!(BrowserConfig::unescape_value_legacy("\\r"), "\r");
    assert_eq!(BrowserConfig::unescape_value_legacy("\\\\"), "\\");
    assert_eq!(BrowserConfig::unescape_value_legacy("\\x"), "\\x");
    assert_eq!(BrowserConfig::unescape_value_legacy("end\\"), "end\\");
    assert_eq!(BrowserConfig::unescape_value_legacy("plain"), "plain");
    assert_eq!(BrowserConfig::unescape_value_legacy(""), "");
}

#[test]
fn legacy_ini_reads_known_keys() {
    let mut c = BrowserConfig::default();
    c.apply_legacy_ini(
        "# comment\n\n  search_engine = https://x.test/?q={}&a=\\\\b  \r\nhardware_acceleration=false\nunknown=1\nnoequals\n",
    );
    assert_eq!(c.search_engine, "https://x.test/?q={}&a=\\b");
    assert!(!c.hardware_acceleration);
}

#[test]
fn legacy_ini_only_true_enables_acceleration() {
    let mut c = cfg("e{}", false);
    c.apply_legacy_ini("hardware_acceleration = TRUE");
    assert!(!c.hardware_acceleration);
    c.apply_legacy_ini("hardware_acceleration = true");
    assert!(c.hardware_acceleration);
    assert_eq!(c.search_engine, "e{}");
}

#[test]
fn legacy_ini_later_lines_win() {
    let mut c = BrowserConfig::default();
    c.apply_legacy_ini("search_engine=a{}\nsearch_engine=b{}");
    assert_eq!(c.search_engine, "b{}");
}

#[test]
fn config_dir_on_windows() {
    assert_eq!(
        config_dir_components(ConfigPlatform::Windows, Some("C:\\App".to_string()), None, None),
        Ok(vec!["C:\\App".to_string(), "PetalBrowser".to_string()])
    );
    assert_eq!(
        config_dir_components(ConfigPlatform::Windows, None, Some("/h".to_string()), None),
        Err("Variável de ambiente APPDATA não encontrada no Windows.".to_string())
    );
}

#[test]
fn config_dir_on_macos() {
    assert_eq!(
        config_dir_components(ConfigPlatform::MacOs, None, Some("/Users/u".to_string()), None),
        Ok(vec![
            "/Users/u".to_string(),
            "Library".to_string(),
            "Application Support".to_string(),
            "PetalBrowser".to_string()
        ])
    );
    assert_eq!(
        config_dir_components(ConfigPlatform::MacOs, None, None, Some("/x".to_string())),
        Err("Variável de ambiente HOME não encontrada no macOS.".to_string())
    );
}

#[test]
fn config_dir_on_unix() {
    assert_eq!(
        config_dir_components(ConfigPlatform::Unix, None, Some("/home/u".to_string()), Some("/cfg".to_string())),
        Ok(vec!["/cfg".to_string(), "PetalBrowser".to_string()])
    );
    assert_eq!(
        config_dir_components(ConfigPlatform::Unix, None, Some("/home/u".to_string()), None),
        Ok(vec!["/home/u".to_string(), ".config".to_string(), "PetalBrowser".to_string()])
    );
    assert_eq!(
        config_dir_components(ConfigPlatform::Unix, Some("a".to_string()), None, None),
        Err("Variáveis de ambiente XDG_CONFIG_HOME ou HOME não encontradas no Linux/Unix.".to_string())
    );
}
