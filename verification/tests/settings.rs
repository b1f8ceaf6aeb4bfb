use petal_browser::config::BrowserConfig;
use petal_browser::ui::settings::{
    get_settings_html, SETTINGS_HTML_HEAD, SETTINGS_HTML_MIDDLE, SETTINGS_HTML_TAIL,
};

#[test]
fn settings_page_checks_box_and_escapes_engine() {
    let c = BrowserConfig {
        search_engine: "https://s.test/?q={}&x=\"<'>".to_string(),
        hardware_acceleration: true,
    };
    let html = get_settings_html(&c);
    let expected = format!(
        "{}checked{}https://s.test/?q={{}}&amp;x=&quot;&lt;&#39;&gt;{}",
        SETTINGS_HTML_HEAD, SETTINGS_HTML_MIDDLE, SETTINGS_HTML_TAIL
    );
    assert_eq!(html, expected);
    assert!(html.contains("id=\"hw_accel\" checked>"));
    assert!(html.contains("value=\"https://s.test/?q={}&amp;x=&quot;&lt;&#39;&gt;\">"));
}

#[test]
fn settings_page_unchecked_without_acceleration() {
    let c = BrowserConfig { search_engine: "e{}".to_string(), hardware_acceleration: false };
    let html = get_settings_html(&c);
    assert!(html.contains("id=\"hw_accel\" >"));
    assert!(html.contains("value=\"e{}\">"));
    assert!(html.starts_with("<!DOCTYPE html>"));
    assert!(html.ends_with("</html>"));
    assert!(html.contains("save_config:"));
}
