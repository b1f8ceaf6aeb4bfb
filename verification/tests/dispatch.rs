use petal_browser::dispatch::{handle_ipc_envelope, next_tab_index, IpcOutcome};
use petal_browser::fsm::tab_manager::TabManager;
use petal_browser::ipc::{BrowserIpcEnvelope, IpcSourceContext};
use petal_browser::ui::omnibox::OmniboxState;

fn two_tabs() -> TabManager {
    let mut tm = TabManager::new();
    tm.new_tab("https://a.test".to_string());
    tm
}

#[test]
fn title_from_own_page_updates_that_tab() {
    let mut tm = two_tabs();
    let mut om = OmniboxState::new();
    let env = BrowserIpcEnvelope::content_webview(1, "1|title|Start".to_string());
    assert_eq!(handle_ipc_envelope(&mut tm, &mut om, &env), IpcOutcome::TabsChanged);
    assert_eq!(tm.tabs[0].title, "Start");
    assert_eq!(tm.tabs[1].title, "");
    assert_eq!(tm.active_index, 1);
}

#[test]
fn url_from_tab_event_updates_that_tab() {
    let mut tm = two_tabs();
    let mut om = OmniboxState::new();
    let env = BrowserIpcEnvelope::trusted_tab_event(2, "2|url|https://b.test/p|q".to_string());
    assert_eq!(handle_ipc_envelope(&mut tm, &mut om, &env), IpcOutcome::TabsChanged);
    assert_eq!(tm.tabs[1].url, "https://b.test/p|q");
    assert_eq!(tm.tabs[0].url, "https://magma.browser/local_cache");
}

#[test]
fn refused_messages_change_nothing() {
    let mut tm = two_tabs();
    let mut om = OmniboxState::new();
    let cases = [
        BrowserIpcEnvelope::content_webview(2, "2|url|https://spoof.test".to_string()),
        BrowserIpcEnvelope::content_webview(2, "1|title|Spoof".to_string()),
        BrowserIpcEnvelope::content_webview(2, "2|focus_omnibox|".to_string()),
        BrowserIpcEnvelope::content_webview(2, "save_config:{}".to_string()),
        BrowserIpcEnvelope::trusted_tab_event(2, "2|title|x".to_string()),
        BrowserIpcEnvelope { source_context: IpcSourceContext::SettingsWebView, payload: "2|title|x".to_string() },
        BrowserIpcEnvelope::content_webview(2, "".to_string()),
        BrowserIpcEnvelope::content_webview(2, "x|title|y".to_string()),
    ];
    for env in cases.iter() {
        assert_eq!(handle_ipc_envelope(&mut tm, &mut om, env), IpcOutcome::Rejected);
    }
    assert_eq!(tm.tabs[0].title, "");
    assert_eq!(tm.tabs[1].title, "");
    assert_eq!(tm.tabs[1].url, "https://a.test");
    assert!(!om.is_focused);
}

#[test]
fn save_config_from_settings_is_handed_back() {
    let mut tm = two_tabs();
    let mut om = OmniboxState::new();
    let env = BrowserIpcEnvelope {
        source_context: IpcSourceContext::SettingsWebView,
        payload: "save_config:{\"hardware_acceleration\":false}".to_string(),
    };
    assert_eq!(
        handle_ipc_envelope(&mut tm, &mut om, &env),
        IpcOutcome::SaveConfig { json: "{\"hardware_acceleration\":false}".to_string() }
    );
}

#[test]
fn title_for_unknown_tab_changes_no_tab() {
    let mut tm = two_tabs();
    let mut om = OmniboxState::new();
    let env = BrowserIpcEnvelope::content_webview(77, "77|title|Gone".to_string());
    assert_eq!(handle_ipc_envelope(&mut tm, &mut om, &env), IpcOutcome::TabsChanged);
    assert_eq!(tm.tabs[0].title, "");
    assert_eq!(tm.tabs[1].title, "");
}

#[test]
fn tab_key_cycles_through_tabs() {
    assert_eq!(next_tab_index(0, 3, false), 1);
    assert_eq!(next_tab_index(2, 3, false), 0);
    assert_eq!(next_tab_index(0, 3, true), 2);
    assert_eq!(next_tab_index(1, 3, true), 0);
    assert_eq!(next_tab_index(0, 1, false), 0);
    assert_eq!(next_tab_index(0, 1, true), 0);
}
