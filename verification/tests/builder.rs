use petal_browser::engine::builder::{
    browser_args, initialization_script, page_load_ipc_payload, petal_protocol_response,
    resized_webview_bounds, webview_bounds, ViewBounds, INIT_SCRIPT_BODY, INIT_SCRIPT_HEAD,
    INIT_SCRIPT_MIDDLE, INIT_SCRIPT_TAIL, NEW_TAB_PAGE, NOT_FOUND_BODY,
};
use petal_browser::ipc::{authorize_ipc_message, parse_ipc_message, BrowserIpcMessage, IpcSourceContext};

#[test]
fn webview_sits_below_chrome() {
    assert_eq!(
        webview_bounds(800, 600),
        Some(ViewBounds { x: 0, y: 86, width: 800, height: 514 })
    );
    assert_eq!(webview_bounds(800, 86), None);
    assert_eq!(webview_bounds(800, 10), None);
}

#[test]
fn resized_webview_has_no_height_when_window_is_short() {
    assert_eq!(resized_webview_bounds(640, 480), ViewBounds { x: 0, y: 86, width: 640, height: 394 });
    assert_eq!(resized_webview_bounds(640, 50), ViewBounds { x: 0, y: 86, width: 640, height: 0 });
}

#[test]
fn page_load_report_format() {
    assert_eq!(page_load_ipc_payload(12, "https://a.test/x|y"), "12|url|https://a.test/x|y");
    assert_eq!(page_load_ipc_payload(0, ""), "0|url|");
    assert_eq!(page_load_ipc_payload(4294967295, "u"), "4294967295|url|u");
}

#[test]
fn page_load_report_is_accepted_from_own_tab_event() {
    let payload = page_load_ipc_payload(9, "https://b.test");
    let msg = parse_ipc_message(&payload).unwrap();
    assert_eq!(msg, BrowserIpcMessage::UpdateUrl { tab_id: 9, url: "https://b.test".to_string() });
    assert_eq!(
        authorize_ipc_message(&msg, Some(3), IpcSourceContext::TrustedTabEvent { tab_id: 9 }),
        Ok(())
    );
}

#[test]
fn protocol_serves_new_tab_page() {
    let r = petal_protocol_response("petal://newtab");
    assert_eq!(r.status, 200);
    assert!(r.html);
    assert_eq!(r.body, NEW_TAB_PAGE.as_bytes().to_vec());
    assert!(String::from_utf8(r.body).unwrap().contains("Digite um endereço"));
    assert_eq!(petal_protocol_response("petal://x/local_cache").status, 200);
}

#[test]
fn protocol_answers_404_otherwise() {
    let r = petal_protocol_response("petal://settings");
    assert_eq!(r.status, 404);
    assert!(!r.html);
    assert_eq!(r.body, b"Not Found".to_vec());
    assert_eq!(NOT_FOUND_BODY, "Not Found");
}

#[test]
fn init_script_embeds_blocklist_and_tab_id() {
    let s = initialization_script("[\"a.test\"]", 42);
    assert_eq!(
        s,
        format!(
            "{}[\"a.test\"]{}42{}42{}",
            INIT_SCRIPT_HEAD, INIT_SCRIPT_BODY, INIT_SCRIPT_MIDDLE, INIT_SCRIPT_TAIL
        )
    );
    assert!(s.contains("const blocked = [\"a.test\"];"));
    assert!(s.contains("window.ipc.postMessage('42|focus_omnibox|');"));
    assert!(s.contains("window.ipc.postMessage('42|title|' + cleanTitle);"));
}

#[test]
fn engine_flags_follow_acceleration() {
    let base = "--js-flags=\"--lite-mode --max-old-space-size=128 --scavenger_max_new_space_capacity_mb=4\" --renderer-process-limit=2";
    assert_eq!(browser_args(true), base);
    assert_eq!(browser_args(false), format!("{} --disable-gpu", base));
}
