//! The pieces of a tab's web view that the browser computes: where it sits
//! in the window, what its pages report back, the pages the browser serves
//! itself, and the script injected into every page.
use vstd::prelude::*;
use crate::text::{push_chars, push_str_chars, seq_contains_seq, str_chars, u32_to_decimal, decimal_digits, contains_chars};
use crate::ui::CHROME_HEIGHT;

verus! {

/// Where a web view is placed in its window, in pixels.
#[derive(Debug, Clone, Copy, PartialEq, Eq)]
pub struct ViewBounds {
    pub x: i32,
    pub y: i32,
    pub width: u32,
    pub height: u32,
}

/// Where a tab's web view goes in a window of the given inner size: below
/// the chrome, when the window is taller than it; otherwise the web view
/// keeps its default placement.
pub fn webview_bounds(window_width: u32, window_height: u32) -> (r: Option<ViewBounds>)
    ensures
        window_height > 86 ==> r == Some(ViewBounds { x: 0, y: 86, width: window_width, height: (window_height - 86) as u32 }),
        window_height <= 86 ==> r is None,
{
    if window_height > CHROME_HEIGHT {
        Some(ViewBounds { x: 0, y: 86, width: window_width, height: window_height - CHROME_HEIGHT })
    } else {
        None
    }
}

/// Where the web views go after the window was resized to the given size:
/// below the chrome, with no height left when the window is shorter than it.
pub fn resized_webview_bounds(window_width: u32, window_height: u32) -> (r: ViewBounds)
    ensures
        r == (ViewBounds {
            x: 0,
            y: 86,
            width: window_width,
            height: if window_height > 86 { (window_height - 86) as u32 } else { 0 },
        }),
{
    ViewBounds { x: 0, y: 86, width: window_width, height: window_height.saturating_sub(CHROME_HEIGHT) }
}

/// The report a tab sends when a page finished loading: `id|url|address`.
pub open spec fn page_load_payload_spec(tab_id: u32, url: Seq<char>) -> Seq<char> {
    decimal_digits(tab_id as nat) + "|"@ + "url"@ + "|"@ + url
}

/// The IPC message that reports the address a tab finished loading.
pub fn page_load_ipc_payload(tab_id: u32, url: &str) -> (r: String)
    ensures
        r@ == page_load_payload_spec(tab_id, url@),
{
    let mut out = String::new();
    let id = u32_to_decimal(tab_id);
    push_chars(&mut out, id.as_slice());
    push_str_chars(&mut out, "|");
    push_str_chars(&mut out, "url");
    push_str_chars(&mut out, "|");
    push_str_chars(&mut out, url);
    out
}

/// What the `petal://` protocol answers: a status, whether the body is an
/// HTML page, and the body's bytes.
#[derive(Debug, Clone, PartialEq, Eq)]
pub struct ProtocolResponse {
    pub status: u16,
    pub html: bool,
    pub body: Vec<u8>,
}

/// The page shown in a new tab.
pub const NEW_TAB_PAGE: &'static str = r#"<!DOCTYPE html><html><head><title>Nova Aba</title><style>body{background-color:#1e1e1e;color:#d4d4d4;font-family:monospace;display:flex;flex-direction:column;align-items:center;justify-content:center;height:100vh;margin:0;}h1{font-weight:normal;}</style></head><body><h1>Petal Browser</h1><p>Digite um endereço ou pesquisa na barra de tarefas.</p></body></html>"#;

/// The body of the `petal://` answer for an unknown page.
pub const NOT_FOUND_BODY: &'static str = "Not Found";

/// Whether the `petal://` address `uri` names the new-tab page.
pub open spec fn is_new_tab_uri(uri: Seq<char>) -> bool {
    seq_contains_seq(uri, "newtab"@) || seq_contains_seq(uri, "local_cache"@)
}

/// Answers a request of the browser's own `petal://` protocol: the new-tab
/// page for addresses that mention it, 404 otherwise.
pub fn petal_protocol_response(uri: &str) -> (r: ProtocolResponse)
    ensures
        is_new_tab_uri(uri@) ==> r.status == 200 && r.html && r.body@ == vstd::utf8::encode_utf8(NEW_TAB_PAGE@),
        !is_new_tab_uri(uri@) ==> r.status == 404 && !r.html && r.body@ == vstd::utf8::encode_utf8(NOT_FOUND_BODY@),
{
    let chars = str_chars(uri);
    let newtab = str_chars("newtab");
    let local_cache = str_chars("local_cache");
    if contains_chars(chars.as_slice(), newtab.as_slice()) || contains_chars(chars.as_slice(), local_cache.as_slice()) {
        ProtocolResponse { status: 200, html: true, body: NEW_TAB_PAGE.as_bytes_vec() }
    } else {
        ProtocolResponse { status: 404, html: false, body: NOT_FOUND_BODY.as_bytes_vec() }
    }
}

/// The script's text before the list of blocked domains.
pub const INIT_SCRIPT_HEAD: &'static str = r#"
        (function() {
            if (window.__petal_init) return;
            window.__petal_init = true;

            const blocked = "#;

/// The script's text between the blocked domains and the first tab id.
pub const INIT_SCRIPT_BODY: &'static str = r#";
            function isBlocked(urlStr) {
                if (!urlStr) return false;
                try {
                    let parsed = new URL(urlStr, window.location.href);
                    let host = parsed.hostname.toLowerCase();
                    for (let i = 0; i < blocked.length; i++) {
                        if (host === blocked[i] || host.endsWith('.' + blocked[i])) return true;
                    }
                } catch(e) {}
                return false;
            }

            if (window.fetch) {
                const origFetch = window.fetch;
                window.fetch = async function(...args) {
                    let url = (typeof args[0] === 'string') ? args[0] : (args[0] && args[0].url);
                    if (isBlocked(url)) return Promise.reject(new Error('Petal Adblock: Fetch blocked'));
                    return origFetch.apply(this, args);
                };
            }

            if (window.XMLHttpRequest && XMLHttpRequest.prototype.open) {
                const origOpen = XMLHttpRequest.prototype.open;
                XMLHttpRequest.prototype.open = function(...args) {
                    if (isBlocked(args[1])) return;
                    return origOpen.apply(this, args);
                };
            }

            if (window.navigator && navigator.sendBeacon) {
                const origBeacon = navigator.sendBeacon;
                navigator.sendBeacon = function(url, data) {
                    if (isBlocked(url)) return false;
                    return origBeacon.call(navigator, url, data);
                };
            }

            try {
                new MutationObserver((mutations) => {
                    for (let i = 0; i < mutations.length; i++) {
                        let added = mutations[i].addedNodes;
                        for (let j = 0; j < added.length; j++) {
                            let n = added[j];
                            if (n.nodeType === 1) {
                                let tag = n.nodeName;
                                if ((tag === 'SCRIPT' || tag === 'IFRAME' || tag === 'IMG') && n.src) {
                                    if (isBlocked(n.src)) {
                                        n.src = '';
                                        n.remove();
                                    }
                                }
                            }
                        }
                    }
                }).observe(document, { childList: true, subtree: true });
            } catch(e) {}

            window.addEventListener('keydown', function(e) {
                if (e.ctrlKey && e.key && e.key.toLowerCase() === 'l') {
                    e.preventDefault();
                    if (window.ipc) window.ipc.postMessage('"#;

/// The script's text between the two tab ids.
pub const INIT_SCRIPT_MIDDLE: &'static str = r#"|focus_omnibox|');
                }
            });

            let lastTitle = null;
            let titleTimeout = null;
            function notifyTitle(t) {
                let cleanTitle = (t || '').trim();
                if (cleanTitle === lastTitle) return;
                lastTitle = cleanTitle;
                
                if (titleTimeout) clearTimeout(titleTimeout);
                titleTimeout = setTimeout(() => {
                    if (window.ipc) window.ipc.postMessage('"#;

/// The script's text after the second tab id.
pub const INIT_SCRIPT_TAIL: &'static str = r#"|title|' + cleanTitle);
                }, 150);
            }

            // Interceptação direta para SPAs que reescrevem document.title via JS
            try {
                const NativeTitle = Object.getOwnPropertyDescriptor(Document.prototype, 'title');
                if (NativeTitle && NativeTitle.set) {
                    Object.defineProperty(document, 'title', {
                        get: function() { return NativeTitle.get.call(this); },
                        set: function(val) {
                            NativeTitle.set.call(this, val);
                            notifyTitle(val);
                        }
                    });
                }
            } catch(e) {}

            try {
                let titleElement = null;
                let titleObs = new MutationObserver(() => notifyTitle(document.title));
                
                function observeTitleElement(el) {
                    if (!el || titleElement === el) return;
                    titleElement = el;
                    titleObs.disconnect();
                    titleObs.observe(titleElement, { childList: true, characterData: true, subtree: true });
                }

                let headObs = new MutationObserver((mutations) => {
                    let shouldNotify = false;
                    for (let i = 0; i < mutations.length; i++) {
                        let added = mutations[i].addedNodes;
                        for (let j = 0; j < added.length; j++) {
                            if (added[j].nodeName === 'TITLE') {
                                observeTitleElement(added[j]);
                                shouldNotify = true;
                            }
                        }
                    }
                    if (shouldNotify) notifyTitle(document.title);
                });

                function initObservers() {
                    let head = document.querySelector('head') || document.documentElement;
                    if (head) headObs.observe(head, { childList: true });
                    
                    let target = document.querySelector('title');
                    if (target) observeTitleElement(target);
                    
                    notifyTitle(document.title);
                }

                if (document.body || document.head) {
                    initObservers();
                } else {
                    document.addEventListener('DOMContentLoaded', initObservers);
                }
            } catch(e) {}
        })();
    "#;

/// The script injected in every page of tab `tab_id`: it blocks requests to
/// the listed domains, turns Ctrl+L into an address bar focus request and
/// reports the page's title, both tagged with the tab's id.
pub open spec fn init_script_spec(blocked_array_js: Seq<char>, tab_id: u32) -> Seq<char> {
    INIT_SCRIPT_HEAD@ + blocked_array_js + INIT_SCRIPT_BODY@ + decimal_digits(tab_id as nat)
        + INIT_SCRIPT_MIDDLE@ + decimal_digits(tab_id as nat) + INIT_SCRIPT_TAIL@
}

/// The script injected in every page of a tab.
pub fn initialization_script(blocked_array_js: &str, tab_id: u32) -> (r: String)
    ensures
        r@ == init_script_spec(blocked_array_js@, tab_id),
{
    let id = u32_to_decimal(tab_id);
    let mut out = String::new();
    push_str_chars(&mut out, INIT_SCRIPT_HEAD);
    push_str_chars(&mut out, blocked_array_js);
    push_str_chars(&mut out, INIT_SCRIPT_BODY);
    push_chars(&mut out, id.as_slice());
    push_str_chars(&mut out, INIT_SCRIPT_MIDDLE);
    push_chars(&mut out, id.as_slice());
    push_str_chars(&mut out, INIT_SCRIPT_TAIL);
    out
}

/// The engine flags the Windows web view is started with: a lean JavaScript
/// heap and few renderer processes, and no GPU when acceleration is off.
pub open spec fn browser_args_spec(hardware_acceleration: bool) -> Seq<char> {
    let base = "--js-flags=\"--lite-mode --max-old-space-size=128 --scavenger_max_new_space_capacity_mb=4\" --renderer-process-limit=2"@;
    if hardware_acceleration {
        base
    } else {
        base + " --disable-gpu"@
    }
}

/// The extra command-line flags for the Windows web view.
pub fn browser_args(hardware_acceleration: bool) -> (r: String)
    ensures
        r@ == browser_args_spec(hardware_acceleration),
{
    let mut args = String::new();
    push_str_chars(
        &mut args,
        "--js-flags=\"--lite-mode --max-old-space-size=128 --scavenger_max_new_space_capacity_mb=4\" --renderer-process-limit=2",
    );
    if !hardware_acceleration {
        push_str_chars(&mut args, " --disable-gpu");
    }
    args
}

/// What a tab reports when a page finished loading is read back as that
/// tab's new address, and the host accepts it from the tab's own event.
pub proof fn lemma_page_load_report_accepted(tab_id: u32, url: Seq<char>, active_tab_id: Option<u32>)
    requires
        crate::text::utf8_len(page_load_payload_spec(tab_id, url)) <= crate::ipc::MAX_IPC_MESSAGE_BYTES,
    ensures
        crate::ipc::parse_ipc_spec(page_load_payload_spec(tab_id, url)) == Ok::<
            crate::ipc::IpcMessageView,
            crate::ipc::IpcParseError,
        >(crate::ipc::IpcMessageView::UpdateUrl { tab_id, url }),
        crate::ipc::authorize_spec(
            crate::ipc::IpcMessageView::UpdateUrl { tab_id, url },
            active_tab_id,
            crate::ipc::IpcSourceContext::TrustedTabEvent { tab_id },
        ) is Ok,
{
    crate::ipc::lemma_url_message_round_trip(tab_id, url);
}

} // verus!
