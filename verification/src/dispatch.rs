//! What the host does with one message from a web view: parse it, check that
//! its sender may send it, and apply it to the tabs and the address bar.
use vstd::prelude::*;
use crate::fsm::tab_manager::{first_with_id, lemma_first_with_id_props, Tab, TabManager};
use crate::ipc::{
    authorize_ipc_message, authorize_spec, parse_ipc_message, parse_ipc_spec, BrowserIpcEnvelope,
    BrowserIpcMessage, IpcMessageView, IpcParseError, IpcSourceContext,
};
use crate::ui::omnibox::OmniboxState;
use vstd::arithmetic::div_mod::lemma_fundamental_div_mod_converse;

verus! {

/// What the host has left to do after a message was handled.
#[derive(Debug, Clone, PartialEq, Eq)]
pub enum IpcOutcome {
    /// The message was malformed or its sender may not send it; nothing changed.
    Rejected,
    /// A tab's title or address changed: redraw the tab bar.
    TabsChanged,
    /// The address bar took the focus: bring the window forward and redraw.
    OmniboxFocused,
    /// The settings page asked to save these settings, as JSON.
    SaveConfig { json: String },
}

/// The id of the tab in front, if the front index is valid.
pub open spec fn active_tab_id(tm: TabManager) -> Option<u32> {
    if tm.active_index < tm.tabs@.len() {
        Some(tm.tabs@[tm.active_index as int].id)
    } else {
        None
    }
}

/// `new` is `old` with the first tab whose id is `id`, if any, changed by
/// `changed` and nothing else.
pub open spec fn first_tab_changed(old: Seq<Tab>, new: Seq<Tab>, id: u32, changed: spec_fn(Tab, Tab) -> bool) -> bool {
    match first_with_id(old, id) {
        None => new == old,
        Some(k) => {
            &&& new.len() == old.len()
            &&& forall|j: int| 0 <= j < new.len() && j != k ==> #[trigger] new[j] == old[j]
            &&& changed(old[k], new[k])
        },
    }
}

/// The message the envelope carries, if it parses and its sender may send it.
pub open spec fn accepted_message(envelope: BrowserIpcEnvelope, tm: TabManager) -> Option<IpcMessageView> {
    match parse_ipc_spec(envelope.payload@) {
        Ok(m) => if authorize_spec(m, active_tab_id(tm), envelope.source_context) is Ok {
            Some(m)
        } else {
            None
        },
        Err(_) => None,
    }
}

fn accept(tabs: &TabManager, envelope: &BrowserIpcEnvelope) -> (r: Option<BrowserIpcMessage>)
    ensures
        match r {
            Some(m) => accepted_message(*envelope, *tabs) == Some(m@),
            None => accepted_message(*envelope, *tabs) is None,
        },
{
    let message = match parse_ipc_message(envelope.payload.as_str()) {
        Ok(m) => m,
        Err(_) => {
            return None;
        },
    };
    let active_id = match tabs.get_active_tab() {
        Some(t) => Some(t.id),
        None => None,
    };
    if authorize_ipc_message(&message, active_id, envelope.source_context).is_err() {
        return None;
    }
    Some(message)
}

/// Handles one message: a refused message changes nothing; an accepted title
/// or address report updates that tab; an address bar request focuses it on
/// the address of the tab in front; a settings request is handed back.
#[verifier::rlimit(40)]
pub fn handle_ipc_envelope(
    tabs: &mut TabManager,
    omnibox: &mut OmniboxState,
    envelope: &BrowserIpcEnvelope,
) -> (r: IpcOutcome)
    ensures
        final(tabs).active_index == old(tabs).active_index,
        final(tabs).spec_next_id() == old(tabs).spec_next_id(),
        old(tabs).wf() ==> final(tabs).wf(),
        old(omnibox).cursor_valid() ==> final(omnibox).cursor_valid(),
        old(omnibox).history_index_valid() ==> final(omnibox).history_index_valid(),
        accepted_message(*envelope, *old(tabs)) is None ==> r == IpcOutcome::Rejected
            && *final(tabs) == *old(tabs) && *final(omnibox) == *old(omnibox),
        accepted_message(*envelope, *old(tabs)) matches Some(IpcMessageView::UpdateTitle { tab_id, title })
            ==> r == IpcOutcome::TabsChanged && *final(omnibox) == *old(omnibox)
            && first_tab_changed(old(tabs).tabs@, final(tabs).tabs@, tab_id, |a: Tab, b: Tab| b == (Tab { title: b.title, ..a }) && b.title@ == title),
        accepted_message(*envelope, *old(tabs)) matches Some(IpcMessageView::UpdateUrl { tab_id, url })
            ==> r == IpcOutcome::TabsChanged && *final(omnibox) == *old(omnibox)
            && first_tab_changed(old(tabs).tabs@, final(tabs).tabs@, tab_id, |a: Tab, b: Tab| b == (Tab { url: b.url, ..a }) && b.url@ == url),
        accepted_message(*envelope, *old(tabs)) matches Some(IpcMessageView::FocusOmnibox { .. })
            ==> r == IpcOutcome::OmniboxFocused && *final(tabs) == *old(tabs),
        accepted_message(*envelope, *old(tabs)) matches Some(IpcMessageView::FocusOmnibox { .. })
            && active_tab_id(*old(tabs)) is Some ==> final(omnibox).is_focused
            && final(omnibox).input@ == old(tabs).tabs@[old(tabs).active_index as int].url@,
        accepted_message(*envelope, *old(tabs)) matches Some(IpcMessageView::FocusOmnibox { .. })
            && active_tab_id(*old(tabs)) is None ==> *final(omnibox) == *old(omnibox),
        accepted_message(*envelope, *old(tabs)) matches Some(IpcMessageView::SaveConfig { json })
            ==> (r matches IpcOutcome::SaveConfig { json: j } && j@ == json) && *final(tabs) == *old(tabs)
            && *final(omnibox) == *old(omnibox),
{
    let message = match accept(tabs, envelope) {
        Some(m) => m,
        None => {
            return IpcOutcome::Rejected;
        },
    };
    match message {
        BrowserIpcMessage::UpdateTitle { tab_id, title } => {
            let ghost t = title;
            assert(*tabs == *old(tabs));
            tabs.update_tab_title(tab_id, title);
            proof {
                lemma_first_with_id_props(old(tabs).tabs@, tab_id);
                let f = |a: Tab, b: Tab| b == (Tab { title: b.title, ..a }) && b.title@ == t@;
                if let Some(k) = first_with_id(old(tabs).tabs@, tab_id) {
                    assert(tabs.tabs@[k] == Tab { title: t, ..old(tabs).tabs@[k] });
                    assert(f(old(tabs).tabs@[k], tabs.tabs@[k]));
                }
                assert(first_tab_changed(old(tabs).tabs@, tabs.tabs@, tab_id, f));
            }
            IpcOutcome::TabsChanged
        },
        BrowserIpcMessage::UpdateUrl { tab_id, url } => {
            let ghost u = url;
            assert(*tabs == *old(tabs));
            tabs.update_tab_url(tab_id, url);
            proof {
                lemma_first_with_id_props(old(tabs).tabs@, tab_id);
                let f = |a: Tab, b: Tab| b == (Tab { url: b.url, ..a }) && b.url@ == u@;
                if let Some(k) = first_with_id(old(tabs).tabs@, tab_id) {
                    assert(tabs.tabs@[k] == Tab { url: u, ..old(tabs).tabs@[k] });
                    assert(f(old(tabs).tabs@[k], tabs.tabs@[k]));
                }
                assert(first_tab_changed(old(tabs).tabs@, tabs.tabs@, tab_id, f));
            }
            IpcOutcome::TabsChanged
        },
        BrowserIpcMessage::FocusOmnibox { .. } => {
            if let Some(active) = tabs.get_active_tab() {
                omnibox.focus(active.url.as_str());
            }
            IpcOutcome::OmniboxFocused
        },
        BrowserIpcMessage::SaveConfig { json } => IpcOutcome::SaveConfig { json },
    }
}

/// The tab that Tab (or Shift+Tab, going back) brings in front, cycling
/// through the `len` tabs.
pub open spec fn next_tab_index_spec(active_index: int, len: int, backwards: bool) -> int {
    if backwards {
        if active_index == 0 { len - 1 } else { active_index - 1 }
    } else if active_index + 1 >= len {
        0
    } else {
        active_index + 1
    }
}

/// The tab that Tab (or Shift+Tab) brings in front.
pub fn next_tab_index(active_index: usize, len: usize, backwards: bool) -> (r: usize)
    requires
        len > 0,
        active_index < usize::MAX,
    ensures
        r == next_tab_index_spec(active_index as int, len as int, backwards),
        active_index < len ==> r < len,
{
    let next = active_index + 1;
    if backwards {
        if active_index == 0 {
            len - 1
        } else {
            active_index - 1
        }
    } else if next >= len {
        0
    } else {
        next
    }
}

/// The host acts on a message exactly when it parses and its sender may
/// send it; a message from a page can therefore only ever change the title
/// of the page's own tab.
pub proof fn lemma_accepted_iff_parsed_and_allowed(envelope: BrowserIpcEnvelope, tm: TabManager, m: IpcMessageView)
    ensures
        accepted_message(envelope, tm) == Some(m) <==> parse_ipc_spec(envelope.payload@) == Ok::<
            IpcMessageView,
            IpcParseError,
        >(m) && authorize_spec(m, active_tab_id(tm), envelope.source_context) is Ok,
        envelope.source_context matches IpcSourceContext::ContentWebView { tab_id } ==> (accepted_message(
            envelope,
            tm,
        ) is Some ==> (accepted_message(envelope, tm) matches Some(IpcMessageView::UpdateTitle { tab_id: t, .. })
            && t == tab_id)),
{
    if let IpcSourceContext::ContentWebView { tab_id } = envelope.source_context {
        if let Some(a) = accepted_message(envelope, tm) {
            crate::ipc::lemma_content_only_reports_own_title(a, active_tab_id(tm), tab_id);
        }
    }
}

/// Tab steps to the next tab and Shift+Tab to the previous one, wrapping
/// around at the ends, so pressing either repeatedly visits every tab.
pub proof fn lemma_next_tab_cycles(i: int, len: int)
    requires
        0 <= i < len,
    ensures
        next_tab_index_spec(i, len, false) == (i + 1) % len,
        next_tab_index_spec(i, len, true) == (i + len - 1) % len,
{
    if i + 1 < len {
        lemma_fundamental_div_mod_converse(i + 1, len, 0, i + 1);
    } else {
        lemma_fundamental_div_mod_converse(i + 1, len, 1, 0);
    }
    if i == 0 {
        lemma_fundamental_div_mod_converse(i + len - 1, len, 0, len - 1);
    } else {
        lemma_fundamental_div_mod_converse(i + len - 1, len, 1, i - 1);
    }
}

} // verus!
