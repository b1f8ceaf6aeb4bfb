//! The text protocol spoken between web views and the browser host, and the
//! rules that decide which sender may issue which command.
use vstd::prelude::*;
use crate::text::{
    all_ascii_digits, decimal_digits, is_ascii_digit, lemma_decimal_digits,
    lemma_first_index_of_unique, lemma_parse_decimal_u32, chars_eq, find_char, first_index_of, lemma_first_index_of, parse_u32_decimal, parse_u32_spec,
    seq_starts_with, starts_with_chars, str_chars, string_from_chars, utf8_len, utf8_len_exceeds,
};

verus! {

/// Largest accepted message, in bytes of its UTF-8 encoding.
pub const MAX_IPC_MESSAGE_BYTES: usize = 64 * 1024;

/// A command sent to the browser host.
#[derive(Debug, Clone, PartialEq, Eq)]
pub enum BrowserIpcMessage {
    UpdateTitle { tab_id: u32, title: String },
    UpdateUrl { tab_id: u32, url: String },
    FocusOmnibox { tab_id: u32 },
    SaveConfig { json: String },
}

/// A command with its strings taken as character sequences.
pub enum IpcMessageView {
    UpdateTitle { tab_id: u32, title: Seq<char> },
    UpdateUrl { tab_id: u32, url: Seq<char> },
    FocusOmnibox { tab_id: u32 },
    SaveConfig { json: Seq<char> },
}

impl View for BrowserIpcMessage {
    type V = IpcMessageView;

    open spec fn view(&self) -> IpcMessageView {
        match self {
            BrowserIpcMessage::UpdateTitle { tab_id, title } => IpcMessageView::UpdateTitle {
                tab_id: *tab_id,
                title: title@,
            },
            BrowserIpcMessage::UpdateUrl { tab_id, url } => IpcMessageView::UpdateUrl {
                tab_id: *tab_id,
                url: url@,
            },
            BrowserIpcMessage::FocusOmnibox { tab_id } => IpcMessageView::FocusOmnibox {
                tab_id: *tab_id,
            },
            BrowserIpcMessage::SaveConfig { json } => IpcMessageView::SaveConfig { json: json@ },
        }
    }
}

/// A raw message together with the context it arrived from.
#[derive(Debug, Clone, PartialEq, Eq)]
pub struct BrowserIpcEnvelope {
    pub source_context: IpcSourceContext,
    pub payload: String,
}

impl BrowserIpcEnvelope {
    /// A message raised by the host itself on behalf of a tab.
    pub fn trusted_tab_event(tab_id: u32, payload: String) -> (e: Self)
        ensures
            e.source_context == (IpcSourceContext::TrustedTabEvent { tab_id }),
            e.payload == payload,
    {
        Self { source_context: IpcSourceContext::TrustedTabEvent { tab_id }, payload }
    }

    /// A message posted by the page loaded in a tab's web view.
    pub fn content_webview(tab_id: u32, payload: String) -> (e: Self)
        ensures
            e.source_context == (IpcSourceContext::ContentWebView { tab_id }),
            e.payload == payload,
    {
        Self { source_context: IpcSourceContext::ContentWebView { tab_id }, payload }
    }
}

/// Where a message came from.
#[derive(Debug, Clone, Copy, PartialEq, Eq)]
pub enum IpcSourceContext {
    TrustedTabEvent { tab_id: u32 },
    ContentWebView { tab_id: u32 },
    SettingsWebView,
}

/// Why a message could not be parsed.
#[derive(Debug, Clone, PartialEq, Eq)]
pub enum IpcParseError {
    Empty,
    TooLarge { actual: usize, max: usize },
    Malformed,
    InvalidTabId,
    UnknownCommand,
}

/// Why a parsed message was refused.
#[derive(Debug, Clone, PartialEq, Eq)]
pub enum IpcAuthorizationError {
    TabIdMismatch { source_tab_id: u32, message_tab_id: u32 },
    InactiveTab { source_tab_id: u32, active_tab_id: Option<u32> },
    CommandNotAllowedFromContent,
    CommandNotAllowedFromSettings,
    CommandNotAllowedFromTrustedTabEvent,
}

/// The prefix of a settings message.
pub open spec fn save_config_prefix() -> Seq<char> {
    "save_config:"@
}

/// The message that a tab-addressed command `tab_id|command|payload` denotes.
pub open spec fn tab_command_spec(id: Seq<char>, cmd: Seq<char>, payload: Seq<char>) -> Result<
    IpcMessageView,
    IpcParseError,
> {
    if id.len() == 0 || cmd.len() == 0 {
        Err(IpcParseError::Malformed)
    } else {
        match parse_u32_spec(id) {
            None => Err(IpcParseError::InvalidTabId),
            Some(tab_id) => if cmd == "title"@ {
                Ok(IpcMessageView::UpdateTitle { tab_id, title: payload })
            } else if cmd == "url"@ {
                Ok(IpcMessageView::UpdateUrl { tab_id, url: payload })
            } else if cmd == "focus_omnibox"@ {
                if payload.len() == 0 {
                    Ok(IpcMessageView::FocusOmnibox { tab_id })
                } else {
                    Err(IpcParseError::Malformed)
                }
            } else {
                Err(IpcParseError::UnknownCommand)
            },
        }
    }
}

/// The result of parsing the message `s`: the empty and oversized messages are
/// refused, `save_config:` carries the rest as its JSON, and otherwise the
/// message is split at its first two `|` into tab id, command and payload.
#[verifier::opaque]
pub open spec fn parse_ipc_spec(s: Seq<char>) -> Result<IpcMessageView, IpcParseError> {
    if s.len() == 0 {
        Err(IpcParseError::Empty)
    } else if utf8_len(s) > MAX_IPC_MESSAGE_BYTES {
        Err(
            IpcParseError::TooLarge {
                actual: utf8_len(s) as usize,
                max: MAX_IPC_MESSAGE_BYTES,
            },
        )
    } else if seq_starts_with(s, save_config_prefix()) {
        Ok(IpcMessageView::SaveConfig { json: s.skip(save_config_prefix().len() as int) })
    } else {
        match first_index_of(s, '|') {
            None => Err(IpcParseError::Malformed),
            Some(i) => {
                let rest = s.skip(i + 1);
                match first_index_of(rest, '|') {
                    None => Err(IpcParseError::Malformed),
                    Some(j) => tab_command_spec(s.take(i), rest.take(j), rest.skip(j + 1)),
                }
            },
        }
    }
}

/// The view of a parse result.
pub open spec fn parse_result_view(r: Result<BrowserIpcMessage, IpcParseError>) -> Result<
    IpcMessageView,
    IpcParseError,
> {
    match r {
        Ok(m) => Ok(m@),
        Err(e) => Err(e),
    }
}

fn tab_command(id: &[char], cmd: &[char], payload: &[char]) -> (r: Result<
    BrowserIpcMessage,
    IpcParseError,
>)
    ensures
        parse_result_view(r) == tab_command_spec(id@, cmd@, payload@),
{
    if id.len() == 0 || cmd.len() == 0 {
        return Err(IpcParseError::Malformed);
    }
    let tab_id = match parse_u32_decimal(id) {
        Some(t) => t,
        None => {
            return Err(IpcParseError::InvalidTabId);
        },
    };
    let title_word = str_chars("title");
    let url_word = str_chars("url");
    let focus_word = str_chars("focus_omnibox");
    if chars_eq(cmd, title_word.as_slice()) {
        Ok(BrowserIpcMessage::UpdateTitle { tab_id, title: string_from_chars(payload) })
    } else if chars_eq(cmd, url_word.as_slice()) {
        Ok(BrowserIpcMessage::UpdateUrl { tab_id, url: string_from_chars(payload) })
    } else if chars_eq(cmd, focus_word.as_slice()) {
        if payload.len() == 0 {
            Ok(BrowserIpcMessage::FocusOmnibox { tab_id })
        } else {
            Err(IpcParseError::Malformed)
        }
    } else {
        Err(IpcParseError::UnknownCommand)
    }
}

/// Parses one message posted to the host.
pub fn parse_ipc_message(input: &str) -> (r: Result<BrowserIpcMessage, IpcParseError>)
    ensures
        parse_result_view(r) == parse_ipc_spec(input@),
{
    reveal(parse_ipc_spec);
    if input.is_empty() {
        return Err(IpcParseError::Empty);
    }
    let chars = str_chars(input);
    let s = chars.as_slice();
    if utf8_len_exceeds(s, MAX_IPC_MESSAGE_BYTES) {
        return Err(IpcParseError::TooLarge { actual: input.len(), max: MAX_IPC_MESSAGE_BYTES });
    }
    let prefix = str_chars("save_config:");
    proof {
        reveal_strlit("save_config:");
    }
    assert(prefix@ == save_config_prefix());
    if starts_with_chars(s, prefix.as_slice()) {
        let json = vstd::slice::slice_subrange(s, prefix.len(), s.len());
        assert(json@ =~= input@.skip(save_config_prefix().len() as int));
        return Ok(BrowserIpcMessage::SaveConfig { json: string_from_chars(json) });
    }
    let i = match find_char(s, '|') {
        Some(i) => i,
        None => {
            return Err(IpcParseError::Malformed);
        },
    };
    proof {
        lemma_first_index_of(s@, '|');
    }
    let rest = vstd::slice::slice_subrange(s, i + 1, s.len());
    let j = match find_char(rest, '|') {
        Some(j) => j,
        None => {
            return Err(IpcParseError::Malformed);
        },
    };
    proof {
        lemma_first_index_of(rest@, '|');
    }
    let id = vstd::slice::slice_subrange(s, 0, i);
    let cmd = vstd::slice::slice_subrange(rest, 0, j);
    let payload = vstd::slice::slice_subrange(rest, j + 1, rest.len());
    assert(id@ =~= s@.take(i as int));
    assert(cmd@ =~= rest@.take(j as int));
    assert(payload@ =~= rest@.skip(j + 1));
    tab_command(id, cmd, payload)
}

/// Whether a command that names `message_tab_id` may come from `source_tab_id`.
pub open spec fn matching_tab_spec(source_tab_id: u32, message_tab_id: u32) -> Result<
    (),
    IpcAuthorizationError,
> {
    if source_tab_id == message_tab_id {
        Ok(())
    } else {
        Err(IpcAuthorizationError::TabIdMismatch { source_tab_id, message_tab_id })
    }
}

/// Whether `message` may be acted upon when it comes from `source` while the
/// tab `active_tab_id` is in front: host tab events may only report URLs,
/// pages may only report their own title, and only the settings page may
/// save the configuration.
pub open spec fn authorize_spec(
    message: IpcMessageView,
    active_tab_id: Option<u32>,
    source: IpcSourceContext,
) -> Result<(), IpcAuthorizationError> {
    match source {
        IpcSourceContext::TrustedTabEvent { tab_id } => match message {
            IpcMessageView::UpdateUrl { tab_id: message_tab_id, .. } => matching_tab_spec(
                tab_id,
                message_tab_id,
            ),
            _ => Err(IpcAuthorizationError::CommandNotAllowedFromTrustedTabEvent),
        },
        IpcSourceContext::ContentWebView { tab_id } => match message {
            IpcMessageView::UpdateTitle { tab_id: message_tab_id, .. } => matching_tab_spec(
                tab_id,
                message_tab_id,
            ),
            IpcMessageView::UpdateUrl { tab_id: message_tab_id, .. } => {
                if tab_id != message_tab_id {
                    matching_tab_spec(tab_id, message_tab_id)
                } else {
                    Err(IpcAuthorizationError::CommandNotAllowedFromContent)
                }
            },
            IpcMessageView::FocusOmnibox { tab_id: message_tab_id } => {
                if tab_id != message_tab_id {
                    matching_tab_spec(tab_id, message_tab_id)
                } else if active_tab_id != Some(tab_id) {
                    Err(
                        IpcAuthorizationError::InactiveTab {
                            source_tab_id: tab_id,
                            active_tab_id,
                        },
                    )
                } else {
                    Err(IpcAuthorizationError::CommandNotAllowedFromContent)
                }
            },
            IpcMessageView::SaveConfig { .. } => Err(
                IpcAuthorizationError::CommandNotAllowedFromContent,
            ),
        },
        IpcSourceContext::SettingsWebView => match message {
            IpcMessageView::SaveConfig { .. } => Ok(()),
            _ => Err(IpcAuthorizationError::CommandNotAllowedFromSettings),
        },
    }
}

fn require_matching_tab(source_tab_id: u32, message_tab_id: u32) -> (r: Result<
    (),
    IpcAuthorizationError,
>)
    ensures
        r == matching_tab_spec(source_tab_id, message_tab_id),
{
    if source_tab_id == message_tab_id {
        Ok(())
    } else {
        Err(IpcAuthorizationError::TabIdMismatch { source_tab_id, message_tab_id })
    }
}

/// Decides whether `message`, arriving from `source_context`, may be acted upon.
pub fn authorize_ipc_message(
    message: &BrowserIpcMessage,
    active_tab_id: Option<u32>,
    source_context: IpcSourceContext,
) -> (r: Result<(), IpcAuthorizationError>)
    ensures
        r == authorize_spec(message@, active_tab_id, source_context),
{
    match source_context {
        IpcSourceContext::TrustedTabEvent { tab_id } => match message {
            BrowserIpcMessage::UpdateUrl { tab_id: message_tab_id, .. } => require_matching_tab(
                tab_id,
                *message_tab_id,
            ),
            _ => Err(IpcAuthorizationError::CommandNotAllowedFromTrustedTabEvent),
        },
        IpcSourceContext::ContentWebView { tab_id } => match message {
            BrowserIpcMessage::UpdateTitle { tab_id: message_tab_id, .. } => require_matching_tab(
                tab_id,
                *message_tab_id,
            ),
            BrowserIpcMessage::UpdateUrl { tab_id: message_tab_id, .. } => {
                require_matching_tab(tab_id, *message_tab_id)?;
                Err(IpcAuthorizationError::CommandNotAllowedFromContent)
            },
            BrowserIpcMessage::FocusOmnibox { tab_id: message_tab_id } => {
                require_matching_tab(tab_id, *message_tab_id)?;
                let is_active = match active_tab_id {
                    Some(a) => a == tab_id,
                    None => false,
                };
                if !is_active {
                    return Err(
                        IpcAuthorizationError::InactiveTab { source_tab_id: tab_id, active_tab_id },
                    );
                }
                Err(IpcAuthorizationError::CommandNotAllowedFromContent)
            },
            BrowserIpcMessage::SaveConfig { .. } => Err(
                IpcAuthorizationError::CommandNotAllowedFromContent,
            ),
        },
        IpcSourceContext::SettingsWebView => match message {
            BrowserIpcMessage::SaveConfig { .. } => Ok(()),
            _ => Err(IpcAuthorizationError::CommandNotAllowedFromSettings),
        },
    }
}

/// Only the settings page may save the configuration, and it may do nothing else.
pub proof fn lemma_only_settings_saves_config(
    message: IpcMessageView,
    active_tab_id: Option<u32>,
    source: IpcSourceContext,
)
    requires
        authorize_spec(message, active_tab_id, source) is Ok,
    ensures
        (message is SaveConfig) <==> (source is SettingsWebView),
{
}

/// Only an empty message is refused as empty, a non-empty one longer than
/// the limit in bytes is refused as too large with its size, and whatever
/// follows the `save_config:` prefix is handed on as the settings, unchanged.
pub proof fn lemma_parse_limits(s: Seq<char>, json: Seq<char>)
    ensures
        s.len() == 0 <==> parse_ipc_spec(s) == Err::<IpcMessageView, IpcParseError>(IpcParseError::Empty),
        s.len() > 0 && utf8_len(s) > MAX_IPC_MESSAGE_BYTES ==> parse_ipc_spec(s) == Err::<
            IpcMessageView,
            IpcParseError,
        >(IpcParseError::TooLarge { actual: utf8_len(s) as usize, max: MAX_IPC_MESSAGE_BYTES }),
        parse_ipc_spec(s) is Ok ==> s.len() > 0 && utf8_len(s) <= MAX_IPC_MESSAGE_BYTES,
        utf8_len("save_config:"@ + json) <= MAX_IPC_MESSAGE_BYTES ==> parse_ipc_spec("save_config:"@ + json)
            == Ok::<IpcMessageView, IpcParseError>(IpcMessageView::SaveConfig { json }),
{
    reveal(parse_ipc_spec);
    reveal_strlit("save_config:");
    let m = "save_config:"@ + json;
    assert(m.len() > 0);
    assert(m.take(12) =~= "save_config:"@);
    assert(m.skip(12) =~= json);
    assert(seq_starts_with(m, save_config_prefix()));
}

/// A page may only ever report its own title; every other command from page
/// content is refused.
pub proof fn lemma_content_only_reports_own_title(
    message: IpcMessageView,
    active_tab_id: Option<u32>,
    tab_id: u32,
)
    requires
        authorize_spec(message, active_tab_id, IpcSourceContext::ContentWebView { tab_id }) is Ok,
    ensures
        message matches IpcMessageView::UpdateTitle { tab_id: t, .. } && t == tab_id,
{
}

/// A host tab event may only report the URL of its own tab.
pub proof fn lemma_tab_event_only_reports_own_url(
    message: IpcMessageView,
    active_tab_id: Option<u32>,
    tab_id: u32,
)
    requires
        authorize_spec(message, active_tab_id, IpcSourceContext::TrustedTabEvent { tab_id }) is Ok,
    ensures
        message matches IpcMessageView::UpdateUrl { tab_id: t, .. } && t == tab_id,
{
}

/// A message naming another tab than its sender is refused as a mismatch.
pub proof fn lemma_foreign_tab_id_is_mismatch(
    message: IpcMessageView,
    active_tab_id: Option<u32>,
    source_tab_id: u32,
    message_tab_id: u32,
)
    requires
        source_tab_id != message_tab_id,
        message matches IpcMessageView::UpdateTitle { tab_id: t, .. } && t == message_tab_id,
    ensures
        authorize_spec(
            message,
            active_tab_id,
            IpcSourceContext::ContentWebView { tab_id: source_tab_id },
        ) == Err::<(), IpcAuthorizationError>(
            IpcAuthorizationError::TabIdMismatch { source_tab_id, message_tab_id },
        ),
{
}

/// How a message `digits|cmd|payload` splits, when `cmd` holds no `|`.
proof fn lemma_split_tab_message(d: Seq<char>, cmd: Seq<char>, payload: Seq<char>)
    requires
        d.len() > 0,
        all_ascii_digits(d),
        forall|k: int| 0 <= k < cmd.len() ==> cmd[k] != '|',
        utf8_len(d + "|"@ + cmd + "|"@ + payload) <= MAX_IPC_MESSAGE_BYTES,
    ensures
        parse_ipc_spec(d + "|"@ + cmd + "|"@ + payload) == tab_command_spec(d, cmd, payload),
{
    reveal(parse_ipc_spec);
    reveal_strlit("|");
    reveal_strlit("save_config:");
    let s = d + "|"@ + cmd + "|"@ + payload;
    let i = d.len() as int;
    assert(is_ascii_digit(d[0]));
    assert(s[0] == d[0]);
    assert(save_config_prefix()[0] == 's');
    assert(!seq_starts_with(s, save_config_prefix())) by {
        if seq_starts_with(s, save_config_prefix()) {
            assert(s.take(save_config_prefix().len() as int)[0] == s[0]);
        }
    }
    assert forall|k: int| 0 <= k < i implies s[k] != '|' by {
        assert(s[k] == d[k]);
        assert(is_ascii_digit(d[k]));
    }
    assert(s[i] == '|');
    lemma_first_index_of_unique(s, '|', i);
    let rest = s.skip(i + 1);
    assert(rest =~= cmd + "|"@ + payload);
    let j = cmd.len() as int;
    assert forall|k: int| 0 <= k < j implies rest[k] != '|' by {
        assert(rest[k] == cmd[k]);
    }
    assert(rest[j] == '|');
    lemma_first_index_of_unique(rest, '|', j);
    assert(s.take(i) =~= d);
    assert(rest.take(j) =~= cmd);
    assert(rest.skip(j + 1) =~= payload);
}

/// A title report `id|title|text`, as pages send it, parses back to that tab's
/// title `text`.
pub proof fn lemma_title_message_round_trip(tab_id: u32, title: Seq<char>)
    requires
        utf8_len(decimal_digits(tab_id as nat) + "|"@ + "title"@ + "|"@ + title)
            <= MAX_IPC_MESSAGE_BYTES,
    ensures
        parse_ipc_spec(decimal_digits(tab_id as nat) + "|"@ + "title"@ + "|"@ + title) == Ok::<
            IpcMessageView,
            IpcParseError,
        >(IpcMessageView::UpdateTitle { tab_id, title }),
{
    reveal_strlit("title");
    reveal_strlit("|");
    lemma_decimal_digits(tab_id as nat);
    lemma_parse_decimal_u32(tab_id);
    lemma_split_tab_message(decimal_digits(tab_id as nat), "title"@, title);
}

/// A URL report `id|url|address` parses back to that tab's address `address`.
pub proof fn lemma_url_message_round_trip(tab_id: u32, url: Seq<char>)
    requires
        utf8_len(decimal_digits(tab_id as nat) + "|"@ + "url"@ + "|"@ + url)
            <= MAX_IPC_MESSAGE_BYTES,
    ensures
        parse_ipc_spec(decimal_digits(tab_id as nat) + "|"@ + "url"@ + "|"@ + url) == Ok::<
            IpcMessageView,
            IpcParseError,
        >(IpcMessageView::UpdateUrl { tab_id, url }),
{
    reveal_strlit("url");
    reveal_strlit("title");
    reveal_strlit("|");
    lemma_decimal_digits(tab_id as nat);
    lemma_parse_decimal_u32(tab_id);
    lemma_split_tab_message(decimal_digits(tab_id as nat), "url"@, url);
}

/// A page's report of its own title is read back as that title and accepted
/// from that page.
pub proof fn lemma_own_title_report_accepted(tab_id: u32, title: Seq<char>, active_tab_id: Option<u32>)
    requires
        utf8_len(decimal_digits(tab_id as nat) + "|"@ + "title"@ + "|"@ + title)
            <= MAX_IPC_MESSAGE_BYTES,
    ensures
        parse_ipc_spec(decimal_digits(tab_id as nat) + "|"@ + "title"@ + "|"@ + title) == Ok::<
            IpcMessageView,
            IpcParseError,
        >(IpcMessageView::UpdateTitle { tab_id, title }),
        authorize_spec(
            IpcMessageView::UpdateTitle { tab_id, title },
            active_tab_id,
            IpcSourceContext::ContentWebView { tab_id },
        ) is Ok,
{
    lemma_title_message_round_trip(tab_id, title);
}

} // verus!
