use petal_browser::ipc::{
    authorize_ipc_message, parse_ipc_message, BrowserIpcEnvelope, BrowserIpcMessage,
    IpcAuthorizationError, IpcParseError, IpcSourceContext, MAX_IPC_MESSAGE_BYTES,
};

#[test]
fn parses_title_message() {
    assert_eq!(
        parse_ipc_message("42|title|Petal Browser"),
        Ok(BrowserIpcMessage::UpdateTitle {
            tab_id: 42,
            title: "Petal Browser".to_string(),
        })
    );
}

#[test]
fn parses_url_message_with_separator_in_payload() {
    assert_eq!(
        parse_ipc_message("7|url|https://example.test/a|b"),
        Ok(BrowserIpcMessage::UpdateUrl {
            tab_id: 7,
            url: "https://example.test/a|b".to_string(),
        })
    );
}

#[test]
fn parses_focus_omnibox_message() {
    assert_eq!(
        parse_ipc_message("3|focus_omnibox|"),
        Ok(BrowserIpcMessage::FocusOmnibox { tab_id: 3 })
    );
}

#[test]
fn parses_save_config_message() {
    assert_eq!(
        parse_ipc_message("save_config:{\"hardware_acceleration\":true}"),
        Ok(BrowserIpcMessage::SaveConfig {
            json: "{\"hardware_acceleration\":true}".to_string(),
        })
    );
}

#[test]
fn rejects_empty_message() {
    assert_eq!(parse_ipc_message(""), Err(IpcParseError::Empty));
}

#[test]
fn rejects_unknown_command() {
    assert_eq!(
        parse_ipc_message("1|open_devtools|"),
        Err(IpcParseError::UnknownCommand)
    );
}

#[test]
fn rejects_payload_larger_than_limit() {
    let input = "x".repeat(MAX_IPC_MESSAGE_BYTES + 1);
    assert_eq!(
        parse_ipc_message(&input),
        Err(IpcParseError::TooLarge {
            actual: MAX_IPC_MESSAGE_BYTES + 1,
            max: MAX_IPC_MESSAGE_BYTES,
        })
    );
}

#[test]
fn rejects_missing_payload() {
    assert_eq!(parse_ipc_message("1|title"), Err(IpcParseError::Malformed));
}

#[test]
fn rejects_missing_tab_id() {
    assert_eq!(parse_ipc_message("|title|x"), Err(IpcParseError::Malformed));
}

#[test]
fn rejects_invalid_tab_id() {
    assert_eq!(
        parse_ipc_message("abc|title|x"),
        Err(IpcParseError::InvalidTabId)
    );
}

#[test]
fn rejects_unexpected_focus_payload() {
    assert_eq!(
        parse_ipc_message("1|focus_omnibox|unexpected|tail"),
        Err(IpcParseError::Malformed)
    );
}

#[test]
fn allows_title_from_matching_content_tab() {
    let message = BrowserIpcMessage::UpdateTitle {
        tab_id: 2,
        title: "Example".to_string(),
    };

    assert_eq!(
        authorize_ipc_message(
            &message,
            Some(2),
            IpcSourceContext::ContentWebView { tab_id: 2 }
        ),
        Ok(())
    );
}

#[test]
fn allows_url_from_matching_trusted_tab_event() {
    let message = BrowserIpcMessage::UpdateUrl {
        tab_id: 2,
        url: "https://example.test".to_string(),
    };

    assert_eq!(
        authorize_ipc_message(
            &message,
            Some(2),
            IpcSourceContext::TrustedTabEvent { tab_id: 2 }
        ),
        Ok(())
    );
}

#[test]
fn rejects_mismatched_tab_id() {
    let message = BrowserIpcMessage::UpdateTitle {
        tab_id: 9,
        title: "Spoof".to_string(),
    };

    assert_eq!(
        authorize_ipc_message(
            &message,
            Some(2),
            IpcSourceContext::ContentWebView { tab_id: 2 }
        ),
        Err(IpcAuthorizationError::TabIdMismatch {
            source_tab_id: 2,
            message_tab_id: 9,
        })
    );
}

#[test]
fn rejects_settings_command_from_content_tab() {
    let message = BrowserIpcMessage::SaveConfig {
        json: "{}".to_string(),
    };

    assert_eq!(
        authorize_ipc_message(
            &message,
            Some(2),
            IpcSourceContext::ContentWebView { tab_id: 2 }
        ),
        Err(IpcAuthorizationError::CommandNotAllowedFromContent)
    );
}

#[test]
fn rejects_url_spoofing_from_content_tab() {
    let message = BrowserIpcMessage::UpdateUrl {
        tab_id: 2,
        url: "https://spoofed.test".to_string(),
    };

    assert_eq!(
        authorize_ipc_message(
            &message,
            Some(2),
            IpcSourceContext::ContentWebView { tab_id: 2 }
        ),
        Err(IpcAuthorizationError::CommandNotAllowedFromContent)
    );
}

#[test]
fn rejects_focus_omnibox_from_content_tab() {
    let message = BrowserIpcMessage::FocusOmnibox { tab_id: 2 };

    assert_eq!(
        authorize_ipc_message(
            &message,
            Some(2),
            IpcSourceContext::ContentWebView { tab_id: 2 }
        ),
        Err(IpcAuthorizationError::CommandNotAllowedFromContent)
    );
}

#[test]
fn rejects_focus_omnibox_from_inactive_content_tab() {
    let message = BrowserIpcMessage::FocusOmnibox { tab_id: 2 };

    assert_eq!(
        authorize_ipc_message(
            &message,
            Some(3),
            IpcSourceContext::ContentWebView { tab_id: 2 }
        ),
        Err(IpcAuthorizationError::InactiveTab {
            source_tab_id: 2,
            active_tab_id: Some(3),
        })
    );
}

#[test]
fn allows_save_config_from_settings() {
    let message = BrowserIpcMessage::SaveConfig {
        json: "{}".to_string(),
    };

    assert_eq!(
        authorize_ipc_message(&message, Some(2), IpcSourceContext::SettingsWebView),
        Ok(())
    );
}

#[test]
fn parses_plus_signed_and_rejects_overflowing_tab_ids() {
    assert_eq!(
        parse_ipc_message("+5|url|a"),
        Ok(BrowserIpcMessage::UpdateUrl { tab_id: 5, url: "a".to_string() })
    );
    assert_eq!(
        parse_ipc_message("4294967295|focus_omnibox|"),
        Ok(BrowserIpcMessage::FocusOmnibox { tab_id: 4294967295 })
    );
    assert_eq!(parse_ipc_message("4294967296|title|x"), Err(IpcParseError::InvalidTabId));
    assert_eq!(parse_ipc_message("-1|title|x"), Err(IpcParseError::InvalidTabId));
    assert_eq!(parse_ipc_message("+|title|x"), Err(IpcParseError::InvalidTabId));
}

#[test]
fn rejects_empty_command_and_message_without_separator() {
    assert_eq!(parse_ipc_message("1||x"), Err(IpcParseError::Malformed));
    assert_eq!(parse_ipc_message("hello"), Err(IpcParseError::Malformed));
}

#[test]
fn measures_size_in_utf8_bytes() {
    // 'é' takes two bytes, so this message is one byte over the limit.
    let mut input = "é".repeat(MAX_IPC_MESSAGE_BYTES / 2);
    input.push('x');
    assert_eq!(
        parse_ipc_message(&input),
        Err(IpcParseError::TooLarge { actual: MAX_IPC_MESSAGE_BYTES + 1, max: MAX_IPC_MESSAGE_BYTES })
    );
    let ok = format!("1|title|{}", "é".repeat(10));
    assert!(parse_ipc_message(&ok).is_ok());
}

#[test]
fn trusted_event_may_not_set_title_and_settings_may_not_set_url() {
    let title = BrowserIpcMessage::UpdateTitle { tab_id: 1, title: "t".to_string() };
    assert_eq!(
        authorize_ipc_message(&title, Some(1), IpcSourceContext::TrustedTabEvent { tab_id: 1 }),
        Err(IpcAuthorizationError::CommandNotAllowedFromTrustedTabEvent)
    );
    let url = BrowserIpcMessage::UpdateUrl { tab_id: 1, url: "u".to_string() };
    assert_eq!(
        authorize_ipc_message(&url, Some(1), IpcSourceContext::SettingsWebView),
        Err(IpcAuthorizationError::CommandNotAllowedFromSettings)
    );
    assert_eq!(
        authorize_ipc_message(&url, Some(1), IpcSourceContext::TrustedTabEvent { tab_id: 4 }),
        Err(IpcAuthorizationError::TabIdMismatch { source_tab_id: 4, message_tab_id: 1 })
    );
}

#[test]
fn envelopes_record_their_source() {
    let e = BrowserIpcEnvelope::trusted_tab_event(3, "3|url|x".to_string());
    assert_eq!(e.source_context, IpcSourceContext::TrustedTabEvent { tab_id: 3 });
    assert_eq!(e.payload, "3|url|x");
    let c = BrowserIpcEnvelope::content_webview(8, "p".to_string());
    assert_eq!(c.source_context, IpcSourceContext::ContentWebView { tab_id: 8 });
}

#[test]
fn title_report_round_trips_through_parser() {
    let msg = parse_ipc_message("17|title|A | B").unwrap();
    assert_eq!(msg, BrowserIpcMessage::UpdateTitle { tab_id: 17, title: "A | B".to_string() });
    assert_eq!(
        authorize_ipc_message(&msg, Some(17), IpcSourceContext::ContentWebView { tab_id: 17 }),
        Ok(())
    );
}
