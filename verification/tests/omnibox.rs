use petal_browser::ui::omnibox::{
    get_omnibox_rect, hit_test_omnibox_at, render_omnibox_dynamic, render_omnibox_static,
    resolve_navigation_target, OmniboxHit, OmniboxLayout, OmniboxState, FIELD_BG, FIELD_FOCUSED_BG,
    OMNIBOX_BG,
};

const ENGINE: &str = "https://duckduckgo.com/?q={}";

#[test]
fn new_state_is_empty_and_unfocused() {
    let s = OmniboxState::new();
    assert!(!s.is_focused);
    assert_eq!(s.input, "");
    assert_eq!(s.cursor_position, 0);
    assert!(!s.select_all_on_type);
    assert!(s.history.is_empty());
    assert_eq!(s.history_index, None);
    assert_eq!(s.scroll_offset, 0);
    assert_eq!(s.text_version, 1);
    assert_eq!(s.cursor_version, 1);
}

#[test]
fn focus_selects_current_address() {
    let mut s = OmniboxState::new();
    s.focus("https://x.test");
    assert!(s.is_focused);
    assert_eq!(s.input, "https://x.test");
    assert_eq!(s.cursor_position, 14);
    assert!(s.select_all_on_type);
    assert_eq!(s.text_version, 2);
    assert_eq!(s.cursor_version, 2);
    s.defocus();
    assert!(!s.is_focused);
    assert!(!s.select_all_on_type);
    assert_eq!(s.input, "https://x.test");
    assert_eq!(s.text_version, 3);
}

#[test]
fn typing_replaces_selected_text() {
    let mut s = OmniboxState::new();
    s.focus("https://x.test");
    s.insert_char('a');
    assert_eq!(s.input, "a");
    assert_eq!(s.cursor_position, 1);
    assert!(!s.select_all_on_type);
    s.insert_char('é');
    assert_eq!(s.input, "aé");
    assert_eq!(s.cursor_position, 3);
    s.insert_str("bc");
    assert_eq!(s.input, "aébc");
    assert_eq!(s.cursor_position, 5);
}

#[test]
fn pasting_replaces_selected_text() {
    let mut s = OmniboxState::new();
    s.focus("old");
    s.insert_str("new");
    assert_eq!(s.input, "new");
    assert_eq!(s.cursor_position, 3);
}

#[test]
fn backspace_removes_whole_character() {
    let mut s = OmniboxState::new();
    s.insert_str("aé");
    s.backspace();
    assert_eq!(s.input, "a");
    assert_eq!(s.cursor_position, 1);
    s.backspace();
    s.backspace();
    assert_eq!(s.input, "");
    assert_eq!(s.cursor_position, 0);
}

#[test]
fn backspace_and_delete_clear_selected_text() {
    let mut s = OmniboxState::new();
    s.focus("abc");
    s.backspace();
    assert_eq!(s.input, "");
    assert!(!s.select_all_on_type);
    s.focus("abc");
    s.delete();
    assert_eq!(s.input, "");
    assert_eq!(s.cursor_position, 0);
}

#[test]
fn delete_removes_character_after_cursor() {
    let mut s = OmniboxState::new();
    s.insert_str("éb");
    s.home();
    s.delete();
    assert_eq!(s.input, "b");
    assert_eq!(s.cursor_position, 0);
    s.end();
    s.delete();
    assert_eq!(s.input, "b");
}

#[test]
fn arrows_step_over_whole_characters() {
    let mut s = OmniboxState::new();
    s.insert_str("aéb");
    s.arrow_left();
    assert_eq!(s.cursor_position, 3);
    s.arrow_left();
    assert_eq!(s.cursor_position, 1);
    s.arrow_right();
    assert_eq!(s.cursor_position, 3);
    s.home();
    s.arrow_left();
    assert_eq!(s.cursor_position, 0);
    s.end();
    assert_eq!(s.cursor_position, 4);
    s.arrow_right();
    assert_eq!(s.cursor_position, 4);
}

#[test]
fn left_then_right_returns_to_same_place() {
    let mut s = OmniboxState::new();
    s.insert_str("xyé");
    let before = s.cursor_position;
    s.arrow_left();
    s.arrow_right();
    assert_eq!(s.cursor_position, before);
}

#[test]
fn typing_then_backspace_restores_text() {
    let mut s = OmniboxState::new();
    s.insert_str("abc");
    s.arrow_left();
    s.insert_char('ç');
    assert_eq!(s.input, "abçc");
    s.backspace();
    assert_eq!(s.input, "abc");
    assert_eq!(s.cursor_position, 2);
}

#[test]
fn safe_cursor_falls_back_to_character_boundary() {
    let mut s = OmniboxState::new();
    s.insert_str("é");
    s.cursor_position = 1;
    assert_eq!(s.safe_cursor(), 0);
    s.cursor_position = 9;
    assert_eq!(s.safe_cursor(), 2);
}

#[test]
fn history_skips_repeated_front_and_keeps_sixteen() {
    let mut s = OmniboxState::new();
    s.push_history("a".to_string());
    s.push_history("a".to_string());
    assert_eq!(s.history.len(), 1);
    s.push_history("b".to_string());
    assert_eq!(s.history.front().map(|h| h.as_str()), Some("b"));
    for i in 0..20 {
        s.push_history(format!("u{}", i));
    }
    assert_eq!(s.history.len(), 16);
    assert_eq!(s.history.front().map(|h| h.as_str()), Some("u19"));
    assert_eq!(s.history.back().map(|h| h.as_str()), Some("u4"));
}

#[test]
fn arrow_up_and_down_walk_history() {
    let mut s = OmniboxState::new();
    s.push_history("a".to_string());
    s.push_history("b".to_string());
    s.arrow_up();
    assert_eq!(s.history_index, Some(0));
    assert_eq!(s.input, "b");
    assert_eq!(s.cursor_position, 1);
    s.arrow_up();
    assert_eq!(s.input, "a");
    s.arrow_up();
    assert_eq!(s.history_index, Some(1));
    assert_eq!(s.input, "a");
    s.arrow_down();
    assert_eq!(s.input, "b");
    s.arrow_down();
    assert_eq!(s.history_index, None);
    assert_eq!(s.input, "");
    let v = s.text_version;
    s.arrow_down();
    assert_eq!(s.text_version, v);
}

#[test]
fn arrow_up_without_history_changes_nothing() {
    let mut s = OmniboxState::new();
    s.insert_str("q");
    s.arrow_up();
    assert_eq!(s.input, "q");
    assert_eq!(s.history_index, None);
}

#[test]
fn scroll_keeps_cursor_visible() {
    let mut s = OmniboxState::new();
    assert!(!s.update_scroll(4));
    s.focus("abcdefghij");
    s.end();
    assert!(s.update_scroll(4));
    assert_eq!(s.scroll_offset, 7);
    assert!(!s.update_scroll(4));
    s.home();
    assert!(s.update_scroll(4));
    assert_eq!(s.scroll_offset, 0);
    s.end();
    s.update_scroll(4);
    assert!(s.update_scroll(0));
    assert_eq!(s.scroll_offset, 0);
    s.update_scroll(4);
    s.defocus();
    assert_eq!(s.scroll_offset, 0);
}

#[test]
fn omnibox_rect_for_various_widths() {
    assert_eq!(get_omnibox_rect(800), (140, 610));
    assert_eq!(get_omnibox_rect(200), (140, 56));
    assert_eq!(get_omnibox_rect(100), (56, 40));
    assert_eq!(get_omnibox_rect(50), (14, 32));
    assert_eq!(get_omnibox_rect(10), (14, 0));
}

#[test]
fn omnibox_hit_test_on_each_control() {
    assert_eq!(hit_test_omnibox_at(10, 800), OmniboxHit::Back);
    assert_eq!(hit_test_omnibox_at(45, 800), OmniboxHit::Back);
    assert_eq!(hit_test_omnibox_at(50, 800), OmniboxHit::NoHit);
    assert_eq!(hit_test_omnibox_at(60, 800), OmniboxHit::Forward);
    assert_eq!(hit_test_omnibox_at(100, 800), OmniboxHit::Refresh);
    assert_eq!(hit_test_omnibox_at(300, 800), OmniboxHit::Omnibox);
    assert_eq!(hit_test_omnibox_at(760, 800), OmniboxHit::Settings);
    assert_eq!(hit_test_omnibox_at(795, 800), OmniboxHit::NoHit);
    assert_eq!(hit_test_omnibox_at(60, 100), OmniboxHit::Omnibox);
    assert_eq!(hit_test_omnibox_at(5, 800), OmniboxHit::NoHit);
}

#[test]
fn navigation_keeps_known_schemes() {
    assert_eq!(resolve_navigation_target("  https://a.test/x ", ENGINE), "https://a.test/x");
    assert_eq!(resolve_navigation_target("http://a", ENGINE), "http://a");
    assert_eq!(resolve_navigation_target("file:///tmp/x", ENGINE), "file:///tmp/x");
    assert_eq!(resolve_navigation_target("petal://newtab", ENGINE), "petal://newtab");
}

#[test]
fn navigation_blank_input_goes_nowhere() {
    assert_eq!(resolve_navigation_target("", ENGINE), "");
    assert_eq!(resolve_navigation_target(" \t ", ENGINE), "");
}

#[test]
fn navigation_local_servers_use_http() {
    assert_eq!(resolve_navigation_target("localhost:8080", ENGINE), "http://localhost:8080");
    assert_eq!(resolve_navigation_target("127.0.0.1:3000/x", ENGINE), "http://127.0.0.1:3000/x");
}

#[test]
fn navigation_domains_use_https() {
    assert_eq!(resolve_navigation_target("example.com", ENGINE), "https://example.com");
    assert_eq!(resolve_navigation_target(" rust-lang.org/learn ", ENGINE), "https://rust-lang.org/learn");
}

#[test]
fn navigation_searches_other_text() {
    assert_eq!(
        resolve_navigation_target("rust lang", ENGINE),
        "https://duckduckgo.com/?q=rust%20lang"
    );
    assert_eq!(resolve_navigation_target("a+b", ENGINE), "https://duckduckgo.com/?q=a%2Bb");
    assert_eq!(
        resolve_navigation_target("hello world.com", ENGINE),
        "https://duckduckgo.com/?q=hello%20world.com"
    );
    assert_eq!(resolve_navigation_target("ção", ENGINE), "https://duckduckgo.com/?q=%C3%A7%C3%A3o");
    assert_eq!(resolve_navigation_target("x~_-", "s/{}/{}"), "s/x~_-/x~_-");
    assert_eq!(resolve_navigation_target("q", "no-slot"), "no-slot");
}

#[test]
fn layout_shows_selected_address_when_focused() {
    let mut s = OmniboxState::new();
    let mut l = OmniboxLayout::new();
    assert_eq!(l.last_text_version, 0);
    assert!(l.cursor_blink_visible);
    s.focus("abc");
    l.update(&mut s, 800, "https://ignored.test");
    assert_eq!(l.last_width, 610);
    assert_eq!(l.cached_visible_text, "abc");
    assert_eq!(l.cached_selection_width, 24);
    assert_eq!(l.cached_cursor_x_offset, None);
    assert_eq!(l.last_text_version, s.text_version);
    s.insert_char('x');
    l.update(&mut s, 800, "https://ignored.test");
    assert_eq!(l.cached_visible_text, "x");
    assert_eq!(l.cached_selection_width, 0);
    assert_eq!(l.cached_cursor_x_offset, Some(8));
}

#[test]
fn layout_shows_page_address_when_unfocused() {
    let mut s = OmniboxState::new();
    let mut l = OmniboxLayout::new();
    l.update(&mut s, 800, "https://e.test");
    assert_eq!(l.last_url, "https://e.test");
    assert_eq!(l.cached_visible_text, "https://e.test");
    assert_eq!(l.cached_cursor_x_offset, None);
    l.update(&mut s, 800, "https://f.test");
    assert_eq!(l.cached_visible_text, "https://f.test");
}

#[test]
fn layout_ignores_too_narrow_window() {
    let mut s = OmniboxState::new();
    let mut l = OmniboxLayout::new();
    l.update(&mut s, 10, "https://e.test");
    assert_eq!(l.last_width, 0);
    assert_eq!(l.cached_visible_text, "");
}

fn test_font() -> Vec<[u8; 16]> {
    let mut font = vec![[0u8; 16]; 128];
    for c in ['<', '>', 'C', 'S', 'a'] {
        font[c as usize] = [0xFFu8; 16];
    }
    font
}

#[test]
fn static_omnibox_paints_background_buttons_and_field() {
    let width = 800;
    let mut buf = vec![0u32; width * 46];
    render_omnibox_static(&mut buf, width, true, &test_font());
    assert_eq!(buf[0], OMNIBOX_BG);
    assert_eq!(buf[20 * width + 12], 0xFF3C_3C3C);
    assert_eq!(buf[(8 + 7) * width + 10 + 14], 0xFFDD_DDDD);
    assert_eq!(buf[20 * width + 300], FIELD_FOCUSED_BG);
    let mut buf2 = vec![0u32; width * 46];
    render_omnibox_static(&mut buf2, width, false, &test_font());
    assert_eq!(buf2[20 * width + 300], FIELD_BG);
}

#[test]
fn dynamic_omnibox_draws_text_and_cursor() {
    let width = 800;
    let mut s = OmniboxState::new();
    let mut l = OmniboxLayout::new();
    s.focus("");
    s.insert_char('a');
    l.update(&mut s, width, "");
    let mut buf = vec![0u32; width * 86];
    render_omnibox_dynamic(&mut buf, width, &l, &test_font());
    let text_y = 40 + 8 + 7;
    assert_eq!(buf[text_y * width + 150], 0xFFE0_E0E0);
    assert_eq!(buf[text_y * width + 158], 0xFFFF_FFFF);
    assert_eq!(buf[text_y * width + 161], 0);
}

#[test]
fn editing_keeps_cursor_on_character_boundary() {
    let mut s = OmniboxState::new();
    s.insert_str("aéçb");
    let ops: Vec<fn(&mut OmniboxState)> = vec![
        |s| s.arrow_left(),
        |s| s.arrow_left(),
        |s| s.backspace(),
        |s| s.arrow_right(),
        |s| s.delete(),
        |s| s.insert_char('ü'),
        |s| s.home(),
        |s| s.delete(),
        |s| s.end(),
        |s| s.backspace(),
    ];
    for op in ops {
        op(&mut s);
        assert!(s.input.is_char_boundary(s.cursor_position));
    }
    assert_eq!(s.input, "ç");
}

#[test]
fn history_position_stays_inside_history() {
    let mut s = OmniboxState::new();
    for u in ["a", "b", "c"] {
        s.push_history(u.to_string());
    }
    for _ in 0..5 {
        s.arrow_up();
        assert!(s.history_index.map_or(true, |i| i < s.history.len()));
    }
    s.push_history("d".to_string());
    assert!(s.history_index.map_or(true, |i| i < s.history.len()));
    for _ in 0..5 {
        s.arrow_down();
        assert!(s.history_index.map_or(true, |i| i < s.history.len()));
    }
    assert_eq!(s.history_index, None);
}

#[test]
fn right_then_left_and_left_then_right_return() {
    let mut s = OmniboxState::new();
    s.insert_str("xéz");
    s.arrow_left();
    let (p0, tv, cv) = (s.cursor_position, s.text_version, s.cursor_version);
    s.arrow_left();
    s.arrow_right();
    assert_eq!(s.cursor_position, p0);
    assert_eq!(s.text_version, tv);
    assert_eq!(s.cursor_version, cv.wrapping_add(2));
    s.arrow_right();
    s.arrow_left();
    assert_eq!(s.cursor_position, p0);
    assert_eq!(s.input, "xéz");
}

#[test]
fn insert_then_backspace_moves_versions_by_two() {
    let mut s = OmniboxState::new();
    s.insert_str("ab");
    s.arrow_left();
    let (input, p0, tv, cv) = (s.input.clone(), s.cursor_position, s.text_version, s.cursor_version);
    s.insert_char('€');
    s.backspace();
    assert_eq!(s.input, input);
    assert_eq!(s.cursor_position, p0);
    assert_eq!(s.text_version, tv.wrapping_add(2));
    assert_eq!(s.cursor_version, cv.wrapping_add(2));
}
