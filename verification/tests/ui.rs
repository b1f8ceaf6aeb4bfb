use petal_browser::fsm::tab_manager::TabManager;
use petal_browser::ui::{
    clear_rect, draw_beveled_rect, draw_char, draw_char_clipped, draw_string, hit_test_tab_bar_at,
    render_tab_bar, DirtyRegion, LayerCache, TabHit, UICompositor, ACTIVE_TAB_BG, CHROME_HEIGHT,
    INACTIVE_TAB_BG, OMNIBOX_HEIGHT, TABBAR_BG, TABBAR_FG, TABBAR_HEIGHT,
};

fn font_with(full: &[char]) -> Vec<[u8; 16]> {
    let mut font = vec![[0u8; 16]; 128];
    for &c in full {
        font[c as usize] = [0xFFu8; 16];
    }
    font[63] = [0x80u8; 16];
    font
}

#[test]
fn chrome_heights_add_up() {
    assert_eq!(TABBAR_HEIGHT, 40);
    assert_eq!(OMNIBOX_HEIGHT, 46);
    assert_eq!(CHROME_HEIGHT, 86);
}

#[test]
fn clear_rect_is_clipped_to_buffer() {
    let mut buf = vec![0u32; 12];
    clear_rect(&mut buf, 4, 1, 1, 10, 10, 7);
    assert_eq!(buf, vec![0, 0, 0, 0, 0, 7, 7, 7, 0, 7, 7, 7]);
    let mut same = vec![1u32; 6];
    clear_rect(&mut same, 0, 0, 0, 5, 5, 9);
    assert_eq!(same, vec![1u32; 6]);
}

#[test]
fn beveled_rect_cuts_corners() {
    let mut buf = vec![0u32; 16];
    draw_beveled_rect(&mut buf, 4, 0, 0, 4, 4, 5);
    assert_eq!(
        buf,
        vec![0, 5, 5, 0, 5, 5, 5, 5, 5, 5, 5, 5, 0, 5, 5, 0]
    );
    let mut thin = vec![0u32; 16];
    draw_beveled_rect(&mut thin, 4, 1, 1, 1, 3, 6);
    assert_eq!(thin, vec![0, 0, 0, 0, 0, 6, 0, 0, 0, 6, 0, 0, 0, 6, 0, 0]);
}

#[test]
fn draw_char_uses_glyph_bits() {
    let mut font = vec![[0u8; 16]; 128];
    font['A' as usize] = [0b1010_0000u8; 16];
    let mut buf = vec![0u32; 10 * 20];
    draw_char(&mut buf, 10, 1, 2, 'A', 3, &font);
    assert_eq!(buf[2 * 10 + 1], 3);
    assert_eq!(buf[2 * 10 + 2], 0);
    assert_eq!(buf[2 * 10 + 3], 3);
    assert_eq!(buf[17 * 10 + 1], 3);
    assert_eq!(buf[18 * 10 + 1], 0);
    assert_eq!(buf[1 * 10 + 1], 0);
}

#[test]
fn draw_char_falls_back_to_question_mark() {
    let font = font_with(&[]);
    let mut buf = vec![0u32; 10 * 16];
    draw_char(&mut buf, 10, 0, 0, 'é', 4, &font);
    assert_eq!(buf[0], 4);
    assert_eq!(buf[1], 0);
}

#[test]
fn draw_char_clipped_stays_in_clip() {
    let font = font_with(&['B']);
    let mut buf = vec![0u32; 10 * 16];
    draw_char_clipped(&mut buf, 10, 0, 0, 'B', 2, 2, 3, 4, 5, &font);
    assert_eq!(buf[3 * 10 + 2], 2);
    assert_eq!(buf[7 * 10 + 5], 2);
    assert_eq!(buf[3 * 10 + 6], 0);
    assert_eq!(buf[8 * 10 + 2], 0);
    assert_eq!(buf[2 * 10 + 2], 0);
    assert_eq!(buf[3 * 10 + 1], 0);
}

#[test]
fn draw_string_cuts_at_max_width() {
    let font = font_with(&['a', 'b']);
    let mut buf = vec![0u32; 32 * 16];
    draw_string(&mut buf, 32, 0, 0, "abab", 9, 10, &font);
    assert_eq!(buf[0], 9);
    assert_eq!(buf[9], 9);
    assert_eq!(buf[10], 0);
    assert_eq!(buf[20], 0);
}

#[test]
fn tab_bar_draws_tabs_titles_and_buttons() {
    let font = font_with(&['N', 't', 'x', '+']);
    let mut tm = TabManager::new();
    tm.new_tab("https://a.test".to_string());
    tm.update_tab_title(2, "t".to_string());
    let width = 600;
    let mut buf = vec![0u32; width * 40];
    render_tab_bar(&mut buf, width, &tm.tabs, 0, &font);
    assert_eq!(buf[0], TABBAR_BG);
    assert_eq!(buf[30 * width + 9], ACTIVE_TAB_BG);
    assert_eq!(buf[30 * width + 229], INACTIVE_TAB_BG);
    assert_eq!(buf[8 * width + 8], TABBAR_BG);
    assert_eq!(buf[16 * width + 24], 0xFFFF_FFFF);
    assert_eq!(buf[16 * width + 244], 0xFF99_9999);
    assert_eq!(buf[16 * width + 204], 0xFF77_7777);
    assert_eq!(buf[12 * width + 456], TABBAR_FG);
}

#[test]
fn tab_bar_too_narrow_draws_nothing() {
    let font = font_with(&[]);
    let tm = TabManager::new();
    let mut buf = vec![5u32; 40];
    render_tab_bar(&mut buf, 1, &tm.tabs, 0, &font);
    assert_eq!(buf, vec![5u32; 40]);
}

#[test]
fn tab_bar_hit_test_regions() {
    assert_eq!(hit_test_tab_bar_at(10, 2, 800), TabHit::Tab(0));
    assert_eq!(hit_test_tab_bar_at(210, 2, 800), TabHit::CloseButton(0));
    assert_eq!(hit_test_tab_bar_at(230, 2, 800), TabHit::Tab(1));
    assert_eq!(hit_test_tab_bar_at(430, 2, 800), TabHit::CloseButton(1));
    assert_eq!(hit_test_tab_bar_at(460, 2, 800), TabHit::NewTabButton);
    assert_eq!(hit_test_tab_bar_at(500, 2, 800), TabHit::NoHit);
    assert_eq!(hit_test_tab_bar_at(3, 2, 800), TabHit::NoHit);
}

#[test]
fn tab_bar_hit_test_narrow_window() {
    assert_eq!(hit_test_tab_bar_at(35, 1, 40), TabHit::Tab(0));
    assert_eq!(hit_test_tab_bar_at(5, 1, 40), TabHit::NoHit);
    assert_eq!(hit_test_tab_bar_at(30, 0, 40), TabHit::NewTabButton);
}

#[test]
fn dirty_region_tracks_invalidations() {
    let mut d = DirtyRegion::new();
    assert!(!d.needs_redraw());
    d.invalidate_omnibox();
    assert!(d.omnibox && !d.tabbar && !d.whole_window);
    assert!(d.needs_redraw());
    d.reset();
    assert!(!d.needs_redraw());
    d.invalidate_tabbar();
    assert!(d.tabbar && !d.omnibox);
    d.reset();
    d.invalidate_chrome();
    assert!(d.tabbar && d.omnibox && !d.whole_window);
    d.reset();
    d.invalidate_all();
    assert!(d.tabbar && d.omnibox && d.whole_window);
    let dflt = DirtyRegion::default();
    assert!(!dflt.needs_redraw());
}

#[test]
fn layer_cache_resizes_and_invalidates() {
    let mut l = LayerCache::new();
    assert!(l.buffer.is_empty() && !l.valid && l.width == 0 && l.height == 0);
    l.ensure_size(10, 5);
    assert_eq!(l.buffer.len(), 50);
    assert_eq!((l.width, l.height), (10, 5));
    l.valid = true;
    l.ensure_size(10, 5);
    assert!(l.valid);
    l.ensure_size(2, 3);
    assert_eq!(l.buffer.len(), 6);
    assert!(!l.valid);
    l.valid = true;
    l.invalidate();
    assert!(!l.valid);
}

#[test]
fn compositor_starts_with_empty_layers() {
    let c = UICompositor::new();
    assert!(!c.omnibox_is_focused);
    assert!(!c.tabbar.valid && !c.static_omnibox.valid);
    assert!(c.tabbar.buffer.is_empty());
}
