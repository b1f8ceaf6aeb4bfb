use petal_browser::fsm::tab_manager::{FsmAction, TabManager, TabState};

#[test]
fn new_manager_has_one_start_tab() {
    let tm = TabManager::new();
    assert_eq!(tm.tabs.len(), 1);
    assert_eq!(tm.active_index, 0);
    assert_eq!(tm.tabs[0].id, 1);
    assert_eq!(tm.tabs[0].url, "https://magma.browser/local_cache");
    assert_eq!(tm.tabs[0].title, "");
    assert!(tm.tabs[0].snapshot.is_none());
    assert_eq!(tm.tabs[0].state, TabState::Level0Focus);
    assert!(tm.tabs[0].background_since.is_none());
    assert_eq!(tm.next_id, 2);
}

#[test]
fn new_tab_goes_to_front_with_next_id() {
    let mut tm = TabManager::new();
    tm.new_tab("https://a.test".to_string());
    tm.new_tab("https://b.test".to_string());
    assert_eq!(tm.tabs.len(), 3);
    assert_eq!(tm.active_index, 2);
    assert_eq!(tm.tabs[1].id, 2);
    assert_eq!(tm.tabs[2].id, 3);
    assert_eq!(tm.tabs[2].url, "https://b.test");
    assert_eq!(tm.next_id, 4);
}

#[test]
fn close_tab_out_of_range_changes_nothing() {
    let mut tm = TabManager::new();
    tm.new_tab("https://a.test".to_string());
    assert_eq!(tm.close_tab(5), None);
    assert_eq!(tm.tabs.len(), 2);
    assert_eq!(tm.active_index, 1);
}

#[test]
fn closing_last_tab_refills_with_start_page() {
    let mut tm = TabManager::new();
    assert_eq!(tm.close_tab(0), Some(1));
    assert_eq!(tm.tabs.len(), 1);
    assert_eq!(tm.tabs[0].id, 2);
    assert_eq!(tm.tabs[0].url, "https://magma.browser/local_cache");
    assert_eq!(tm.active_index, 0);
    assert_eq!(tm.next_id, 3);
}

#[test]
fn closing_tab_before_front_keeps_front_tab() {
    let mut tm = TabManager::new();
    tm.new_tab("https://a.test".to_string());
    tm.new_tab("https://b.test".to_string());
    assert!(tm.switch_tab(1));
    assert_eq!(tm.close_tab(0), Some(1));
    assert_eq!(tm.active_index, 0);
    assert_eq!(tm.tabs[tm.active_index].id, 2);
}

#[test]
fn closing_front_tab_at_end_moves_front_back() {
    let mut tm = TabManager::new();
    tm.new_tab("https://a.test".to_string());
    tm.new_tab("https://b.test".to_string());
    assert_eq!(tm.close_tab(2), Some(3));
    assert_eq!(tm.tabs.len(), 2);
    assert_eq!(tm.active_index, 1);
    assert_eq!(tm.tabs[1].id, 2);
}

#[test]
fn switch_tab_stamps_tab_leaving_front() {
    let mut tm = TabManager::new();
    tm.new_tab("https://a.test".to_string());
    assert!(tm.switch_tab(0));
    assert_eq!(tm.active_index, 0);
    assert!(tm.tabs[1].background_since.is_some());
    assert!(tm.tabs[0].background_since.is_none());
    assert_eq!(tm.tabs[0].state, TabState::Level0Focus);
    assert!(!tm.switch_tab(0));
    assert!(!tm.switch_tab(7));
    assert_eq!(tm.active_index, 0);
}

#[test]
fn set_foreground_clears_stamp_of_front_tab() {
    let mut tm = TabManager::new();
    tm.new_tab("https://a.test".to_string());
    assert!(tm.switch_tab(0));
    tm.active_index = 1;
    assert_eq!(tm.set_foreground(), Ok(()));
    assert!(tm.tabs[1].background_since.is_none());
    assert_eq!(tm.tabs[1].state, TabState::Level0Focus);
}

#[test]
fn updates_by_id_touch_only_that_tab() {
    let mut tm = TabManager::new();
    tm.new_tab("https://a.test".to_string());
    tm.update_tab_title(1, "Start".to_string());
    tm.update_tab_url(2, "https://c.test".to_string());
    tm.update_tab_title(99, "Nobody".to_string());
    assert_eq!(tm.tabs[0].title, "Start");
    assert_eq!(tm.tabs[0].url, "https://magma.browser/local_cache");
    assert_eq!(tm.tabs[1].title, "");
    assert_eq!(tm.tabs[1].url, "https://c.test");
    assert!(tm.get_tab_mut(99).is_none());
    assert_eq!(tm.get_tab_mut(2).map(|t| t.id), Some(2));
}

#[test]
fn update_active_url_changes_front_tab() {
    let mut tm = TabManager::new();
    tm.new_tab("https://a.test".to_string());
    tm.update_active_url("https://d.test".to_string());
    assert_eq!(tm.tabs[1].url, "https://d.test");
    assert_eq!(tm.tabs[0].url, "https://magma.browser/local_cache");
    assert_eq!(tm.get_active_tab().map(|t| t.id), Some(2));
}

#[test]
fn snapshot_starts_with_frame_length() {
    let mut tm = TabManager::new();
    let frame: Vec<u8> = vec![7u8; 300];
    tm.save_active_snapshot(frame.clone());
    let snap = tm.tabs[0].snapshot.clone().expect("snapshot stored");
    assert_eq!(&snap[0..4], &[44u8, 1, 0, 0]);
    assert_ne!(snap, frame);
    assert_eq!(lz4_flex::decompress_size_prepended(&snap).unwrap(), frame);
}

#[test]
fn tick_asks_for_nothing() {
    let mut tm = TabManager::new();
    assert!(matches!(tm.tick(), Ok(FsmAction::NoAction)));
    assert_eq!(tm.tabs.len(), 1);
}
