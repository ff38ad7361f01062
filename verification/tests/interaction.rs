use closm_probe::interaction::{
    animate_camera, breadcrumb_clicked, check_folder_selection, cleanup_viewing, handle_drilldown,
    handle_keyboard, handle_navigate_to, handle_selection, handle_view_reset,
    history_entry_clicked, is_double_click, poll_file_dialog, toggle_settings, update_hover,
    ClickState, DrillDownEvent, HoverProbe, MainView, PendingFolderSelection, Session, UiState,
    DOUBLE_CLICK_THRESHOLD_MS,
};
use closm_probe::persistent_cache::{CacheWriteCommand, PersistentCache};
use closm_probe::states::{AppState, ViewingMode};

fn p(s: &str) -> String {
    s.to_string()
}

fn viewing(path: &str) -> Session {
    let mut s = Session::new(10);
    s.pending_folder.path = Some(p(path));
    assert_eq!(check_folder_selection(&mut s, None), Some(p(path)));
    s
}

fn target(entity: u64, path: &str) -> Option<DrillDownEvent> {
    Some(DrillDownEvent { entity, path: p(path) })
}

#[test]
fn a_new_session_shows_no_folder() {
    let s = Session::new(10);
    assert_eq!(s.app_state, AppState::Empty);
    assert_eq!(s.viewing_mode, ViewingMode::Idle);
    assert!(s.current_dir.path.is_none());
    assert!(s.breadcrumb.segments.is_empty());
    assert_eq!(s.history.max_entries, 10);
    assert_eq!(AppState::default(), AppState::Empty);
    assert_eq!(ViewingMode::default(), ViewingMode::Idle);
    assert_eq!(MainView::default(), MainView::Universe);
    assert!(UiState::default().hovered_entity.is_none());
    assert!(PendingFolderSelection::default().path.is_none());
    assert!(ClickState::default().last_click_time.is_none());
    assert_eq!(DOUBLE_CLICK_THRESHOLD_MS, 300);
}

#[test]
fn chosen_folder_lands_in_viewing_idle() {
    let mut s = Session::new(10);
    s.ui_state.main_view = MainView::Settings;
    assert_eq!(check_folder_selection(&mut s, None), None);
    assert_eq!(s.app_state, AppState::Empty);
    assert!(poll_file_dialog(&mut s, Some(Some(p("/home/u")))));
    assert_eq!(check_folder_selection(&mut s, None), Some(p("/home/u")));
    assert_eq!(s.app_state, AppState::Viewing);
    assert_eq!(s.viewing_mode, ViewingMode::Idle);
    assert_eq!(s.ui_state.main_view, MainView::Universe);
    assert_eq!(s.current_dir.path, Some(p("/home/u")));
    assert!(s.pending_folder.path.is_none());
    assert_eq!(s.history.entries, vec![p("/home/u")]);
    assert_eq!(s.history.back, vec![p("/home/u")]);
    let crumbs: Vec<String> = s.breadcrumb.segments.iter().map(|c| c.path.clone()).collect();
    assert_eq!(crumbs, vec![p("/"), p("/home"), p("/home/u")]);
}

#[test]
fn dialog_results_are_taken_only_while_no_folder_is_shown() {
    let mut s = Session::new(10);
    assert!(!poll_file_dialog(&mut s, None));
    assert!(poll_file_dialog(&mut s, Some(None)));
    assert!(s.pending_folder.path.is_none());
    let mut v = viewing("/a");
    assert!(!poll_file_dialog(&mut v, Some(Some(p("/b")))));
    assert!(v.pending_folder.path.is_none());
    v.pending_folder.path = Some(p("/c"));
    assert_eq!(check_folder_selection(&mut v, None), None);
    assert_eq!(v.current_dir.path, Some(p("/a")));
}

#[test]
fn folder_selection_hands_the_history_to_the_durable_store() {
    let (cache, receiver) = PersistentCache::new(3600);
    let mut s = Session::new(10);
    s.pending_folder.path = Some(p("/a"));
    check_folder_selection(&mut s, Some(&cache));
    match receiver.try_recv().unwrap() {
        CacheWriteCommand::WriteHistory { entries } => assert_eq!(entries, vec![p("/a")]),
        _ => panic!("not a history write"),
    }
    assert_eq!(handle_navigate_to(&mut s, vec![p("/b")], Some(&cache)), 1);
    match receiver.try_recv().unwrap() {
        CacheWriteCommand::WriteHistory { entries } => assert_eq!(entries, vec![p("/a")]),
        _ => panic!("not a history write"),
    }
}

#[test]
fn double_click_on_a_directory_lands_in_animating() {
    let mut s = viewing("/a");
    update_hover(&mut s, HoverProbe::Hit(7));
    assert!(handle_drilldown(&mut s, true, 1_000, target(7, "/a/sub"), None).is_none());
    assert!(handle_selection(&mut s, true, 1_000).is_some());
    assert_eq!(s.ui_state.selected_entity, Some(7));
    assert!(is_double_click(&s, 1_299));
    assert!(!is_double_click(&s, 1_300));
    let event = handle_drilldown(&mut s, true, 1_200, target(7, "/a/sub"), None).unwrap();
    assert_eq!((event.entity, event.path.as_str()), (7, "/a/sub"));
    assert_eq!(s.app_state, AppState::Viewing);
    assert_eq!(s.viewing_mode, ViewingMode::Animating);
    assert_eq!(s.current_dir.path, Some(p("/a/sub")));
    assert_eq!(s.history.entries, vec![p("/a")]);
    assert_eq!(s.history.back, vec![p("/a"), p("/a")]);
    assert_eq!(s.breadcrumb.segments.last().unwrap().name, "sub");
    assert!(handle_selection(&mut s, true, 1_200).is_none());
    assert!(s.click_state.last_click_time.is_none());
    assert!(s.click_state.last_click_entity.is_none());
}

#[test]
fn drilldown_is_refused_when_its_conditions_fail() {
    let setup = || {
        let mut s = viewing("/a");
        update_hover(&mut s, HoverProbe::Hit(7));
        handle_selection(&mut s, true, 1_000);
        s
    };
    let mut slow = setup();
    assert!(handle_drilldown(&mut slow, true, 1_300, target(7, "/a/sub"), None).is_none());
    let mut released = setup();
    assert!(handle_drilldown(&mut released, false, 1_100, target(7, "/a/sub"), None).is_none());
    let mut file = setup();
    assert!(handle_drilldown(&mut file, true, 1_100, None, None).is_none());
    let mut other = setup();
    assert!(handle_drilldown(&mut other, true, 1_100, target(8, "/a/sub"), None).is_none());
    let mut moved = setup();
    update_hover(&mut moved, HoverProbe::Hit(9));
    assert!(handle_drilldown(&mut moved, true, 1_100, target(7, "/a/sub"), None).is_none());
    let mut settings = setup();
    toggle_settings(&mut settings);
    assert!(handle_drilldown(&mut settings, true, 1_100, target(7, "/a/sub"), None).is_none());
    let mut busy = setup();
    assert!(handle_view_reset(&mut busy, 1, 1));
    assert!(handle_drilldown(&mut busy, true, 1_100, target(7, "/a/sub"), None).is_none());
    assert_eq!(busy.current_dir.path, Some(p("/a")));
    let mut empty = Session::new(10);
    assert!(handle_drilldown(&mut empty, true, 1_100, target(7, "/a/sub"), None).is_none());
}

#[test]
fn finished_animation_lands_in_idle_and_asks_for_a_respawn() {
    let mut s = viewing("/a");
    assert!(!animate_camera(&mut s, true));
    assert!(handle_view_reset(&mut s, 1, 1));
    assert_eq!(s.viewing_mode, ViewingMode::Animating);
    assert!(!animate_camera(&mut s, false));
    assert_eq!(s.viewing_mode, ViewingMode::Animating);
    assert!(animate_camera(&mut s, true));
    assert_eq!(s.viewing_mode, ViewingMode::Idle);
    assert_eq!(s.app_state, AppState::Viewing);
}

#[test]
fn view_reset_is_honored_only_in_idle() {
    let mut s = viewing("/a");
    assert!(!handle_view_reset(&mut s, 0, 1));
    assert!(!handle_view_reset(&mut s, 1, 0));
    assert!(handle_view_reset(&mut s, 2, 1));
    assert!(!handle_view_reset(&mut s, 1, 1));
    let mut empty = Session::new(10);
    assert!(!handle_view_reset(&mut empty, 1, 1));
    assert_eq!(empty.viewing_mode, ViewingMode::Idle);
}

#[test]
fn navigation_cuts_over_and_returns_to_idle() {
    let mut s = viewing("/a/b");
    toggle_settings(&mut s);
    assert!(handle_view_reset(&mut s, 1, 1));
    assert_eq!(handle_navigate_to(&mut s, vec![p("/a"), p("/z")], None), 2);
    assert_eq!(s.viewing_mode, ViewingMode::Idle);
    assert_eq!(s.ui_state.main_view, MainView::Universe);
    assert_eq!(s.current_dir.path, Some(p("/z")));
    assert_eq!(s.history.entries, vec![p("/a"), p("/a/b")]);
    assert_eq!(s.history.back, vec![p("/a/b"), p("/a/b"), p("/a")]);
    assert_eq!(s.breadcrumb.segments.len(), 2);
    assert_eq!(handle_navigate_to(&mut s, Vec::new(), None), 0);
    let mut empty = Session::new(10);
    assert_eq!(handle_navigate_to(&mut empty, vec![p("/a")], None), 0);
    assert!(empty.current_dir.path.is_none());
}

#[test]
fn selection_follows_the_hover() {
    let mut s = viewing("/a");
    assert!(handle_selection(&mut s, false, 0).is_none());
    assert!(handle_selection(&mut s, true, 0).is_none());
    assert_eq!(s.click_state.last_click_time, Some(0));
    assert_eq!(s.click_state.last_click_entity, None);
    update_hover(&mut s, HoverProbe::Hit(3));
    let e = handle_selection(&mut s, true, 500).unwrap();
    assert_eq!(e.entity, Some(3));
    update_hover(&mut s, HoverProbe::Miss);
    let cleared = handle_selection(&mut s, true, 2_000).unwrap();
    assert_eq!(cleared.entity, None);
    assert_eq!(s.ui_state.selected_entity, None);
    toggle_settings(&mut s);
    assert!(handle_selection(&mut s, true, 3_000).is_none());
    assert_eq!(s.click_state.last_click_time, Some(2_000));
}

#[test]
fn hover_is_suppressed_outside_the_scene() {
    let mut s = viewing("/a");
    update_hover(&mut s, HoverProbe::Hit(3));
    update_hover(&mut s, HoverProbe::Unavailable);
    assert_eq!(s.ui_state.hovered_entity, Some(3));
    toggle_settings(&mut s);
    update_hover(&mut s, HoverProbe::Hit(4));
    assert_eq!(s.ui_state.hovered_entity, None);
    toggle_settings(&mut s);
    update_hover(&mut s, HoverProbe::Hit(4));
    assert_eq!(s.ui_state.hovered_entity, Some(4));
    s.ui_state.selected_entity = Some(4);
    cleanup_viewing(&mut s);
    assert!(s.ui_state.hovered_entity.is_none() && s.ui_state.selected_entity.is_none());
}

#[test]
fn keys_close_settings_clear_the_selection_and_reset_the_view() {
    let mut s = viewing("/a");
    s.ui_state.selected_entity = Some(1);
    toggle_settings(&mut s);
    let first = handle_keyboard(&mut s, true, true);
    assert_eq!(s.ui_state.main_view, MainView::Universe);
    assert!(!first.selection_cleared && first.view_reset_requested);
    assert_eq!(s.ui_state.selected_entity, Some(1));
    let second = handle_keyboard(&mut s, true, false);
    assert!(second.selection_cleared && !second.view_reset_requested);
    assert_eq!(s.ui_state.selected_entity, None);
    let third = handle_keyboard(&mut s, true, false);
    assert!(!third.selection_cleared);
    toggle_settings(&mut s);
    assert!(!handle_keyboard(&mut s, false, true).view_reset_requested);
    let mut empty = Session::new(10);
    empty.ui_state.selected_entity = Some(1);
    let out = handle_keyboard(&mut empty, true, true);
    assert!(!out.selection_cleared && !out.view_reset_requested);
}

#[test]
fn recent_folder_waits_or_navigates() {
    let mut s = Session::new(10);
    toggle_settings(&mut s);
    assert_eq!(history_entry_clicked(&mut s, p("/r")), None);
    assert_eq!(s.pending_folder.path, Some(p("/r")));
    assert_eq!(s.ui_state.main_view, MainView::Universe);
    let mut v = viewing("/a");
    toggle_settings(&mut v);
    assert_eq!(history_entry_clicked(&mut v, p("/r")), Some(p("/r")));
    assert!(v.pending_folder.path.is_none());
    assert_eq!(v.ui_state.main_view, MainView::Universe);
}

#[test]
fn breadcrumb_steps_navigate_except_the_last() {
    let mut s = viewing("/a/b");
    assert_eq!(breadcrumb_clicked(&s, 0), Some(p("/")));
    assert_eq!(breadcrumb_clicked(&s, 1), Some(p("/a")));
    assert_eq!(breadcrumb_clicked(&s, 2), None);
    assert_eq!(breadcrumb_clicked(&s, 3), None);
    assert_eq!(breadcrumb_clicked(&s, usize::MAX), None);
    toggle_settings(&mut s);
    assert_eq!(breadcrumb_clicked(&s, 0), None);
    assert_eq!(breadcrumb_clicked(&Session::new(10), 0), None);
}
