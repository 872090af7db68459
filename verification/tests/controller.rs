use redis_viewer::controller::RedisViewer;
use redis_viewer::editor::EditorState;
use redis_viewer::value::RedisValue;

fn strings(v: &[&str]) -> Vec<String> {
    v.iter().map(|s| s.to_string()).collect()
}

fn viewer_with(keys: &[&str]) -> RedisViewer {
    let mut v = RedisViewer::new();
    v.connect_session("local".to_string(), strings(keys));
    v
}

fn active_editor(v: &RedisViewer) -> EditorState {
    v.active_session().expect("no active session").editor.clone()
}

#[test]
fn new_controller_has_no_active_session() {
    let v = RedisViewer::new();
    assert!(v.active_index().is_none());
    assert!(v.active_session().is_none());
    assert!(v.tab_list().is_empty());
}

#[test]
fn connect_builds_session_and_tab() {
    let v = viewer_with(&["user:1:name", "counter"]);
    let sess = v.active_session().unwrap();
    assert_eq!(sess.label, "local");
    assert_eq!(sess.keys, strings(&["user:1:name", "counter"]));
    assert!(matches!(sess.editor, EditorState::Idle));
    assert_eq!(v.tab_list().len(), 1);
    assert_eq!(v.tab_list()[0].label, "local");
    assert_eq!(Some(v.tab_list()[0].index), v.active_index());
}

#[test]
fn select_absent_key_stays_idle() {
    let mut v = viewer_with(&["present"]);
    assert!(v.select_key("missing".to_string(), Some(RedisValue::Null)));
    assert!(matches!(active_editor(&v), EditorState::Idle));
}

#[test]
fn select_composite_value_stays_idle() {
    let mut v = viewer_with(&["l"]);
    assert!(v.select_key("l".to_string(), Some(RedisValue::List(strings(&["a", "b"])))));
    assert!(matches!(active_editor(&v), EditorState::Idle));
}

#[test]
fn select_string_value_opens_editor() {
    let mut v = viewer_with(&["k"]);
    assert!(v.select_key("k".to_string(), Some(RedisValue::String("v".to_string()))));
    match active_editor(&v) {
        EditorState::Editing { key, pending_value } => {
            assert_eq!(key, "k");
            assert_eq!(pending_value, "v");
        }
        other => panic!("expected editing state, got {:?}", other),
    }
}

#[test]
fn select_fetch_error_changes_nothing() {
    let mut v = viewer_with(&["k"]);
    v.select_key("k".to_string(), Some(RedisValue::String("v".to_string())));
    assert!(v.select_key("k".to_string(), None));
    assert!(matches!(active_editor(&v), EditorState::Editing { .. }));
}

#[test]
fn select_without_session_reports_failure() {
    let mut v = RedisViewer::new();
    assert!(!v.select_key("k".to_string(), Some(RedisValue::Null)));
}

#[test]
fn edit_value_text_updates_pending_value() {
    let mut v = viewer_with(&["k"]);
    v.select_key("k".to_string(), Some(RedisValue::String("v".to_string())));
    v.edit_value_text("v2".to_string());
    match active_editor(&v) {
        EditorState::Editing { key, pending_value } => {
            assert_eq!(key, "k");
            assert_eq!(pending_value, "v2");
        }
        other => panic!("expected editing state, got {:?}", other),
    }
}

#[test]
fn edit_value_text_ignored_when_idle() {
    let mut v = viewer_with(&["k"]);
    v.edit_value_text("v2".to_string());
    assert!(matches!(active_editor(&v), EditorState::Idle));
}

#[test]
fn save_edit_target_names_key_and_value() {
    let mut v = viewer_with(&["k"]);
    v.select_key("k".to_string(), Some(RedisValue::String("v".to_string())));
    v.edit_value_text("v2".to_string());
    assert_eq!(v.save_edit_target(), Some(("k".to_string(), "v2".to_string())));
}

#[test]
fn save_edit_target_none_when_idle() {
    let v = viewer_with(&["k"]);
    assert_eq!(v.save_edit_target(), None);
}

#[test]
fn delete_succeeds_then_idle_and_refresh_owed() {
    let mut v = viewer_with(&["k"]);
    v.select_key("k".to_string(), Some(RedisValue::String("v".to_string())));
    assert_eq!(v.delete_edit_target(), Some("k".to_string()));
    let refresh = v.delete_edit_apply(true);
    assert!(refresh);
    assert!(matches!(active_editor(&v), EditorState::Idle));
    assert!(v.refresh_active(strings(&[])));
    assert!(v.active_session().unwrap().keys.is_empty());
}

#[test]
fn delete_fails_then_edit_kept() {
    let mut v = viewer_with(&["k"]);
    v.select_key("k".to_string(), Some(RedisValue::String("v".to_string())));
    let refresh = v.delete_edit_apply(false);
    assert!(!refresh);
    match active_editor(&v) {
        EditorState::Editing { key, pending_value } => {
            assert_eq!(key, "k");
            assert_eq!(pending_value, "v");
        }
        other => panic!("expected editing state, got {:?}", other),
    }
}

#[test]
fn create_form_collects_key_and_value() {
    let mut v = viewer_with(&["k"]);
    assert!(v.open_create_form());
    v.edit_create_key_text("x".to_string());
    v.edit_create_value_text("y".to_string());
    assert_eq!(v.confirm_create_target(), Some(("x".to_string(), "y".to_string())));
}

#[test]
fn confirm_create_fails_then_form_kept() {
    let mut v = viewer_with(&["k"]);
    v.open_create_form();
    v.edit_create_key_text("x".to_string());
    v.edit_create_value_text("y".to_string());
    let refresh = v.confirm_create_apply(false);
    assert!(!refresh);
    match active_editor(&v) {
        EditorState::Creating { pending_key, pending_value } => {
            assert_eq!(pending_key, "x");
            assert_eq!(pending_value, "y");
        }
        other => panic!("expected creating state, got {:?}", other),
    }
}

#[test]
fn confirm_create_succeeds_then_idle_and_refresh_owed() {
    let mut v = viewer_with(&["k"]);
    v.open_create_form();
    v.edit_create_key_text("x".to_string());
    v.edit_create_value_text("y".to_string());
    let refresh = v.confirm_create_apply(true);
    assert!(refresh);
    assert!(matches!(active_editor(&v), EditorState::Idle));
}

#[test]
fn refresh_rebuilds_and_collapses_but_keeps_editor() {
    let mut v = viewer_with(&["a:b"]);
    v.toggle_namespace(&vec![0]);
    assert!(v.active_session().unwrap().views[0].is_expanded);
    v.select_key("a:b".to_string(), Some(RedisValue::String("v".to_string())));
    assert!(v.refresh_active(strings(&["a:b", "c"])));
    let sess = v.active_session().unwrap();
    assert_eq!(sess.keys, strings(&["a:b", "c"]));
    assert!(sess.views.iter().all(|n| !n.is_expanded));
    assert!(matches!(sess.editor, EditorState::Editing { .. }));
}

#[test]
fn toggle_through_controller_flips_and_restores() {
    let mut v = viewer_with(&["a:b"]);
    assert!(v.toggle_namespace(&vec![0]));
    assert!(v.active_session().unwrap().views[0].is_expanded);
    assert!(v.toggle_namespace(&vec![0]));
    assert!(!v.active_session().unwrap().views[0].is_expanded);
}

#[test]
fn toggle_stale_path_reports_failure() {
    let mut v = viewer_with(&["a:b"]);
    assert!(!v.toggle_namespace(&vec![9]));
    assert!(!v.toggle_namespace(&Vec::new()));
}

#[test]
fn switch_between_sessions() {
    let mut v = RedisViewer::new();
    let first = v.connect_session("one".to_string(), strings(&["a"]));
    let second = v.connect_session("two".to_string(), strings(&["b"]));
    assert_eq!(v.active_index(), Some(second));
    assert!(v.switch_active(first));
    assert_eq!(v.active_index(), Some(first));
    assert_eq!(v.active_session().unwrap().label, "one");
}

#[test]
fn switch_to_unknown_index_is_no_op() {
    let mut v = RedisViewer::new();
    let first = v.connect_session("one".to_string(), strings(&["a"]));
    let mut bogus = first;
    bogus.slot = 42;
    assert!(!v.switch_active(bogus));
    assert_eq!(v.active_index(), Some(first));
}

#[test]
fn switch_to_removed_index_is_no_op() {
    let mut v = RedisViewer::new();
    let first = v.connect_session("one".to_string(), strings(&["a"]));
    let second = v.connect_session("two".to_string(), strings(&["b"]));
    assert!(v.remove_session(second));
    assert!(v.switch_active(first));
    assert!(!v.switch_active(second));
    assert_eq!(v.active_index(), Some(first));
    assert_eq!(v.tab_list().len(), 1);
    assert_eq!(v.tab_list()[0].label, "one");
}

#[test]
fn removed_slot_index_never_comes_back() {
    let mut v = RedisViewer::new();
    let first = v.connect_session("one".to_string(), strings(&["a"]));
    assert!(v.remove_session(first));
    let again = v.connect_session("anew".to_string(), strings(&["b"]));
    assert_eq!(again.slot, first.slot);
    assert_ne!(again, first);
    assert!(!v.switch_active(first));
    assert_eq!(v.active_index(), Some(again));
}

#[test]
fn new_tab_deactivates() {
    let mut v = viewer_with(&["a"]);
    v.new_tab();
    assert!(v.active_index().is_none());
    assert_eq!(v.tab_list().len(), 1);
}
