use tui_journal::keys::{Input, KeyCode};
use tui_journal::popups::{
    FoldersPopup, FoldersPopupReturn, RenameFolderPopup, RenameFolderPopupReturn,
};

fn key(code: KeyCode) -> Input {
    Input { key_code: code, has_control: false }
}

fn ctrl(c: char) -> Input {
    Input { key_code: KeyCode::Char(c), has_control: true }
}

fn names(v: &[&str]) -> Vec<String> {
    v.iter().map(|s| s.to_string()).collect()
}

#[test]
fn current_folder_is_put_in_front_when_missing() {
    let popup = FoldersPopup::new("current", names(&["other"]));
    assert_eq!(popup.folders, names(&["current", "other"]));
    assert_eq!(popup.selected, Some(0));
}

#[test]
fn current_folder_is_selected_when_listed() {
    let popup = FoldersPopup::new("b", names(&["a", "b", "c"]));
    assert_eq!(popup.folders, names(&["a", "b", "c"]));
    assert_eq!(popup.selected, Some(1));
}

#[test]
fn empty_current_folder_selects_the_first_or_nothing() {
    let popup = FoldersPopup::new("", names(&["a", "b"]));
    assert_eq!(popup.selected, Some(0));
    let empty = FoldersPopup::new("", vec![]);
    assert!(empty.folders.is_empty());
    assert_eq!(empty.selected, None);
}

#[test]
fn cycle_next_wraps_around() {
    let mut popup = FoldersPopup::new("", names(&["one", "two", "three"]));
    assert_eq!(popup.selected, Some(0));
    popup.cycle_next();
    assert_eq!(popup.selected, Some(1));
    popup.cycle_next();
    assert_eq!(popup.selected, Some(2));
    popup.cycle_next();
    assert_eq!(popup.selected, Some(0));
}

#[test]
fn cycle_prev_wraps_around() {
    let mut popup = FoldersPopup::new("a", names(&["a", "b", "c"]));
    assert!(matches!(popup.cycle_prev(), FoldersPopupReturn::Keep));
    assert_eq!(popup.selected, Some(2));
    popup.cycle_prev();
    assert_eq!(popup.selected, Some(1));
    let mut empty = FoldersPopup::new("", vec![]);
    empty.cycle_prev();
    assert_eq!(empty.selected, None);
}

#[test]
fn confirm_applies_the_selected_folder() {
    let popup = FoldersPopup::new("docs", names(&["docs", "src"]));
    match popup.confirm() {
        FoldersPopupReturn::Apply(folder) => assert_eq!(folder, "docs"),
        _ => panic!("expected Apply"),
    }
    let empty = FoldersPopup::new("", vec![]);
    assert!(matches!(empty.confirm(), FoldersPopupReturn::Cancel));
}

#[test]
fn folder_keys() {
    let mut popup = FoldersPopup::new("", names(&["a", "b"]));
    assert!(matches!(popup.handle_input(&key(KeyCode::Char('j'))), FoldersPopupReturn::Keep));
    assert_eq!(popup.selected, Some(1));
    assert!(matches!(popup.handle_input(&key(KeyCode::Up)), FoldersPopupReturn::Keep));
    assert_eq!(popup.selected, Some(0));
    assert!(matches!(popup.handle_input(&key(KeyCode::Char('q'))), FoldersPopupReturn::Cancel));
    assert!(matches!(popup.handle_input(&key(KeyCode::Esc)), FoldersPopupReturn::Cancel));
    assert!(matches!(popup.handle_input(&ctrl('c')), FoldersPopupReturn::Cancel));
    assert!(matches!(popup.handle_input(&key(KeyCode::Char('c'))), FoldersPopupReturn::Keep));
    assert!(matches!(popup.handle_input(&key(KeyCode::Char('m'))), FoldersPopupReturn::Keep));
    match popup.handle_input(&ctrl('m')) {
        FoldersPopupReturn::Apply(f) => assert_eq!(f, "a"),
        _ => panic!("expected Apply"),
    }
    match popup.handle_input(&key(KeyCode::Enter)) {
        FoldersPopupReturn::Apply(f) => assert_eq!(f, "a"),
        _ => panic!("expected Apply"),
    }
}

#[test]
fn rename_prompt_keeps_the_old_path() {
    let popup = RenameFolderPopup::new("projects/my_folder".to_string());
    assert_eq!(popup.old_path, "projects/my_folder");
}

#[test]
fn rename_applies_the_trimmed_new_path() {
    let popup = RenameFolderPopup::new("old/path".to_string());
    match popup.handle_input(&key(KeyCode::Enter), "  new/path ") {
        RenameFolderPopupReturn::Apply(p) => assert_eq!(p, "new/path"),
        _ => panic!("expected Apply"),
    }
    match popup.handle_input(&ctrl('m'), "x") {
        RenameFolderPopupReturn::Apply(p) => assert_eq!(p, "x"),
        _ => panic!("expected Apply"),
    }
}

#[test]
fn rename_cancels_on_empty_or_unchanged_path() {
    let popup = RenameFolderPopup::new("old/path".to_string());
    assert!(matches!(popup.handle_input(&key(KeyCode::Enter), "   "), RenameFolderPopupReturn::Cancel));
    assert!(matches!(popup.handle_input(&key(KeyCode::Enter), " old/path "), RenameFolderPopupReturn::Cancel));
    assert!(matches!(popup.handle_input(&key(KeyCode::Esc), "x"), RenameFolderPopupReturn::Cancel));
    assert!(matches!(popup.handle_input(&ctrl('c'), "x"), RenameFolderPopupReturn::Cancel));
    assert!(matches!(popup.handle_input(&key(KeyCode::Char('a')), "x"), RenameFolderPopupReturn::Keep));
    assert!(matches!(popup.handle_input(&key(KeyCode::Other), "x"), RenameFolderPopupReturn::Keep));
}
