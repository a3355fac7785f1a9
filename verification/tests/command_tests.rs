use tui_journal::app::App;
use tui_journal::commands::{
    exec_create_entry, exec_cycle_backward, exec_cycle_forward, exec_cycle_tag_filter,
    exec_delete_current_entry, exec_edit_current_entry, exec_folder_nav_back,
    exec_folder_nav_enter, exec_quit, exec_rename_folder, exec_reset_filter,
    exec_select_next_entry, exec_select_prev_entry, exec_show_help,
    exec_toggle_full_screen_mode, exec_toggle_view_mode, go_to_bottom_entry, go_to_top_entry,
    page_down_entries, page_up_entries, ControlType, HandleInputReturnType, KeybindingsTabs,
    Popup, UICommand, UIComponents, ViewMode,
};
use tui_journal::entries_list::EntriesList;
use tui_journal::entry::{Entry, Timestamp};

fn ui() -> UIComponents {
    UIComponents {
        active_control: ControlType::EntriesList,
        entries_list: EntriesList::new(),
        popup_stack: vec![],
        has_unsaved_changes: false,
    }
}

fn entry(id: u32, secs: i64, folder: &str) -> Entry {
    Entry::new(
        id,
        Timestamp { secs, nanos: 0 },
        format!("E{id}"),
        String::new(),
        vec![],
        None,
        folder.to_string(),
    )
}

fn app_with(entries: Vec<Entry>) -> App<()> {
    let mut app = App::new((), 10);
    app.set_loaded_entries(entries);
    app
}

#[test]
fn quit_exits_without_unsaved_changes() {
    let mut u = ui();
    assert!(matches!(exec_quit(&mut u), Ok(HandleInputReturnType::ExitApp)));
    assert!(u.popup_stack.is_empty());
}

#[test]
fn quit_asks_about_unsaved_changes() {
    let mut u = ui();
    u.has_unsaved_changes = true;
    assert!(matches!(exec_quit(&mut u), Ok(HandleInputReturnType::Handled)));
    assert!(matches!(u.popup_stack.last(), Some(Popup::UnsavedChanges(Some(UICommand::Quit)))));
}

#[test]
fn help_opens_at_the_tab_of_the_focused_control() {
    let mut u = ui();
    assert!(matches!(exec_show_help(&mut u), Ok(HandleInputReturnType::Handled)));
    assert!(matches!(u.popup_stack.last(), Some(Popup::Help(KeybindingsTabs::Global))));
    u.entries_list.multi_select_mode = true;
    exec_show_help(&mut u).unwrap();
    assert!(matches!(u.popup_stack.last(), Some(Popup::Help(KeybindingsTabs::MultiSelect))));
    u.active_control = ControlType::EntryContentTxt;
    exec_show_help(&mut u).unwrap();
    assert!(matches!(u.popup_stack.last(), Some(Popup::Help(KeybindingsTabs::Editor))));
    assert_eq!(u.popup_stack.len(), 3);
}

#[test]
fn focus_moves_only_with_a_current_entry() {
    let app0 = app_with(vec![entry(1, 10, "")]);
    let mut u = ui();
    exec_cycle_forward(&mut u, &app0).unwrap();
    assert_eq!(u.active_control, ControlType::EntriesList);
    let mut app = app_with(vec![entry(1, 10, "")]);
    app.current_entry_id = Some(1);
    exec_cycle_forward(&mut u, &app).unwrap();
    assert_eq!(u.active_control, ControlType::EntryContentTxt);
    assert!(!u.entries_list.is_active);
    exec_cycle_backward(&mut u, &app).unwrap();
    assert_eq!(u.active_control, ControlType::EntriesList);
    assert!(u.entries_list.is_active);
}

#[test]
fn flat_list_selection_moves_and_stops_at_the_ends() {
    let mut app = app_with(vec![entry(1, 30, ""), entry(2, 20, ""), entry(3, 10, "")]);
    let mut u = ui();
    go_to_top_entry(&mut u, &mut app);
    assert_eq!(app.current_entry_id, Some(1));
    assert_eq!(u.entries_list.state, Some(0));
    exec_select_next_entry(&mut u, &mut app).unwrap();
    assert_eq!(app.current_entry_id, Some(2));
    page_down_entries(&mut u, &mut app, 5);
    assert_eq!(app.current_entry_id, Some(3));
    assert_eq!(u.entries_list.state, Some(2));
    exec_select_prev_entry(&mut u, &mut app).unwrap();
    assert_eq!(app.current_entry_id, Some(2));
    page_up_entries(&mut u, &mut app, 5);
    assert_eq!(app.current_entry_id, Some(1));
    go_to_bottom_entry(&mut u, &mut app);
    assert_eq!(app.current_entry_id, Some(3));
}

#[test]
fn selection_waits_on_unsaved_changes() {
    let mut app = app_with(vec![entry(1, 30, ""), entry(2, 20, "")]);
    let mut u = ui();
    go_to_top_entry(&mut u, &mut app);
    u.has_unsaved_changes = true;
    exec_select_next_entry(&mut u, &mut app).unwrap();
    assert_eq!(app.current_entry_id, Some(1));
    assert!(matches!(
        u.popup_stack.last(),
        Some(Popup::UnsavedChanges(Some(UICommand::SelectedNextEntry)))
    ));
}

#[test]
fn folder_navigation_enters_and_leaves_folders() {
    let mut app = app_with(vec![entry(1, 30, "work"), entry(2, 20, "work/deep"), entry(3, 10, "")]);
    app.state.folder_nav_mode = true;
    let mut u = ui();
    u.entries_list.folder_list_state = Some(0);
    // the root shows the folder "work" first, then the entry 3
    assert_eq!(u.entries_list.selected_folder_name(&app), Some("work".to_string()));
    exec_folder_nav_enter(&mut u, &mut app).unwrap();
    assert_eq!(u.entries_list.folder_path, vec!["work"]);
    assert_eq!(u.entries_list.folder_list_state, Some(0));
    // in "work": the folder "deep" first, so no current entry
    assert_eq!(app.current_entry_id, None);
    exec_select_next_entry(&mut u, &mut app).unwrap();
    assert_eq!(u.entries_list.folder_list_state, Some(1));
    assert_eq!(app.current_entry_id, Some(1));
    exec_select_next_entry(&mut u, &mut app).unwrap();
    assert_eq!(u.entries_list.folder_list_state, Some(1));
    exec_folder_nav_back(&mut u, &mut app).unwrap();
    assert!(u.entries_list.folder_path.is_empty());
    assert_eq!(u.entries_list.folder_list_state, Some(0));
    exec_select_next_entry(&mut u, &mut app).unwrap();
    assert_eq!(u.entries_list.selected_folder_entry_id(&app), Some(3));
    assert_eq!(app.current_entry_id, Some(3));
}

#[test]
fn rename_and_delete_ask_about_the_selected_folder() {
    let mut app = app_with(vec![entry(1, 30, "work/deep"), entry(2, 20, "")]);
    app.state.folder_nav_mode = true;
    let mut u = ui();
    u.entries_list.folder_list_state = Some(0);
    exec_folder_nav_enter(&mut u, &mut app).unwrap();
    exec_rename_folder(&mut u, &app).unwrap();
    match u.popup_stack.last() {
        Some(Popup::RenameFolder(p)) => assert_eq!(p.old_path, "work/deep"),
        _ => panic!("expected the rename prompt"),
    }
    exec_delete_current_entry(&mut u, &app).unwrap();
    match u.popup_stack.last() {
        Some(Popup::Question(q, Some(UICommand::ConfirmDeleteFolder))) => {
            assert_eq!(q, "Do you want to remove the folder 'work/deep' and all its contents?")
        },
        _ => panic!("expected the question"),
    }
}

#[test]
fn delete_asks_about_the_current_entry_in_the_flat_list() {
    let mut app = app_with(vec![entry(1, 30, "")]);
    let mut u = ui();
    exec_delete_current_entry(&mut u, &app).unwrap();
    assert!(u.popup_stack.is_empty());
    app.current_entry_id = Some(1);
    exec_delete_current_entry(&mut u, &app).unwrap();
    match u.popup_stack.last() {
        Some(Popup::Question(q, Some(UICommand::DeleteCurrentEntry))) => {
            assert_eq!(q, "Do you want to remove the selected journal?")
        },
        _ => panic!("expected the question"),
    }
}

#[test]
fn full_screen_toggles() {
    let mut app = app_with(vec![]);
    assert!(!app.state.full_screen);
    exec_toggle_full_screen_mode(&mut app).unwrap();
    assert!(app.state.full_screen);
    exec_toggle_full_screen_mode(&mut app).unwrap();
    assert!(!app.state.full_screen);
}

#[test]
fn create_entry_opens_a_fresh_form() {
    let mut u = ui();
    exec_create_entry(&mut u, Some(3)).unwrap();
    match u.popup_stack.last() {
        Some(Popup::Entry(p)) => {
            assert!(!p.is_edit_entry);
            assert_eq!(p.priority_txt, "3");
            assert_eq!(p.title_txt, "");
        },
        _ => panic!("expected the entry form"),
    }
    u.has_unsaved_changes = true;
    exec_create_entry(&mut u, None).unwrap();
    assert!(matches!(u.popup_stack.last(), Some(Popup::UnsavedChanges(Some(UICommand::CreateEntry)))));
}

#[test]
fn edit_entry_opens_the_form_of_the_current_entry() {
    let mut app = app_with(vec![entry(1, 1_709_596_800, "inbox")]);
    let mut u = ui();
    exec_edit_current_entry(&mut u, &mut app).unwrap();
    assert!(u.popup_stack.is_empty());
    app.current_entry_id = Some(1);
    exec_edit_current_entry(&mut u, &mut app).unwrap();
    match u.popup_stack.last() {
        Some(Popup::Entry(p)) => {
            assert!(p.is_edit_entry);
            assert_eq!(p.title_txt, "E1");
            assert_eq!(p.date_txt, "05-03-2024");
            assert_eq!(p.folder_txt, "inbox");
        },
        _ => panic!("expected the entry form"),
    }
}

#[test]
fn view_mode_choice_shows_the_current_mode() {
    let mut app = app_with(vec![]);
    let mut u = ui();
    exec_toggle_view_mode(&mut u, &mut app).unwrap();
    assert!(matches!(u.popup_stack.last(), Some(Popup::ViewMode(ViewMode::Flat))));
    app.state.folder_nav_mode = true;
    exec_toggle_view_mode(&mut u, &mut app).unwrap();
    assert!(matches!(u.popup_stack.last(), Some(Popup::ViewMode(ViewMode::Folder))));
}

#[test]
fn tag_filter_cycles_and_resets() {
    let mut a = entry(1, 30, "");
    a.tags = vec!["x".to_string()];
    let mut app = app_with(vec![a, entry(2, 20, "")]);
    let mut u = ui();
    exec_cycle_tag_filter(&mut u, &mut app).unwrap();
    assert_eq!(app.get_active_entries().len(), 1);
    assert_eq!(app.get_active_entries()[0].id, 1);
    exec_cycle_tag_filter(&mut u, &mut app).unwrap();
    assert_eq!(app.get_active_entries()[0].id, 2);
    exec_reset_filter(&mut app).unwrap();
    assert!(app.filter.is_none());
    assert_eq!(app.get_active_entries().len(), 2);
    u.has_unsaved_changes = true;
    exec_cycle_tag_filter(&mut u, &mut app).unwrap();
    assert!(app.filter.is_none());
}
