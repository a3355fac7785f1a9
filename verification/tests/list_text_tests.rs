use tui_journal::entries_list::{
    date_priority_lines, folder_date_priority_lines, DatumVisibility, EntriesList,
};
use tui_journal::app::App;
use tui_journal::entry::{Entry, Timestamp};
use tui_journal::list_layout::{scrollbar_item_height, tag_lines};

fn day(secs: i64) -> Timestamp {
    Timestamp { secs, nanos: 0 }
}

// 2024-03-05 00:00:00 UTC
const MARCH_5: i64 = 1_709_596_800;

#[test]
fn flat_list_date_and_priority_share_a_line_when_it_fits() {
    let lines = date_priority_lines(DatumVisibility::Show, day(MARCH_5), Some(2), 80);
    assert_eq!(lines, vec!["5,3,2024 | Priority: 2"]);
}

#[test]
fn flat_list_date_and_priority_split_when_narrow() {
    let lines = date_priority_lines(DatumVisibility::Show, day(MARCH_5), Some(2), 20);
    assert_eq!(lines, vec!["5,3,2024", "Priority: 2"]);
}

#[test]
fn flat_list_lines_by_visibility() {
    assert_eq!(date_priority_lines(DatumVisibility::Show, day(MARCH_5), None, 80), vec!["5,3,2024"]);
    assert!(date_priority_lines(DatumVisibility::Hide, day(MARCH_5), None, 80).is_empty());
    assert_eq!(date_priority_lines(DatumVisibility::EmptyLine, day(MARCH_5), None, 80), vec![""]);
    assert_eq!(
        date_priority_lines(DatumVisibility::Hide, day(MARCH_5), Some(7), 80),
        vec!["Priority: 7"]
    );
}

#[test]
fn folder_view_lines() {
    assert_eq!(
        folder_date_priority_lines(DatumVisibility::Show, day(MARCH_5), Some(2)),
        vec!["5,3,2024 | Priority: 2"]
    );
    assert!(folder_date_priority_lines(DatumVisibility::Hide, day(MARCH_5), None).is_empty());
    assert_eq!(
        folder_date_priority_lines(DatumVisibility::EmptyLine, day(MARCH_5), Some(1)),
        vec!["Priority: 1"]
    );
}

#[test]
fn breadcrumb_and_title_of_the_folder_view() {
    let mut el = EntriesList::new();
    assert_eq!(el.build_breadcrumb(), "  /");
    assert_eq!(el.get_folder_view_block_title(), "Journals [Folder View]");
    el.folder_path.push("Work".into());
    el.folder_path.push("2024".into());
    assert_eq!(el.build_breadcrumb(), "  /Work/2024");
    assert_eq!(el.get_folder_view_block_title(), "Journals [Folder View] › 2024");
}

fn strings(v: &[&str]) -> Vec<String> {
    v.iter().map(|s| s.to_string()).collect()
}

#[test]
fn tags_share_a_line_when_they_fit() {
    let lines = tag_lines(&strings(&["work", "home"]), 80);
    assert_eq!(lines, vec![strings(&["work", " | ", "home"])]);
}

#[test]
fn tags_move_to_new_lines_when_narrow() {
    // 7 columns for text: "work | " fills them, so "home" starts a new line.
    let lines = tag_lines(&strings(&["work", "home"]), 12);
    assert_eq!(lines, vec![strings(&["work", " | "]), strings(&["home"])]);
    // No room at all: the first line stays empty and each tag gets its own line.
    let lines = tag_lines(&strings(&["a", "b"]), 3);
    assert_eq!(lines, vec![strings(&[]), strings(&["a"]), strings(&[" | "]), strings(&["b"])]);
}

#[test]
fn no_tags_no_lines() {
    assert!(tag_lines(&Vec::new(), 80).is_empty());
}

#[test]
fn titles_are_marked_when_selected_and_wrapped() {
    let mut app = App::new((), 10);
    let entry = Entry::new(7, day(MARCH_5), "alpha beta".into(), String::new(), vec![], None, String::new());
    app.set_loaded_entries(vec![entry.clone()]);
    let mut el = EntriesList::new();
    assert_eq!(el.entry_title_lines(&entry, &app, 80), vec!["alpha beta"]);
    assert_eq!(el.entry_title_lines(&entry, &app, 10), vec!["alpha", "beta"]);
    app.selected_entries.insert(7);
    assert_eq!(el.entry_title_lines(&entry, &app, 80), vec!["alpha beta"]);
    el.multi_select_mode = true;
    assert_eq!(el.entry_title_lines(&entry, &app, 80), vec!["* alpha beta"]);
}

#[test]
fn scrollbar_only_when_lines_overflow() {
    assert_eq!(scrollbar_item_height(10, 4, 8), Some(2));
    assert_eq!(scrollbar_item_height(6, 4, 8), None);
}

#[test]
fn list_frame_title_and_position() {
    let mut el = EntriesList::new();
    assert_eq!(el.list_block_title(false), "Journals");
    assert_eq!(el.list_block_title(true), "Journals - Filtered");
    el.multi_select_mode = true;
    assert_eq!(el.list_block_title(false), "Journals - Multi-Select");
    assert_eq!(el.list_block_title(true), "Journals - Multi-Select - Filtered");
    assert_eq!(el.list_position_text(Some(12)), None);
    el.state = Some(2);
    assert_eq!(el.list_position_text(Some(12)), Some("3/12".to_string()));
    assert_eq!(el.list_position_text(None), None);
}

#[test]
fn folder_view_labels_position_and_scrollbar() {
    assert_eq!(tui_journal::list_layout::folder_item_label("work"), "\u{1F4C1} work");
    let mut el = EntriesList::new();
    assert_eq!(el.folder_position_text(0), None);
    assert_eq!(el.folder_position_text(4), Some("0/4".to_string()));
    el.folder_list_state = Some(1);
    assert_eq!(el.folder_position_text(4), Some("2/4".to_string()));
    assert_eq!(tui_journal::list_layout::folder_scrollbar_item_height(10, 8), Some(2));
    assert_eq!(tui_journal::list_layout::folder_scrollbar_item_height(6, 8), None);
    assert_eq!(tui_journal::list_layout::folder_scrollbar_item_height(0, 0), None);
}

#[test]
fn entry_lines_in_both_views_and_their_count() {
    let mut app = App::new((), 10);
    let entry = Entry::new(
        1,
        day(MARCH_5),
        "alpha beta".into(),
        String::new(),
        vec!["x".into(), "y".into()],
        Some(3),
        String::new(),
    );
    app.set_loaded_entries(vec![entry.clone()]);
    let el = EntriesList::new();
    let flat = el.flat_item_lines(&entry, &app, DatumVisibility::Show, 80);
    assert_eq!(
        flat,
        vec![
            strings(&["alpha beta"]),
            strings(&["5,3,2024 | Priority: 3"]),
            strings(&["x", " | ", "y"]),
        ]
    );
    assert_eq!(el.list_lines_count(&app, DatumVisibility::Show, 80), 3);
    let folder = tui_journal::list_layout::folder_item_lines(&entry, DatumVisibility::Hide, 3);
    assert_eq!(folder[folder.len() - 1], strings(&["y"]));
    assert_eq!(tui_journal::list_layout::plain_title_lines("alpha beta", 10), vec!["alpha", "beta"]);
}
