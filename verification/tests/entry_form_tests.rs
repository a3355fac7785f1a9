use tui_journal::entry::{Entry, Timestamp};
use tui_journal::entry_fields::{date_text, parse_u32, tags_to_text, text_to_tags, u32_text};
use tui_journal::entry_popup::{
    ActiveText, EntryPopup, EntryPopupAction, EntryPopupInputReturn, TagsPopupReturn,
};
use tui_journal::entry_popup::{BoxLook, CursorLook};
use tui_journal::keys::{Input, KeyCode};
use tui_journal::popups::folders_footer_height;

fn key(code: KeyCode) -> Input {
    Input { key_code: code, has_control: false }
}

fn ctrl(c: char) -> Input {
    Input { key_code: KeyCode::Char(c), has_control: true }
}

#[test]
fn tags_text_joins_with_comma_and_space() {
    let tags = vec!["rust".to_string(), "tests".to_string()];
    assert_eq!(tags_to_text(&tags), "rust, tests");
    assert_eq!(tags_to_text(&vec![]), "");
}

#[test]
fn text_to_tags_splits_and_trims() {
    assert_eq!(text_to_tags(" a , b,c ,"), vec!["a", "b", "c"]);
    assert_eq!(text_to_tags("one"), vec!["one"]);
    assert!(text_to_tags("").is_empty());
    assert_eq!(text_to_tags("a,,b"), vec!["a", "", "b"]);
}

#[test]
fn tags_round_trip_through_the_field() {
    let tags = vec!["work".to_string(), "home office".to_string(), "x".to_string()];
    assert_eq!(text_to_tags(&tags_to_text(&tags)), tags);
}

#[test]
fn parse_u32_reads_decimal_numbers() {
    assert_eq!(parse_u32("42"), Some(42));
    assert_eq!(parse_u32("+7"), Some(7));
    assert_eq!(parse_u32("007"), Some(7));
    assert_eq!(parse_u32("4294967295"), Some(u32::MAX));
    assert_eq!(parse_u32("4294967296"), None);
    assert_eq!(parse_u32(""), None);
    assert_eq!(parse_u32("+"), None);
    assert_eq!(parse_u32("-1"), None);
    assert_eq!(parse_u32("1a"), None);
    assert_eq!(parse_u32(" 1"), None);
    for s in ["0", "12", "+5", "99999", "x", "", "-3", "18446744073709551616"] {
        assert_eq!(parse_u32(s), s.parse::<u32>().ok(), "{s}");
    }
}

#[test]
fn numbers_are_written_in_decimal() {
    assert_eq!(u32_text(0), "0");
    assert_eq!(u32_text(10), "10");
    assert_eq!(u32_text(u32::MAX), "4294967295");
    assert_eq!(parse_u32(&u32_text(12345)), Some(12345));
}

#[test]
fn date_text_pads_day_and_month() {
    assert_eq!(date_text(5, 3, 2024), "05-03-2024");
    assert_eq!(date_text(25, 12, 1999), "25-12-1999");
    assert_eq!(date_text(1, 1, -44), "01-01--44");
    assert_eq!(date_text(9, 10, 0), "09-10-0");
}

fn sample_entry() -> Entry {
    Entry::new(
        3,
        Timestamp { secs: 1_709_596_800, nanos: 0 },
        "Title".to_string(),
        "Body".to_string(),
        vec!["a".to_string(), "b".to_string()],
        Some(4),
        "work/notes".to_string(),
    )
}

#[test]
fn form_from_entry_shows_its_values() {
    let p = EntryPopup::from_entry(&sample_entry());
    assert_eq!(p.title_txt, "Title");
    assert_eq!(p.date_txt, "05-03-2024");
    assert_eq!(p.tags_txt, "a, b");
    assert_eq!(p.folder_txt, "work/notes");
    assert_eq!(p.priority_txt, "4");
    assert!(p.is_edit_entry);
    assert_eq!(p.active_txt, ActiveText::Title);
    assert!(p.is_input_valid());
}

#[test]
fn new_form_is_empty_with_default_priority() {
    let p = EntryPopup::new_entry_on(7, 8, 2025, Some(2));
    assert_eq!(p.title_txt, "");
    assert_eq!(p.date_txt, "07-08-2025");
    assert_eq!(p.priority_txt, "2");
    assert!(!p.is_edit_entry);
    let q = EntryPopup::new_entry(None);
    assert_eq!(q.priority_txt, "");
    assert_eq!(q.date_txt.len(), 10);
}

#[test]
fn validation_messages() {
    let mut p = EntryPopup::new_entry_on(1, 2, 2024, None);
    p.validate_all();
    assert_eq!(p.title_err_msg, "Title can't be empty");
    assert!(p.date_err_msg.is_empty());
    assert!(!p.is_input_valid());

    p.update_text(ActiveText::Title, "T".to_string());
    assert!(p.title_err_msg.is_empty());
    p.update_text(ActiveText::Priority, "x1".to_string());
    assert_eq!(p.priority_err_msg, "Priority must be a positive number");
    p.update_text(ActiveText::Priority, String::new());
    assert!(p.priority_err_msg.is_empty());
    p.update_text(ActiveText::Date, "31-02-2024".to_string());
    assert!(!p.date_err_msg.is_empty());
    p.update_text(ActiveText::Date, "29-02-2024".to_string());
    assert!(p.date_err_msg.is_empty());
    p.update_text(ActiveText::Tags, "a, b".to_string());
    assert!(p.tags_err_msg.is_empty());
    assert!(p.is_input_valid());
}

#[test]
fn tab_cycles_the_focus() {
    let app = tui_journal::app::App::new((), 10);
    let mut p = EntryPopup::new_entry_on(1, 2, 2024, None);
    let order = [
        ActiveText::Date,
        ActiveText::Tags,
        ActiveText::Folder,
        ActiveText::Priority,
        ActiveText::Title,
    ];
    for expected in order {
        let r = p.handle_input(&key(KeyCode::Tab), &app);
        assert!(matches!(r, EntryPopupAction::Answer(EntryPopupInputReturn::KeepPopup)));
        assert_eq!(p.active_txt, expected);
    }
    p.handle_input(&key(KeyCode::BackTab), &app);
    assert_eq!(p.active_txt, ActiveText::Priority);
}

#[test]
fn keys_of_the_form() {
    let app = tui_journal::app::App::new((), 10);
    let mut p = EntryPopup::new_entry_on(1, 2, 2024, None);
    assert!(matches!(
        p.handle_input(&key(KeyCode::Esc), &app),
        EntryPopupAction::Answer(EntryPopupInputReturn::Cancel)
    ));
    assert!(matches!(
        p.handle_input(&ctrl('c'), &app),
        EntryPopupAction::Answer(EntryPopupInputReturn::Cancel)
    ));
    assert!(matches!(
        p.handle_input(&key(KeyCode::Char('c')), &app),
        EntryPopupAction::EditText(ActiveText::Title)
    ));
    // confirming an empty title keeps the form open with an error
    assert!(matches!(
        p.handle_input(&key(KeyCode::Enter), &app),
        EntryPopupAction::Answer(EntryPopupInputReturn::KeepPopup)
    ));
    assert_eq!(p.title_err_msg, "Title can't be empty");
    // the tag picker
    match p.handle_input(&ctrl('t'), &app) {
        EntryPopupAction::OpenTagsPopup(text, tags) => {
            assert_eq!(text, "");
            assert!(tags.is_empty());
        },
        _ => panic!("expected the tag picker"),
    }
    assert!(p.tags_popup_open);
    assert!(matches!(p.handle_input(&key(KeyCode::Esc), &app), EntryPopupAction::ForTagsPopup));
    p.handle_tags_popup_input(TagsPopupReturn::Apply("x, y".to_string()));
    assert!(!p.tags_popup_open);
    assert_eq!(p.tags_txt, "x, y");
    assert_eq!(p.active_txt, ActiveText::Tags);
}

#[test]
fn confirm_gives_the_values() {
    let app = tui_journal::app::App::new((), 10);
    let mut p = EntryPopup::new_entry_on(5, 3, 2024, Some(9));
    p.update_text(ActiveText::Title, "Trip".to_string());
    p.update_text(ActiveText::Tags, " travel , fun ".to_string());
    p.update_text(ActiveText::Folder, "  life/2024 ".to_string());
    match p.handle_input(&key(KeyCode::Enter), &app) {
        EntryPopupAction::SaveNew(v) => {
            assert_eq!(v.title, "Trip");
            assert_eq!(v.date, Timestamp { secs: 1_709_596_800, nanos: 0 });
            assert_eq!(v.tags, vec!["travel", "fun"]);
            assert_eq!(v.priority, Some(9));
            assert_eq!(v.folder, "life/2024");
        },
        _ => panic!("expected the values to store"),
    }
}

#[test]
fn folder_picker_from_the_form() {
    let mut app = tui_journal::app::App::new((), 10);
    app.set_loaded_entries(vec![
        Entry::new(1, Timestamp::epoch(), "a".into(), "".into(), vec![], None, "work".into()),
        Entry::new(2, Timestamp::epoch(), "b".into(), "".into(), vec![], None, "home".into()),
    ]);
    let mut p = EntryPopup::new_entry_on(1, 1, 2024, None);
    p.update_text(ActiveText::Folder, " new ".to_string());
    assert!(matches!(
        p.handle_input(&ctrl('f'), &app),
        EntryPopupAction::Answer(EntryPopupInputReturn::KeepPopup)
    ));
    let picker = p.folders_popup.as_ref().unwrap();
    assert_eq!(picker.folders, vec!["new", "home", "work"]);
    assert_eq!(picker.selected, Some(0));
    p.handle_input(&key(KeyCode::Down), &app);
    p.handle_input(&key(KeyCode::Enter), &app);
    assert!(p.folders_popup.is_none());
    assert_eq!(p.folder_txt, "home");
    assert_eq!(p.active_txt, ActiveText::Folder);
}

#[test]
fn confirming_an_edited_entry_asks_to_update_it() {
    let app = tui_journal::app::App::new((), 10);
    let entry = Entry::new(4, Timestamp { secs: 1_709_596_800, nanos: 0 }, "Old".into(), "body".into(), vec!["x".into()], Some(2), "f".into());
    let mut p = EntryPopup::from_entry(&entry);
    p.update_text(ActiveText::Title, "New".to_string());
    match p.handle_input(&key(KeyCode::Enter), &app) {
        EntryPopupAction::SaveEdit(v) => {
            assert_eq!(v.title, "New");
            assert_eq!(v.date, Timestamp { secs: 1_709_596_800, nanos: 0 });
            assert_eq!(v.tags, vec!["x"]);
            assert_eq!(v.priority, Some(2));
            assert_eq!(v.folder, "f");
        },
        _ => panic!("expected the values to update the entry with"),
    }
}

#[test]
fn an_unreadable_date_keeps_the_form_with_an_error() {
    let app = tui_journal::app::App::new((), 10);
    let mut p = EntryPopup::new_entry_on(5, 3, 2024, None);
    p.update_text(ActiveText::Title, "Trip".to_string());
    p.update_text(ActiveText::Date, "31-02-2024".to_string());
    assert!(!p.date_err_msg.is_empty());
    assert!(matches!(
        p.handle_input(&key(KeyCode::Enter), &app),
        EntryPopupAction::Answer(EntryPopupInputReturn::KeepPopup)
    ));
    assert!(!p.date_err_msg.is_empty());
}

#[test]
fn form_and_field_titles() {
    let mut p = EntryPopup::new_entry_on(5, 3, 2024, None);
    assert_eq!(p.popup_title(), "Create journal");
    assert_eq!(p.field_title(ActiveText::Title), "Title");
    assert_eq!(p.field_title(ActiveText::Tags), "Tags");
    assert_eq!(p.field_title(ActiveText::Folder), "Folder");
    assert_eq!(p.field_title(ActiveText::Priority), "Priority (Optional)");
    p.update_text(ActiveText::Priority, "x".to_string());
    assert!(p.field_title(ActiveText::Priority).starts_with("Priority (Optional)"));
    assert!(p.field_title(ActiveText::Priority).len() > "Priority (Optional)".len());
    p.active_txt = ActiveText::Tags;
    assert_eq!(p.field_title(ActiveText::Tags), "Tags - A comma-separated list");
    p.update_text(ActiveText::Date, "nope".to_string());
    assert!(p.field_title(ActiveText::Date).starts_with("Date : "));
    let entry = Entry::new(1, Timestamp::epoch(), "T".into(), String::new(), vec![], None, String::new());
    assert_eq!(EntryPopup::from_entry(&entry).popup_title(), "Edit journal");
}

#[test]
fn field_looks_follow_focus_and_errors() {
    let mut p = EntryPopup::new_entry_on(5, 3, 2024, None);
    p.validate_all();
    assert_eq!(p.field_look(ActiveText::Title), (BoxLook::Invalid, Some(CursorLook::Invalid)));
    assert_eq!(p.field_look(ActiveText::Date), (BoxLook::Reset, Some(CursorLook::Hidden)));
    assert_eq!(p.field_look(ActiveText::Folder), (BoxLook::Plain, None));
    p.update_text(ActiveText::Title, "Trip".to_string());
    assert_eq!(p.field_look(ActiveText::Title), (BoxLook::Active, Some(CursorLook::Active)));
    p.active_txt = ActiveText::Priority;
    assert_eq!(p.field_look(ActiveText::Priority), (BoxLook::Active, None));
    assert_eq!(p.field_look(ActiveText::Title), (BoxLook::Reset, Some(CursorLook::Hidden)));
}

#[test]
fn folder_picker_footer_height() {
    assert_eq!(folders_footer_height(58), 3);
    assert_eq!(folders_footer_height(59), 2);
}
