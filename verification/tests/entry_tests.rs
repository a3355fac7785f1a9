use chrono::TimeZone;
use chrono::Utc;

use tui_journal::entry::{
    EntriesDTO, Entry, EntryDraft, EntryIntermediate, Timestamp, TRANSFER_DATA_VERSION,
};

fn at(y: i32, mo: u32, d: u32, h: u32, mi: u32, s: u32) -> Timestamp {
    let dt = Utc.with_ymd_and_hms(y, mo, d, h, mi, s).unwrap();
    Timestamp { secs: dt.timestamp(), nanos: dt.timestamp_subsec_nanos() }
}

fn sample_draft() -> EntryDraft {
    EntryDraft {
        date: at(2024, 1, 2, 3, 4, 5),
        title: String::from("Draft"),
        content: String::from("Body"),
        tags: vec![String::from("one"), String::from("two")],
        priority: Some(3),
        folder: String::from("work"),
    }
}

#[test]
fn draft_to_entry() {
    let draft = sample_draft();

    let entry = Entry::from_draft(7, draft.clone());

    assert_eq!(entry.id, 7);
    assert_eq!(entry.date, draft.date);
    assert_eq!(entry.title, draft.title);
    assert_eq!(entry.content, draft.content);
    assert_eq!(entry.tags, draft.tags);
    assert_eq!(entry.priority, draft.priority);
    assert_eq!(entry.folder, draft.folder);
}

#[test]
fn with_content_replaces_only_body() {
    let draft = sample_draft();

    let updated = draft.clone().with_content(String::from("Updated"));

    assert_eq!(updated.content, "Updated");
    assert_eq!(updated.date, draft.date);
    assert_eq!(updated.title, draft.title);
    assert_eq!(updated.tags, draft.tags);
    assert_eq!(updated.priority, draft.priority);
    assert_eq!(updated.folder, draft.folder);
}

#[test]
fn from_entry_drops_id_only() {
    let entry = Entry::new(
        11,
        at(2023, 11, 12, 13, 14, 15),
        String::from("Title"),
        String::from("Content"),
        vec![String::from("tag")],
        Some(2),
        String::from("folder"),
    );

    let draft = EntryDraft::from_entry(entry.clone());

    assert_eq!(draft.date, entry.date);
    assert_eq!(draft.title, entry.title);
    assert_eq!(draft.content, entry.content);
    assert_eq!(draft.tags, entry.tags);
    assert_eq!(draft.priority, entry.priority);
    assert_eq!(draft.folder, entry.folder);
}

#[test]
fn dto_sets_version() {
    let dto = EntriesDTO::new(vec![sample_draft()]);

    assert_eq!(dto.version, TRANSFER_DATA_VERSION);
    assert_eq!(dto.entries, vec![sample_draft()]);
}

fn sample_intermediate(tags: Option<&str>) -> EntryIntermediate {
    EntryIntermediate {
        id: 4,
        date: at(2024, 3, 4, 5, 6, 7),
        title: String::from("Title"),
        content: String::from("Content"),
        priority: Some(2),
        tags: tags.map(String::from),
        folder: String::from("folder"),
    }
}

#[test]
fn none_tags_become_empty() {
    let entry = Entry::from_intermediate(sample_intermediate(None));

    assert!(entry.tags.is_empty());
    assert_eq!(entry.folder, "folder");
}

#[test]
fn comma_tags_preserve_order() {
    let entry = Entry::from_intermediate(sample_intermediate(Some("rust,tests,sqlite")));

    assert_eq!(entry.tags, vec!["rust", "tests", "sqlite"]);
}

#[test]
fn empty_tags_stay_empty() {
    let entry = Entry::from_intermediate(sample_intermediate(Some("")));

    assert!(entry.tags.is_empty());
}

#[test]
fn trailing_comma_of_row_tags_is_dropped() {
    let entry = Entry::from_intermediate(sample_intermediate(Some("a,,b,")));

    assert_eq!(entry.tags, vec!["a", "", "b"]);
}

#[test]
fn timestamp_order_goes_by_seconds_then_nanoseconds() {
    let a = Timestamp { secs: 5, nanos: 10 };
    let b = Timestamp { secs: 5, nanos: 11 };
    let c = Timestamp { secs: 6, nanos: 0 };
    assert!(a.is_before(&b));
    assert!(b.is_before(&c));
    assert!(!b.is_before(&a));
    assert!(!a.is_before(&a));
    assert_eq!(Timestamp::epoch(), Timestamp { secs: 0, nanos: 0 });
}

#[test]
fn with_folder_replaces_only_the_folder() {
    let draft = sample_draft();
    let moved = draft.clone().with_folder(String::from("home"));
    assert_eq!(moved.folder, "home");
    assert_eq!(moved.title, draft.title);
    assert_eq!(moved.content, draft.content);
    assert_eq!(moved.tags, draft.tags);
}

#[test]
fn tags_to_drop_and_to_add_when_tags_change() {
    let old: Vec<String> = vec!["a".into(), "b".into(), "c".into()];
    let new: Vec<String> = vec!["c".into(), "d".into()];
    assert_eq!(tui_journal::filter::tags_not_in(&old, &new), vec!["a", "b"]);
    assert_eq!(tui_journal::filter::tags_not_in(&new, &old), vec!["d"]);
}
