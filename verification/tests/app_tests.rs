use tui_journal::app::App;
use tui_journal::entry::{Entry, EntryDraft, Timestamp};
use tui_journal::filter::{CriteriaRelation, Filter, FilterCriterion, TagFilterOption};
use tui_journal::history::{HistoryAction, HistoryStack};
use tui_journal::json_store::{
    add_entry_to, assign_priority, delete_folder_in, export_object, next_entry_id,
    remove_entry_from, rename_folder_in, update_entry_in,
};
use tui_journal::sorter::{SortCriteria, SortOrder};
use tui_journal::entry::ModifyEntryError;

fn entry(id: u32, secs: i64, title: &str, tags: &[&str], folder: &str) -> Entry {
    Entry::new(
        id,
        Timestamp { secs, nanos: 0 },
        title.to_string(),
        format!("content {id}"),
        tags.iter().map(|t| t.to_string()).collect(),
        None,
        folder.to_string(),
    )
}

fn sample_store() -> Vec<Entry> {
    vec![
        entry(0, 100, "Zero", &["work"], "projects/a"),
        entry(1, 300, "One", &["home", "work"], "projects"),
        entry(2, 200, "Two", &[], "misc"),
    ]
}

fn loaded_app(store: &Vec<Entry>) -> App<()> {
    let mut app = App::new((), 20);
    app.set_loaded_entries(store.clone());
    app
}

fn active_titles(app: &App<()>) -> Vec<String> {
    app.get_active_entries().iter().map(|e| e.title.clone()).collect()
}

/// Carries out a history action on the store and the app, as the shell does; the entry to
/// show afterwards.
fn carry_out(
    app: &mut App<()>,
    store: &mut Vec<Entry>,
    action: HistoryAction,
    target: HistoryStack,
) -> Option<u32> {
    let mut added_id = 0;
    match &action {
        HistoryAction::Remove(id) => {
            assert!(remove_entry_from(store, *id));
            app.remove_entry_local(*id, target);
        },
        HistoryAction::Add(draft) => {
            let entry = add_entry_to(store, draft.clone()).unwrap();
            added_id = app.register_added_entry(entry, target);
        },
        HistoryAction::SetAttributes(attr) => {
            let changed = app.begin_attributes_update(
                attr.id,
                attr.title.clone(),
                attr.date,
                attr.tags.clone(),
                attr.priority,
                attr.folder.clone(),
                target,
            );
            assert!(update_entry_in(store, changed).is_ok());
            app.finish_attributes_update();
        },
        HistoryAction::SetContent(id, content) => {
            let changed = app.begin_content_update(*id, content.clone(), target);
            assert!(update_entry_in(store, changed).is_ok());
            app.finish_content_update();
        },
    }
    action.shown_after(added_id)
}

#[test]
fn loaded_entries_are_sorted_by_date_descending() {
    let store = sample_store();
    let app = loaded_app(&store);
    assert_eq!(active_titles(&app), vec!["One", "Two", "Zero"]);
}

#[test]
fn undo_and_redo_an_added_entry() {
    let mut store = sample_store();
    let mut app = loaded_app(&store);
    let initial_count = app.get_active_entries().len();

    let draft = EntryDraft::new(Timestamp::epoch(), "Added".into(), vec![], None, String::new());
    let added = add_entry_to(&mut store, draft).unwrap();
    let id = app.register_added_entry(added, HistoryStack::Undo);
    assert_eq!(id, 3);
    assert!(app.get_entry(id).is_some());

    let action = app.undo_step().unwrap();
    assert!(matches!(action, HistoryAction::Remove(undo_id) if undo_id == id));
    assert_eq!(carry_out(&mut app, &mut store, action, HistoryStack::Redo), None);
    assert_eq!(app.get_active_entries().len(), initial_count);
    assert!(app.get_entry(id).is_none());

    let action = app.redo_step().unwrap();
    assert!(matches!(&action, HistoryAction::Add(d) if d.title == "Added"));
    let shown = carry_out(&mut app, &mut store, action, HistoryStack::Undo);
    assert_eq!(shown, Some(3));
    assert_eq!(app.get_active_entries().len(), initial_count + 1);
    assert!(app.get_entry(3).is_some_and(|e| e.title == "Added"));
}

#[test]
fn undo_and_redo_a_removed_entry() {
    let mut store = sample_store();
    let mut app = loaded_app(&store);
    let title = app.get_entry(1).unwrap().title.clone();

    assert!(remove_entry_from(&mut store, 1));
    app.remove_entry_local(1, HistoryStack::Undo);
    assert!(app.get_active_entries().iter().all(|e| e.title != title));
    assert_eq!(app.get_active_entries().len(), 2);

    let action = app.undo_step().unwrap();
    assert!(matches!(&action, HistoryAction::Add(d) if d.content == "content 1"));
    let shown = carry_out(&mut app, &mut store, action, HistoryStack::Redo);
    assert_eq!(shown, Some(3));
    assert!(app.get_entry(3).is_some_and(|e| e.title == title));
    assert_eq!(app.get_active_entries().len(), 3);

    let action = app.redo_step().unwrap();
    assert!(matches!(action, HistoryAction::Remove(3)));
    assert_eq!(carry_out(&mut app, &mut store, action, HistoryStack::Undo), None);
    assert!(app.get_active_entries().iter().all(|e| e.title != title));
}

#[test]
fn undo_and_redo_changed_attributes() {
    let mut store = sample_store();
    let mut app = loaded_app(&store);
    app.current_entry_id = Some(1);
    let current = app.get_current_entry().unwrap().clone();

    let changed = app.begin_attributes_update(
        1,
        "Changed_Title".into(),
        current.date,
        current.tags.clone(),
        current.priority,
        current.folder.clone(),
        HistoryStack::Undo,
    );
    assert!(update_entry_in(&mut store, changed).is_ok());
    app.finish_attributes_update();
    assert_eq!(app.get_entry(1).unwrap().title, "Changed_Title");

    let action = app.undo_step().unwrap();
    assert!(matches!(&action, HistoryAction::SetAttributes(a) if a.title == "One"));
    assert_eq!(carry_out(&mut app, &mut store, action, HistoryStack::Redo), Some(1));
    assert_eq!(app.get_entry(1).unwrap().title, "One");

    match app.redo_step() {
        Some(HistoryAction::SetAttributes(attr)) => {
            assert_eq!(attr.title, "Changed_Title");
            assert_eq!(attr.id, 1);
        },
        _ => panic!("expected an attribute change"),
    }
}

#[test]
fn undo_and_redo_changed_content() {
    let mut store = sample_store();
    let mut app = loaded_app(&store);
    let changed = app.begin_content_update(2, "Changed_content".into(), HistoryStack::Undo);
    assert!(update_entry_in(&mut store, changed).is_ok());
    app.finish_content_update();
    assert_eq!(app.get_entry(2).unwrap().content, "Changed_content");

    let action = app.undo_step().unwrap();
    assert!(matches!(&action, HistoryAction::SetContent(2, c) if c == "content 2"));
    assert_eq!(carry_out(&mut app, &mut store, action, HistoryStack::Redo), Some(2));
    assert_eq!(app.get_entry(2).unwrap().content, "content 2");
    match app.redo_step() {
        Some(HistoryAction::SetContent(id, content)) => {
            assert_eq!(id, 2);
            assert_eq!(content, "Changed_content");
        },
        _ => panic!("expected a content change"),
    }
}

#[test]
fn many_removals_undone_and_redone() {
    let mut store = sample_store();
    let mut app = loaded_app(&store);
    let initial_count = app.entries.len();
    let mut count = initial_count;
    while count > 0 {
        let id = app.entries[0].id;
        remove_entry_from(&mut store, id);
        app.remove_entry_local(id, HistoryStack::Undo);
        count -= 1;
        assert_eq!(app.entries.len(), count);
    }
    for _ in 0..initial_count {
        let action = app.undo_step().unwrap();
        assert!(matches!(action, HistoryAction::Add(_)));
        assert!(carry_out(&mut app, &mut store, action, HistoryStack::Redo).is_some());
        count += 1;
        assert_eq!(app.entries.len(), count);
    }
    for _ in 0..initial_count {
        let action = app.redo_step().unwrap();
        assert!(matches!(action, HistoryAction::Remove(_)));
        assert_eq!(carry_out(&mut app, &mut store, action, HistoryStack::Undo), None);
        count -= 1;
        assert_eq!(app.entries.len(), count);
    }
    assert!(app.redo_step().is_none());
}

#[test]
fn history_keeps_at_most_its_limit() {
    let mut store = sample_store();
    let mut app = App::new((), 2);
    app.set_loaded_entries(store.clone());
    for id in 0..3u32 {
        remove_entry_from(&mut store, id);
        app.remove_entry_local(id, HistoryStack::Undo);
    }
    assert!(app.pop_undo().is_some());
    assert!(app.pop_undo().is_some());
    assert!(app.pop_undo().is_none());
}

#[test]
fn tags_and_folders_of_all_entries() {
    let app = loaded_app(&sample_store());
    assert_eq!(app.get_all_tags(), vec!["home", "work"]);
    assert_eq!(app.get_all_folders(), vec!["misc", "projects", "projects/a"]);
}

#[test]
fn filter_hides_entries() {
    let mut app = loaded_app(&sample_store());
    app.apply_filter(Some(Filter {
        relation: CriteriaRelation::And,
        criteria: vec![FilterCriterion::Tag(TagFilterOption::Tag("work".into()))],
    }));
    assert_eq!(active_titles(&app), vec!["One", "Zero"]);
    app.apply_filter(Some(Filter {
        relation: CriteriaRelation::Or,
        criteria: vec![
            FilterCriterion::Title("Tw".into()),
            FilterCriterion::Tag(TagFilterOption::NoTags),
        ],
    }));
    assert_eq!(active_titles(&app), vec!["Two"]);
    app.apply_filter(None);
    assert_eq!(active_titles(&app).len(), 3);
}

#[test]
fn cycling_the_tag_filter_goes_through_the_tags() {
    let mut app = loaded_app(&sample_store());
    app.cycle_tags_in_filter();
    assert_eq!(active_titles(&app), vec!["One"]);
    app.cycle_tags_in_filter();
    assert_eq!(active_titles(&app), vec!["One", "Zero"]);
    app.cycle_tags_in_filter();
    assert_eq!(active_titles(&app), vec!["Two"]);
}

#[test]
fn sorting_by_title_ascending() {
    let mut app = loaded_app(&sample_store());
    app.apply_sort(vec![SortCriteria::Title], SortOrder::Ascending);
    assert_eq!(active_titles(&app), vec!["One", "Two", "Zero"]);
    app.apply_sort(vec![SortCriteria::Date], SortOrder::Ascending);
    assert_eq!(active_titles(&app), vec!["Zero", "Two", "One"]);
}

#[test]
fn renaming_and_deleting_folders_in_the_app() {
    let mut app = loaded_app(&sample_store());
    app.apply_folder_rename("projects", "work");
    assert_eq!(app.get_all_folders(), vec!["misc", "work", "work/a"]);
    app.apply_folder_delete("work");
    assert_eq!(active_titles(&app), vec!["Two"]);
    assert_eq!(app.get_all_tags(), Vec::<String>::new());
}

#[test]
fn entries_in_a_folder_and_the_tag_tree() {
    let app = loaded_app(&sample_store());
    let in_projects = app.get_entries_in_folder(&vec!["projects".to_string()]);
    assert_eq!(in_projects.len(), 1);
    assert_eq!(in_projects[0].id, 1);
    let tree = app.get_tag_tree();
    assert_eq!(tree.subfolder_names(), vec!["misc", "projects"]);
    assert_eq!(tree.subfolder("projects").unwrap().entry_ids, vec![1]);
    assert_eq!(tree.get_node(&["projects".into(), "a".into()]).unwrap().entry_ids, vec![0]);
}

#[test]
fn store_gives_the_next_id_and_refuses_empty_titles() {
    let mut store = sample_store();
    assert_eq!(next_entry_id(&store), 3);
    let refused = add_entry_to(&mut store, EntryDraft::new(Timestamp::epoch(), String::new(), vec![], None, String::new()));
    match refused {
        Err(ModifyEntryError::ValidationError(m)) => assert_eq!(m, "Entry title can't be empty"),
        _ => panic!("expected a validation error"),
    }
    assert_eq!(store.len(), 3);
    let unknown = entry(99, 0, "X", &[], "");
    assert!(matches!(update_entry_in(&mut store, unknown), Err(ModifyEntryError::ValidationError(_))));
    assert!(!remove_entry_from(&mut store, 99));
}

#[test]
fn store_folder_operations() {
    let mut store = sample_store();
    assert!(rename_folder_in(&mut store, "projects", "p"));
    let folders: Vec<String> = store.iter().map(|e| e.folder.clone()).collect();
    assert_eq!(folders, vec!["p/a", "p", "misc"]);
    assert!(!rename_folder_in(&mut store, "proj", "q"));
    assert!(delete_folder_in(&mut store, "p"));
    assert_eq!(store.len(), 1);
    assert!(!delete_folder_in(&mut store, "p"));
}

#[test]
fn renaming_back_restores_the_folders() {
    let mut store = sample_store();
    rename_folder_in(&mut store, "projects", "archive/projects");
    rename_folder_in(&mut store, "archive/projects", "projects");
    let folders: Vec<String> = store.iter().map(|e| e.folder.clone()).collect();
    assert_eq!(folders, vec!["projects/a", "projects", "misc"]);
}

#[test]
fn priority_is_assigned_only_where_missing() {
    let mut store = sample_store();
    store[1].priority = Some(7);
    assert!(assign_priority(&mut store, 1));
    let prios: Vec<Option<u32>> = store.iter().map(|e| e.priority).collect();
    assert_eq!(prios, vec![Some(1), Some(7), Some(1)]);
    assert!(!assign_priority(&mut store, 2));
}

#[test]
fn export_takes_the_chosen_entries() {
    let store = sample_store();
    let dto = export_object(store, &[2, 0]);
    let titles: Vec<String> = dto.entries.iter().map(|d| d.title.clone()).collect();
    assert_eq!(titles, vec!["Zero", "Two"]);
}
