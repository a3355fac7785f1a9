# tui_journal

A journal kept as entries with a title, a date, content, tags, an optional priority and a
folder path. The verified library in `src/` holds what the journal decides:

- `entry`, `json_store`, `folder_path`: the entries, and what the store does to its list of
  entries (new ids, updates, removal, export, priorities, renaming and deleting folders);
- `app`, `history`, `filter`, `sorter`: the in-memory state of the journal, with filtering,
  sorting and an undo/redo history bounded in size;
- `tag_tree`: the folder tree of the entries;
- `entry_fields`, `entry_popup`, `popups`, `entries_list`, `commands`, `keys`: the entry form,
  the folder picker and rename prompt, the list with its folder view, and the commands on
  them;
- `list_layout`: how an entry is laid out in the list (its title wrapped by textwrap, its
  tags on lines measured as ratatui measures spans) and when the list needs a scrollbar;
- `app_laws`, `store_laws`, `undo_runs`: laws that relate several operations (undo restores,
  a run of deletions, undos and redos counts entries one by one, renaming back restores,
  deleted folders are empty, new ids are fresh).

Undo and redo are split between the two parts. `App::undo_step` and `App::redo_step` in the
library take the latest change off its stack and decide the action that reverts it (remove an
added entry, add a removed one back, set former attributes or content back) and which entry
to show afterwards. The shell carries that action out with the store, then hands the store's
answer back to the library (`register_added_entry`, `remove_entry_local`,
`begin_attributes_update`, ...). The undo laws in `app_laws` are stated over the library's
views of the state: they say which action each step asks for and that carrying it out through
these functions gives the entries back; that the shell's store agrees with those views is not
proved.

`app/` is the program's shell: the JSON and SQLite stores on disk, the asynchronous
operations that pair a store with the in-memory state (carrying out the actions that the
library decides), the entry form's text widgets, and the conversion of terminal key events. `tests/` exercises the library on concrete values.
