//! A journal library: entries organised in folders and tagged, a JSON-file store for them,
//! an undo/redo history of the changes on entries, filtering, sorting and folder navigation.
use vstd::prelude::*;

pub mod app;
pub mod app_laws;
pub mod commands;
pub mod entries_list;
pub mod entry;
pub mod entry_fields;
pub mod entry_popup;
pub mod filter;
pub mod filter_laws;
pub mod folder_path;
pub mod history;
pub mod json_store;
pub mod keys;
pub mod nav_laws;
pub mod list_layout;
pub mod popups;
pub mod sorted_text;
pub mod sorter;
pub mod store_laws;
pub mod tag_tree;
pub mod undo_runs;
pub mod text;

verus! {

} // verus!
