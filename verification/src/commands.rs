//! The commands of the entries list and the global commands: what each does to the screen's
//! state and to the application.
use vstd::prelude::*;

use crate::app::{filter_view, refreshed, tags_cycled_spec, App, AppView};
use crate::entries_list::{
    active_of, clamped_row, folder_entry_at, folder_name_at, folder_rows, next_entry_spec,
    next_row, prev_entry_spec, prev_row, EntriesList,
};
use crate::entry::{first_pos, has_id, is_first_with_id, EntryView};
use crate::entry_popup::{entry_form, new_form, validated, EntryPopup};
use crate::popups::RenameFolderPopup;
use crate::text::{join, join_spec, views};

verus! {

/// What a command answers.
#[derive(Debug, Clone, Copy, PartialEq, Eq, Structural)]
pub enum HandleInputReturnType {
    Handled,
    ExitApp,
}

/// The result of a command.
pub type CmdResult = Result<HandleInputReturnType, anyhow::Error>;

/// The control that has the focus.
#[derive(Debug, Clone, Copy, PartialEq, Eq, Structural)]
pub enum ControlType {
    EntriesList,
    EntryContentTxt,
}

/// The tabs of the help screen.
#[derive(Debug, Clone, Copy, PartialEq, Eq, Structural)]
pub enum KeybindingsTabs {
    Global,
    MultiSelect,
    Editor,
}

/// The commands that can wait on a question to the user.
#[derive(Debug, Clone, Copy, PartialEq, Eq, Structural)]
pub enum UICommand {
    Quit,
    SelectedPrevEntry,
    SelectedNextEntry,
    CreateEntry,
    EditCurrentEntry,
    DeleteCurrentEntry,
    ConfirmDeleteFolder,
    CycleTagFilter,
    ToggleViewMode,
    FolderNavEnter,
    FolderNavBack,
    ReloadAll,
    Undo,
    Redo,
}

/// How the entries are shown.
#[derive(Debug, Clone, Copy, PartialEq, Eq, Structural)]
pub enum ViewMode {
    Flat,
    Folder,
}

/// A window shown over the screen.
pub enum Popup {
    Help(KeybindingsTabs),
    /// Whether to save the changes of the entry content before `command` goes on.
    UnsavedChanges(Option<UICommand>),
    /// A yes-or-no question; the answer continues `command`.
    Question(String, Option<UICommand>),
    ViewMode(ViewMode),
    RenameFolder(RenameFolderPopup),
    Entry(EntryPopup),
}

/// The state of the screen.
pub struct UIComponents {
    pub active_control: ControlType,
    pub entries_list: EntriesList,
    /// The windows shown over the screen, the last on top.
    pub popup_stack: Vec<Popup>,
    /// Whether the entry content has changes that are not saved.
    pub has_unsaved_changes: bool,
}

/// The row of the entry `id` in the flat list of `active` entries.
pub open spec fn row_of(active: Seq<EntryView>, id: Option<u32>) -> Option<usize> {
    match id {
        Some(i) => if has_id(active, i) { Some(first_pos(active, i) as usize) } else { None },
        None => None,
    }
}

impl UIComponents {
    /// Whether the entry content has changes that are not saved.
    pub fn has_unsaved(&self) -> (r: bool)
        ensures
            r == self.has_unsaved_changes,
    {
        self.has_unsaved_changes
    }

    /// Asks whether to save the changes before `command` goes on.
    pub fn show_unsaved_msg_box(&mut self, command: Option<UICommand>)
        ensures
            final(self).popup_stack@ == old(self).popup_stack@.push(Popup::UnsavedChanges(command)),
            final(self).active_control == old(self).active_control,
            final(self).entries_list == old(self).entries_list,
            final(self).has_unsaved_changes == old(self).has_unsaved_changes,
    {
        self.popup_stack.push(Popup::UnsavedChanges(command));
    }

    /// Gives the focus to `control`; the entries list knows whether it has it.
    pub fn change_active_control(&mut self, control: ControlType)
        ensures
            final(self).active_control == control,
            final(self).entries_list.is_active == (control == ControlType::EntriesList),
            final(self).entries_list.state == old(self).entries_list.state,
            final(self).entries_list.multi_select_mode == old(self).entries_list.multi_select_mode,
            final(self).entries_list.folder_path@ == old(self).entries_list.folder_path@,
            final(self).entries_list.folder_list_state == old(self).entries_list.folder_list_state,
            final(self).popup_stack@ == old(self).popup_stack@,
            final(self).has_unsaved_changes == old(self).has_unsaved_changes,
    {
        self.active_control = control;
        let is_list = match control {
            ControlType::EntriesList => true,
            ControlType::EntryContentTxt => false,
        };
        self.entries_list.set_active(is_list);
    }

    /// Makes `entry_id` the current entry and selects its row in the flat list (no row when
    /// it is not among the active entries).
    pub fn set_current_entry<D>(&mut self, entry_id: Option<u32>, app: &mut App<D>)
        ensures
            *final(app) == (App { current_entry_id: entry_id, ..*old(app) }),
            final(self).entries_list.state == row_of(active_of(*old(app)), entry_id),
            final(self).entries_list.is_active == old(self).entries_list.is_active,
            final(self).entries_list.multi_select_mode == old(self).entries_list.multi_select_mode,
            final(self).entries_list.folder_path@ == old(self).entries_list.folder_path@,
            final(self).entries_list.folder_list_state == old(self).entries_list.folder_list_state,
            final(self).active_control == old(self).active_control,
            final(self).popup_stack@ == old(self).popup_stack@,
            final(self).has_unsaved_changes == old(self).has_unsaved_changes,
    {
        app.current_entry_id = entry_id;
        let ghost active = active_of(*app);
        let row = match entry_id {
            Some(id) => {
                let entries = app.get_active_entries();
                let mut k: usize = 0;
                let mut found: Option<usize> = None;
                while k < entries.len()
                    invariant_except_break
                        found is None,
                    invariant
                        k <= entries.len(),
                        crate::app::ref_views(entries@) == active,
                        forall|j: int| 0 <= j < k ==> active[j].id != id,
                    ensures
                        found matches Some(i) ==> is_first_with_id(active, id, i as int),
                        found is None ==> !has_id(active, id),
                    decreases entries.len() - k,
                {
                    assert(crate::app::ref_views(entries@)[k as int] == entries@[k as int]@);
                    if entries[k].id == id {
                        found = Some(k);
                        break;
                    }
                    k = k + 1;
                }
                proof {
                    if let Some(i) = found {
                        crate::entry::lemma_first_pos(active, id, i as int);
                    }
                }
                found
            },
            None => None,
        };
        self.entries_list.state = row;
    }
}

/// The parts of the entries list that the commands read and change.
pub open spec fn list_view(l: EntriesList) -> (Option<usize>, bool, bool, Seq<Seq<char>>, Option<usize>) {
    (l.state, l.is_active, l.multi_select_mode, views(l.folder_path@), l.folder_list_state)
}

/// `b` is `a` with the unsaved-changes question for `command` on top.
pub open spec fn asked_unsaved(a: UIComponents, b: UIComponents, command: UICommand) -> bool {
    &&& b.popup_stack@ == a.popup_stack@.push(Popup::UnsavedChanges(Some(command)))
    &&& b.active_control == a.active_control
    &&& list_view(b.entries_list) == list_view(a.entries_list)
    &&& b.has_unsaved_changes == a.has_unsaved_changes
}

/// The tab of the help screen for the focused control: the editor's for the entry content,
/// else the multi-select one in multi-select mode, else the global one.
pub open spec fn help_tab(control: ControlType, multi_select: bool) -> KeybindingsTabs {
    match control {
        ControlType::EntriesList => if multi_select {
            KeybindingsTabs::MultiSelect
        } else {
            KeybindingsTabs::Global
        },
        ControlType::EntryContentTxt => KeybindingsTabs::Editor,
    }
}

/// Whether moving the focus away from the entries list is refused: the list has the focus
/// and there is no current entry, or the folder view's selected row is a folder.
pub open spec fn focus_stays<D>(ui: UIComponents, app: App<D>) -> bool {
    ui.active_control == ControlType::EntriesList && (app.current_entry_id is None || (
    app.state.folder_nav_mode && folder_name_at(
        active_of(app),
        views(ui.entries_list.folder_path@),
        ui.entries_list.folder_list_state,
    ) is Some))
}

/// The other of the two controls.
pub open spec fn other_control(c: ControlType) -> ControlType {
    match c {
        ControlType::EntriesList => ControlType::EntryContentTxt,
        ControlType::EntryContentTxt => ControlType::EntriesList,
    }
}

/// `b` is `a` with the focus on `control`.
pub open spec fn focused(a: UIComponents, b: UIComponents, control: ControlType) -> bool {
    &&& b.active_control == control
    &&& b.entries_list.is_active == (control == ControlType::EntriesList)
    &&& b.entries_list.state == a.entries_list.state
    &&& b.entries_list.multi_select_mode == a.entries_list.multi_select_mode
    &&& views(b.entries_list.folder_path@) == views(a.entries_list.folder_path@)
    &&& b.entries_list.folder_list_state == a.entries_list.folder_list_state
    &&& b.popup_stack@ == a.popup_stack@
    &&& b.has_unsaved_changes == a.has_unsaved_changes
}

/// Ends the program, unless the entry content has unsaved changes: then asks whether to save
/// them first.
pub fn exec_quit(ui_components: &mut UIComponents) -> (r: CmdResult)
    ensures
        old(ui_components).has_unsaved_changes ==> asked_unsaved(
            *old(ui_components),
            *final(ui_components),
            UICommand::Quit,
        ) && r matches Ok(HandleInputReturnType::Handled),
        !old(ui_components).has_unsaved_changes ==> *final(ui_components) == *old(ui_components)
            && r matches Ok(HandleInputReturnType::ExitApp),
{
    if ui_components.has_unsaved() {
        ui_components.show_unsaved_msg_box(Some(UICommand::Quit));
        Ok(HandleInputReturnType::Handled)
    } else {
        Ok(HandleInputReturnType::ExitApp)
    }
}

/// Shows the help screen, opened at the tab of the focused control.
pub fn exec_show_help(ui_components: &mut UIComponents) -> (r: CmdResult)
    ensures
        final(ui_components).popup_stack@ == old(ui_components).popup_stack@.push(
            Popup::Help(
                help_tab(
                    old(ui_components).active_control,
                    old(ui_components).entries_list.multi_select_mode,
                ),
            ),
        ),
        final(ui_components).active_control == old(ui_components).active_control,
        list_view(final(ui_components).entries_list) == list_view(old(ui_components).entries_list),
        final(ui_components).has_unsaved_changes == old(ui_components).has_unsaved_changes,
        r matches Ok(HandleInputReturnType::Handled),
{
    let start_tab = match ui_components.active_control {
        ControlType::EntriesList => if ui_components.entries_list.multi_select_mode {
            KeybindingsTabs::MultiSelect
        } else {
            KeybindingsTabs::Global
        },
        ControlType::EntryContentTxt => KeybindingsTabs::Editor,
    };
    ui_components.popup_stack.push(Popup::Help(start_tab));
    Ok(HandleInputReturnType::Handled)
}

/// Moves the focus to the other control, unless the entries list has it and there is no
/// current entry or a folder is selected.
pub fn exec_cycle_forward<D>(ui_components: &mut UIComponents, app: &App<D>) -> (r: CmdResult)
    ensures
        focus_stays(*old(ui_components), *app) ==> *final(ui_components) == *old(ui_components),
        !focus_stays(*old(ui_components), *app) ==> focused(
            *old(ui_components),
            *final(ui_components),
            other_control(old(ui_components).active_control),
        ),
        r matches Ok(HandleInputReturnType::Handled),
{
    cycle_focus(ui_components, app)
}

/// Moves the focus to the other control, under the same condition as going forward (with
/// two controls, back and forward lead to the same one).
pub fn exec_cycle_backward<D>(ui_components: &mut UIComponents, app: &App<D>) -> (r: CmdResult)
    ensures
        focus_stays(*old(ui_components), *app) ==> *final(ui_components) == *old(ui_components),
        !focus_stays(*old(ui_components), *app) ==> focused(
            *old(ui_components),
            *final(ui_components),
            other_control(old(ui_components).active_control),
        ),
        r matches Ok(HandleInputReturnType::Handled),
{
    cycle_focus(ui_components, app)
}

/// Moves the focus to the other control unless it has to stay.
fn cycle_focus<D>(ui_components: &mut UIComponents, app: &App<D>) -> (r: CmdResult)
    ensures
        focus_stays(*old(ui_components), *app) ==> *final(ui_components) == *old(ui_components),
        !focus_stays(*old(ui_components), *app) ==> focused(
            *old(ui_components),
            *final(ui_components),
            other_control(old(ui_components).active_control),
        ),
        r matches Ok(HandleInputReturnType::Handled),
{
    let on_list = match ui_components.active_control {
        ControlType::EntriesList => true,
        ControlType::EntryContentTxt => false,
    };
    let is_on_folder = app.state.folder_nav_mode
        && ui_components.entries_list.selected_folder_name(app).is_some();
    if on_list && (app.current_entry_id.is_none() || is_on_folder) {
        return Ok(HandleInputReturnType::Handled);
    }
    let next_control = if on_list {
        ControlType::EntryContentTxt
    } else {
        ControlType::EntriesList
    };
    ui_components.change_active_control(next_control);
    Ok(HandleInputReturnType::Handled)
}

/// `ui1` and `app1` are `ui0` and `app0` with `id` the current entry, its row selected in
/// the flat list, and `folder_sel` the folder view's selection.
pub open spec fn current_set<D>(
    ui0: UIComponents,
    ui1: UIComponents,
    app0: App<D>,
    app1: App<D>,
    id: Option<u32>,
    folder_sel: Option<usize>,
) -> bool {
    &&& app1 == (App { current_entry_id: id, ..app0 })
    &&& ui1.entries_list.state == row_of(active_of(app0), id)
    &&& ui1.entries_list.folder_list_state == folder_sel
    &&& ui1.entries_list.is_active == ui0.entries_list.is_active
    &&& ui1.entries_list.multi_select_mode == ui0.entries_list.multi_select_mode
    &&& views(ui1.entries_list.folder_path@) == views(ui0.entries_list.folder_path@)
    &&& ui1.active_control == ui0.active_control
    &&& ui1.popup_stack@ == ui0.popup_stack@
    &&& ui1.has_unsaved_changes == ui0.has_unsaved_changes
}

/// `ui1` and `app1` are `ui0` and `app0` after the entry `id`, if any, became the current one.
pub open spec fn selected_if_some<D>(
    ui0: UIComponents,
    ui1: UIComponents,
    app0: App<D>,
    app1: App<D>,
    id: Option<u32>,
) -> bool {
    match id {
        Some(_) => current_set(ui0, ui1, app0, app1, id, ui0.entries_list.folder_list_state),
        None => ui1 == ui0 && app1 == app0,
    }
}

/// The outcome of moving the selection one row up: in the folder view, the entry on the new
/// row (if any) becomes the current one; in the flat list, the entry above does.
pub open spec fn prev_selected<D>(ui0: UIComponents, ui1: UIComponents, app0: App<D>, app1: App<D>) -> bool {
    if app0.state.folder_nav_mode {
        let sel = prev_row(ui0.entries_list.folder_list_state);
        current_set(
            ui0,
            ui1,
            app0,
            app1,
            folder_entry_at(active_of(app0), views(ui0.entries_list.folder_path@), sel),
            sel,
        )
    } else {
        selected_if_some(
            ui0,
            ui1,
            app0,
            app1,
            prev_entry_spec(ui0.entries_list.state, active_of(app0), 1),
        )
    }
}

/// The outcome of moving the selection one row down: in the folder view, the entry on the
/// new row (if any) becomes the current one; in the flat list, the entry below does.
pub open spec fn next_selected<D>(ui0: UIComponents, ui1: UIComponents, app0: App<D>, app1: App<D>) -> bool {
    if app0.state.folder_nav_mode {
        let rows = folder_rows(active_of(app0), views(ui0.entries_list.folder_path@));
        let sel = if rows == 0 {
            ui0.entries_list.folder_list_state
        } else {
            next_row(ui0.entries_list.folder_list_state, rows)
        };
        current_set(
            ui0,
            ui1,
            app0,
            app1,
            folder_entry_at(active_of(app0), views(ui0.entries_list.folder_path@), sel),
            sel,
        )
    } else {
        selected_if_some(
            ui0,
            ui1,
            app0,
            app1,
            next_entry_spec(ui0.entries_list.state, active_of(app0), 1),
        )
    }
}

/// Selects the entry `step` rows above the selected one in the flat list.
fn select_prev_entry<D>(step: usize, ui_components: &mut UIComponents, app: &mut App<D>)
    ensures
        selected_if_some(
            *old(ui_components),
            *final(ui_components),
            *old(app),
            *final(app),
            prev_entry_spec(old(ui_components).entries_list.state, active_of(*old(app)), step as int),
        ),
{
    let prev_id = ui_components.entries_list.prev_entry_id(step, app);
    if prev_id.is_some() {
        ui_components.set_current_entry(prev_id, app);
    }
}

/// Selects the entry `step` rows below the selected one in the flat list.
fn select_next_entry<D>(step: usize, ui_components: &mut UIComponents, app: &mut App<D>)
    ensures
        selected_if_some(
            *old(ui_components),
            *final(ui_components),
            *old(app),
            *final(app),
            next_entry_spec(old(ui_components).entries_list.state, active_of(*old(app)), step as int),
        ),
{
    let next_id = ui_components.entries_list.next_entry_id(step, app);
    if next_id.is_some() {
        ui_components.set_current_entry(next_id, app);
    }
}

/// Moves the selection one row up: in the folder view, the entry on the new row (if any)
/// becomes the current one; in the flat list, the entry above does.
pub fn perform_select_prev_entry<D>(ui_components: &mut UIComponents, app: &mut App<D>)
    ensures
        prev_selected(*old(ui_components), *final(ui_components), *old(app), *final(app)),
{
    if app.state.folder_nav_mode {
        ui_components.entries_list.folder_nav_select_prev();
        let entry_id = ui_components.entries_list.selected_folder_entry_id(app);
        ui_components.set_current_entry(entry_id, app);
    } else {
        select_prev_entry(1, ui_components, app);
    }
}

/// Moves the selection one row down: in the folder view, the entry on the new row (if any)
/// becomes the current one; in the flat list, the entry below does.
pub fn perform_select_next_entry<D>(ui_components: &mut UIComponents, app: &mut App<D>)
    ensures
        next_selected(*old(ui_components), *final(ui_components), *old(app), *final(app)),
{
    if app.state.folder_nav_mode {
        ui_components.entries_list.folder_nav_select_next(app);
        let entry_id = ui_components.entries_list.selected_folder_entry_id(app);
        ui_components.set_current_entry(entry_id, app);
    } else {
        select_next_entry(1, ui_components, app);
    }
}

/// Moves the selection one row up, unless the entry content has unsaved changes: then asks
/// whether to save them first.
pub fn exec_select_prev_entry<D>(ui_components: &mut UIComponents, app: &mut App<D>) -> (r: CmdResult)
    ensures
        old(ui_components).has_unsaved_changes ==> asked_unsaved(
            *old(ui_components),
            *final(ui_components),
            UICommand::SelectedPrevEntry,
        ) && *final(app) == *old(app),
        !old(ui_components).has_unsaved_changes ==> prev_selected(
            *old(ui_components),
            *final(ui_components),
            *old(app),
            *final(app),
        ),
        r matches Ok(HandleInputReturnType::Handled),
{
    if ui_components.has_unsaved() {
        ui_components.show_unsaved_msg_box(Some(UICommand::SelectedPrevEntry));
    } else {
        perform_select_prev_entry(ui_components, app);
    }
    Ok(HandleInputReturnType::Handled)
}

/// Moves the selection one row down, unless the entry content has unsaved changes: then asks
/// whether to save them first.
pub fn exec_select_next_entry<D>(ui_components: &mut UIComponents, app: &mut App<D>) -> (r: CmdResult)
    ensures
        old(ui_components).has_unsaved_changes ==> asked_unsaved(
            *old(ui_components),
            *final(ui_components),
            UICommand::SelectedNextEntry,
        ) && *final(app) == *old(app),
        !old(ui_components).has_unsaved_changes ==> next_selected(
            *old(ui_components),
            *final(ui_components),
            *old(app),
            *final(app),
        ),
        r matches Ok(HandleInputReturnType::Handled),
{
    if ui_components.has_unsaved() {
        ui_components.show_unsaved_msg_box(Some(UICommand::SelectedNextEntry));
    } else {
        perform_select_next_entry(ui_components, app);
    }
    Ok(HandleInputReturnType::Handled)
}

/// Makes the first active entry the current one, if there is any.
pub fn go_to_top_entry<D>(ui_components: &mut UIComponents, app: &mut App<D>)
    ensures
        selected_if_some(
            *old(ui_components),
            *final(ui_components),
            *old(app),
            *final(app),
            if active_of(*old(app)).len() > 0 {
                Some(active_of(*old(app))[0].id)
            } else {
                None
            },
        ),
{
    let active = app.get_active_entries();
    let top_id = if active.len() > 0 {
        assert(crate::app::ref_views(active@)[0] == active@[0]@);
        Some(active[0].id)
    } else {
        None
    };
    if top_id.is_some() {
        ui_components.set_current_entry(top_id, app);
    }
}

/// Makes the last active entry the current one, if there is any.
pub fn go_to_bottom_entry<D>(ui_components: &mut UIComponents, app: &mut App<D>)
    ensures
        selected_if_some(
            *old(ui_components),
            *final(ui_components),
            *old(app),
            *final(app),
            if active_of(*old(app)).len() > 0 {
                Some(active_of(*old(app)).last().id)
            } else {
                None
            },
        ),
{
    let active = app.get_active_entries();
    let bottom_id = if active.len() > 0 {
        let last = active.len() - 1;
        assert(crate::app::ref_views(active@)[last as int] == active@[last as int]@);
        Some(active[last].id)
    } else {
        None
    };
    if bottom_id.is_some() {
        ui_components.set_current_entry(bottom_id, app);
    }
}

/// Moves the selection of the flat list `step` rows (a page) up.
pub fn page_up_entries<D>(ui_components: &mut UIComponents, app: &mut App<D>, step: usize)
    ensures
        selected_if_some(
            *old(ui_components),
            *final(ui_components),
            *old(app),
            *final(app),
            prev_entry_spec(old(ui_components).entries_list.state, active_of(*old(app)), step as int),
        ),
{
    select_prev_entry(step, ui_components, app);
}

/// Moves the selection of the flat list `step` rows (a page) down.
pub fn page_down_entries<D>(ui_components: &mut UIComponents, app: &mut App<D>, step: usize)
    ensures
        selected_if_some(
            *old(ui_components),
            *final(ui_components),
            *old(app),
            *final(app),
            next_entry_spec(old(ui_components).entries_list.state, active_of(*old(app)), step as int),
        ),
{
    select_next_entry(step, ui_components, app);
}

/// `ui1` and `app1` are `ui0` and `app0` after the folder view moved to the folder `path`:
/// its first row selected (none in an empty view) and the entry on it, if any, current.
pub open spec fn moved_to_folder<D>(
    ui0: UIComponents,
    ui1: UIComponents,
    app0: App<D>,
    app1: App<D>,
    path: Seq<Seq<char>>,
) -> bool {
    let sel = clamped_row(Some(0usize), folder_rows(active_of(app0), path));
    let id = folder_entry_at(active_of(app0), path, sel);
    &&& app1 == (App { current_entry_id: id, ..app0 })
    &&& views(ui1.entries_list.folder_path@) == path
    &&& ui1.entries_list.folder_list_state == sel
    &&& ui1.entries_list.state == row_of(active_of(app0), id)
    &&& ui1.entries_list.is_active == ui0.entries_list.is_active
    &&& ui1.entries_list.multi_select_mode == ui0.entries_list.multi_select_mode
    &&& ui1.active_control == ui0.active_control
    &&& ui1.popup_stack@ == ui0.popup_stack@
    &&& ui1.has_unsaved_changes == ui0.has_unsaved_changes
}

/// `b` is `a` with one more window on top.
pub open spec fn pushed_one(a: Seq<Popup>, b: Seq<Popup>) -> bool {
    b.len() == a.len() + 1 && b.drop_last() == a
}

/// Shows the choice of the view mode, with the current one selected.
pub fn perform_toggle_view_mode<D>(ui_components: &mut UIComponents, app: &mut App<D>)
    ensures
        final(ui_components).popup_stack@ == old(ui_components).popup_stack@.push(
            Popup::ViewMode(if old(app).state.folder_nav_mode { ViewMode::Folder } else { ViewMode::Flat }),
        ),
        final(ui_components).active_control == old(ui_components).active_control,
        list_view(final(ui_components).entries_list) == list_view(old(ui_components).entries_list),
        final(ui_components).has_unsaved_changes == old(ui_components).has_unsaved_changes,
        *final(app) == *old(app),
{
    let current = if app.state.folder_nav_mode {
        ViewMode::Folder
    } else {
        ViewMode::Flat
    };
    ui_components.popup_stack.push(Popup::ViewMode(current));
}

/// Shows the choice of the view mode, unless the entry content has unsaved changes: then
/// asks whether to save them first.
pub fn exec_toggle_view_mode<D>(ui_components: &mut UIComponents, app: &mut App<D>) -> (r: CmdResult)
    ensures
        old(ui_components).has_unsaved_changes ==> asked_unsaved(
            *old(ui_components),
            *final(ui_components),
            UICommand::ToggleViewMode,
        ),
        !old(ui_components).has_unsaved_changes ==> final(ui_components).popup_stack@ == old(
            ui_components,
        ).popup_stack@.push(
            Popup::ViewMode(if old(app).state.folder_nav_mode { ViewMode::Folder } else { ViewMode::Flat }),
        ),
        *final(app) == *old(app),
        r matches Ok(HandleInputReturnType::Handled),
{
    if ui_components.has_unsaved() {
        ui_components.show_unsaved_msg_box(Some(UICommand::ToggleViewMode));
    } else {
        perform_toggle_view_mode(ui_components, app);
    }
    Ok(HandleInputReturnType::Handled)
}

/// The outcome of entering the selected row of the folder view: a folder is opened, an entry
/// becomes the current one; nothing happens in the flat view.
pub open spec fn folder_entered<D>(ui0: UIComponents, ui1: UIComponents, app0: App<D>, app1: App<D>) -> bool {
    let path = views(ui0.entries_list.folder_path@);
    let sel = ui0.entries_list.folder_list_state;
    if !app0.state.folder_nav_mode {
        ui1 == ui0 && app1 == app0
    } else {
        match folder_name_at(active_of(app0), path, sel) {
            Some(name) => moved_to_folder(ui0, ui1, app0, app1, path.push(name)),
            None => selected_if_some(ui0, ui1, app0, app1, folder_entry_at(active_of(app0), path, sel)),
        }
    }
}

/// The outcome of going back to the parent folder in the folder view; nothing happens in the
/// flat view or at the root.
pub open spec fn folder_left<D>(ui0: UIComponents, ui1: UIComponents, app0: App<D>, app1: App<D>) -> bool {
    let path = views(ui0.entries_list.folder_path@);
    if !app0.state.folder_nav_mode || path.len() == 0 {
        ui1 == ui0 && app1 == app0
    } else {
        moved_to_folder(ui0, ui1, app0, app1, path.drop_last())
    }
}

/// Enters the selected row of the folder view: opens a folder, or makes an entry the current
/// one.
pub fn perform_folder_nav_enter<D>(ui_components: &mut UIComponents, app: &mut App<D>)
    ensures
        folder_entered(*old(ui_components), *final(ui_components), *old(app), *final(app)),
{
    if !app.state.folder_nav_mode {
        return;
    }
    if let Some(folder_name) = ui_components.entries_list.selected_folder_name(app) {
        let ghost before = views(ui_components.entries_list.folder_path@);
        ui_components.entries_list.folder_path.push(folder_name);
        assert(views(ui_components.entries_list.folder_path@) =~= before.push(folder_name@));
        ui_components.entries_list.folder_list_state = Some(0);
        ui_components.entries_list.sync_folder_nav_state(app);
        let current = app.current_entry_id;
        ui_components.set_current_entry(current, app);
        return;
    }
    if let Some(entry_id) = ui_components.entries_list.selected_folder_entry_id(app) {
        ui_components.set_current_entry(Some(entry_id), app);
    }
}

/// Enters the selected row of the folder view, unless the entry content has unsaved changes:
/// then asks whether to save them first.
pub fn exec_folder_nav_enter<D>(ui_components: &mut UIComponents, app: &mut App<D>) -> (r: CmdResult)
    ensures
        old(ui_components).has_unsaved_changes ==> asked_unsaved(
            *old(ui_components),
            *final(ui_components),
            UICommand::FolderNavEnter,
        ) && *final(app) == *old(app),
        !old(ui_components).has_unsaved_changes ==> folder_entered(
            *old(ui_components),
            *final(ui_components),
            *old(app),
            *final(app),
        ),
        r matches Ok(HandleInputReturnType::Handled),
{
    if ui_components.has_unsaved() {
        ui_components.show_unsaved_msg_box(Some(UICommand::FolderNavEnter));
    } else {
        perform_folder_nav_enter(ui_components, app);
    }
    Ok(HandleInputReturnType::Handled)
}

/// Goes back to the parent folder in the folder view.
pub fn perform_folder_nav_back<D>(ui_components: &mut UIComponents, app: &mut App<D>)
    ensures
        folder_left(*old(ui_components), *final(ui_components), *old(app), *final(app)),
{
    if !app.state.folder_nav_mode {
        return;
    }
    if ui_components.entries_list.folder_path.len() > 0 {
        let ghost before = views(ui_components.entries_list.folder_path@);
        ui_components.entries_list.folder_path.pop();
        assert(views(ui_components.entries_list.folder_path@) =~= before.drop_last());
        ui_components.entries_list.folder_list_state = Some(0);
        ui_components.entries_list.sync_folder_nav_state(app);
        let current = app.current_entry_id;
        ui_components.set_current_entry(current, app);
    }
}

/// Goes back to the parent folder, unless the entry content has unsaved changes: then asks
/// whether to save them first.
pub fn exec_folder_nav_back<D>(ui_components: &mut UIComponents, app: &mut App<D>) -> (r: CmdResult)
    ensures
        old(ui_components).has_unsaved_changes ==> asked_unsaved(
            *old(ui_components),
            *final(ui_components),
            UICommand::FolderNavBack,
        ) && *final(app) == *old(app),
        !old(ui_components).has_unsaved_changes ==> folder_left(
            *old(ui_components),
            *final(ui_components),
            *old(app),
            *final(app),
        ),
        r matches Ok(HandleInputReturnType::Handled),
{
    if ui_components.has_unsaved() {
        ui_components.show_unsaved_msg_box(Some(UICommand::FolderNavBack));
    } else {
        perform_folder_nav_back(ui_components, app);
    }
    Ok(HandleInputReturnType::Handled)
}

/// The full path, joined with `/`, of the folder on the selected row of the folder view.
pub open spec fn selected_folder_path<D>(ui: UIComponents, app: App<D>) -> Option<Seq<char>> {
    match folder_name_at(
        active_of(app),
        views(ui.entries_list.folder_path@),
        ui.entries_list.folder_list_state,
    ) {
        Some(name) => Some(join_spec(views(ui.entries_list.folder_path@).push(name), seq!['/'])),
        None => None,
    }
}

/// The full path of the folder on the selected row, joined with `/`.
fn selected_folder_full_path<D>(ui_components: &UIComponents, app: &App<D>) -> (r: Option<String>)
    ensures
        match r {
            Some(p) => selected_folder_path(*ui_components, *app) == Some(p@),
            None => selected_folder_path(*ui_components, *app) is None,
        },
{
    match ui_components.entries_list.selected_folder_name(app) {
        Some(folder_name) => {
            let mut full_path = crate::entry::copy_strings(&ui_components.entries_list.folder_path);
            let ghost before = views(full_path@);
            full_path.push(folder_name);
            assert(views(full_path@) =~= before.push(folder_name@));
            let sep = "/";
            proof {
                reveal_strlit("/");
                assert(sep@ =~= seq!['/']);
            }
            Some(join(&full_path, sep))
        },
        None => None,
    }
}

/// Opens the prompt for renaming the folder on the selected row, if a folder is selected.
pub fn perform_rename_folder<D>(ui_components: &mut UIComponents, app: &App<D>)
    ensures
        match selected_folder_path(*old(ui_components), *app) {
            Some(p) => pushed_one(old(ui_components).popup_stack@, final(ui_components).popup_stack@)
                && (final(ui_components).popup_stack@.last() matches Popup::RenameFolder(rp)
                && rp.old_path@ == p),
            None => final(ui_components).popup_stack@ == old(ui_components).popup_stack@,
        },
        final(ui_components).active_control == old(ui_components).active_control,
        list_view(final(ui_components).entries_list) == list_view(old(ui_components).entries_list),
        final(ui_components).has_unsaved_changes == old(ui_components).has_unsaved_changes,
{
    if let Some(path_str) = selected_folder_full_path(ui_components, app) {
        let ghost before = ui_components.popup_stack@;
        ui_components.popup_stack.push(Popup::RenameFolder(RenameFolderPopup::new(path_str)));
        assert(ui_components.popup_stack@.drop_last() =~= before);
    }
}

/// In the folder view, opens the prompt for renaming the selected folder.
pub fn exec_rename_folder<D>(ui_components: &mut UIComponents, app: &App<D>) -> (r: CmdResult)
    ensures
        !app.state.folder_nav_mode ==> *final(ui_components) == *old(ui_components),
        app.state.folder_nav_mode ==> match selected_folder_path(*old(ui_components), *app) {
            Some(p) => pushed_one(old(ui_components).popup_stack@, final(ui_components).popup_stack@)
                && (final(ui_components).popup_stack@.last() matches Popup::RenameFolder(rp)
                && rp.old_path@ == p),
            None => final(ui_components).popup_stack@ == old(ui_components).popup_stack@,
        },
        list_view(final(ui_components).entries_list) == list_view(old(ui_components).entries_list),
        r matches Ok(HandleInputReturnType::Handled),
{
    if !app.state.folder_nav_mode {
        return Ok(HandleInputReturnType::Handled);
    }
    perform_rename_folder(ui_components, app);
    Ok(HandleInputReturnType::Handled)
}

/// Opens the form for a new entry dated today, with the default priority if any.
pub fn create_entry(ui_components: &mut UIComponents, default_priority: Option<u32>)
    ensures
        new_form_opened(*old(ui_components), *final(ui_components), default_priority),
{
    let ghost before = ui_components.popup_stack@;
    let popup = EntryPopup::new_entry(default_priority);
    ui_components.popup_stack.push(Popup::Entry(popup));
    assert(ui_components.popup_stack@.drop_last() =~= before);
}

/// Opens the form for a new entry, unless the entry content has unsaved changes: then asks
/// whether to save them first.
pub fn exec_create_entry(ui_components: &mut UIComponents, default_priority: Option<u32>) -> (r: CmdResult)
    ensures
        old(ui_components).has_unsaved_changes ==> asked_unsaved(
            *old(ui_components),
            *final(ui_components),
            UICommand::CreateEntry,
        ),
        !old(ui_components).has_unsaved_changes ==> new_form_opened(
            *old(ui_components),
            *final(ui_components),
            default_priority,
        ),
        r matches Ok(HandleInputReturnType::Handled),
{
    if ui_components.has_unsaved() {
        ui_components.show_unsaved_msg_box(Some(UICommand::CreateEntry));
    } else {
        create_entry(ui_components, default_priority);
    }
    Ok(HandleInputReturnType::Handled)
}

/// `ui1` is `ui0` with the form for editing the current entry of `app` on top, if that entry
/// is among the active ones, and `ui0` otherwise.
pub open spec fn edit_form_opened<D>(ui0: UIComponents, ui1: UIComponents, app: App<D>) -> bool {
    &&& match app.current_entry_id {
        Some(id) if has_id(active_of(app), id) => pushed_one(ui0.popup_stack@, ui1.popup_stack@)
            && (ui1.popup_stack@.last() matches Popup::Entry(p) && p@ == validated(
            entry_form(active_of(app)[first_pos(active_of(app), id)]),
        )),
        _ => ui1.popup_stack@ == ui0.popup_stack@,
    }
    &&& ui1.active_control == ui0.active_control
    &&& list_view(ui1.entries_list) == list_view(ui0.entries_list)
    &&& ui1.has_unsaved_changes == ui0.has_unsaved_changes
}

/// `ui1` is `ui0` with a fresh form for a new entry, dated some day and with the default
/// priority, on top.
pub open spec fn new_form_opened(ui0: UIComponents, ui1: UIComponents, default_priority: Option<u32>) -> bool {
    &&& pushed_one(ui0.popup_stack@, ui1.popup_stack@)
    &&& (ui1.popup_stack@.last() matches Popup::Entry(p) && exists|day: u32, month: u32, year: i32|
        #[trigger] new_form(day, month, year, default_priority) == p@)
    &&& ui1.active_control == ui0.active_control
    &&& list_view(ui1.entries_list) == list_view(ui0.entries_list)
    &&& ui1.has_unsaved_changes == ui0.has_unsaved_changes
}

/// Opens the form for editing the current entry, if it is among the active entries.
pub fn edit_current_entry<D>(ui_components: &mut UIComponents, app: &App<D>)
    ensures
        edit_form_opened(*old(ui_components), *final(ui_components), *app),
{
    if let Some(entry) = app.get_current_entry() {
        let ghost before = ui_components.popup_stack@;
        let popup = EntryPopup::from_entry(entry);
        ui_components.popup_stack.push(Popup::Entry(popup));
        assert(ui_components.popup_stack@.drop_last() =~= before);
    }
}

/// Opens the form for editing the current entry, unless there is none; with unsaved changes
/// of the entry content, asks whether to save them first.
pub fn exec_edit_current_entry<D>(ui_components: &mut UIComponents, app: &mut App<D>) -> (r: CmdResult)
    ensures
        old(app).current_entry_id is None ==> *final(ui_components) == *old(ui_components),
        old(app).current_entry_id is Some && old(ui_components).has_unsaved_changes ==> asked_unsaved(
            *old(ui_components),
            *final(ui_components),
            UICommand::EditCurrentEntry,
        ),
        old(app).current_entry_id is Some && !old(ui_components).has_unsaved_changes
            ==> edit_form_opened(*old(ui_components), *final(ui_components), *old(app)),
        *final(app) == *old(app),
        r matches Ok(HandleInputReturnType::Handled),
{
    if app.current_entry_id.is_none() {
        return Ok(HandleInputReturnType::Handled);
    }
    if ui_components.has_unsaved() {
        ui_components.show_unsaved_msg_box(Some(UICommand::EditCurrentEntry));
    } else {
        edit_current_entry(ui_components, app);
    }
    Ok(HandleInputReturnType::Handled)
}

/// The question before removing the folder `path` with its contents.
pub open spec fn delete_folder_question(path: Seq<char>) -> Seq<char> {
    "Do you want to remove the folder '"@ + path + "' and all its contents?"@
}

/// Asks whether to remove the selected folder with its contents (in the folder view with a
/// folder selected), else whether to remove the current entry, if there is one.
pub fn exec_delete_current_entry<D>(ui_components: &mut UIComponents, app: &App<D>) -> (r: CmdResult)
    ensures
        match (if app.state.folder_nav_mode { selected_folder_path(*old(ui_components), *app) } else { None }) {
            Some(p) => pushed_one(old(ui_components).popup_stack@, final(ui_components).popup_stack@)
                && (final(ui_components).popup_stack@.last() matches Popup::Question(q, c) && q@
                == delete_folder_question(p) && c == Some(UICommand::ConfirmDeleteFolder)),
            None => if app.current_entry_id is Some {
                pushed_one(old(ui_components).popup_stack@, final(ui_components).popup_stack@)
                    && (final(ui_components).popup_stack@.last() matches Popup::Question(q, c) && q@
                    == "Do you want to remove the selected journal?"@ && c == Some(
                    UICommand::DeleteCurrentEntry,
                ))
            } else {
                final(ui_components).popup_stack@ == old(ui_components).popup_stack@
            },
        },
        final(ui_components).active_control == old(ui_components).active_control,
        list_view(final(ui_components).entries_list) == list_view(old(ui_components).entries_list),
        final(ui_components).has_unsaved_changes == old(ui_components).has_unsaved_changes,
        r matches Ok(HandleInputReturnType::Handled),
{
    let ghost before = ui_components.popup_stack@;
    if app.state.folder_nav_mode {
        if let Some(path_str) = selected_folder_full_path(ui_components, app) {
            let mut msg = "Do you want to remove the folder '".to_string();
            msg.append(path_str.as_str());
            msg.append("' and all its contents?");
            ui_components.popup_stack.push(
                Popup::Question(msg, Some(UICommand::ConfirmDeleteFolder)),
            );
            assert(ui_components.popup_stack@.drop_last() =~= before);
            return Ok(HandleInputReturnType::Handled);
        }
    }
    if app.current_entry_id.is_some() {
        let msg = "Do you want to remove the selected journal?".to_string();
        ui_components.popup_stack.push(Popup::Question(msg, Some(UICommand::DeleteCurrentEntry)));
        assert(ui_components.popup_stack@.drop_last() =~= before);
    }
    Ok(HandleInputReturnType::Handled)
}

/// Puts the next tag into the filter, unless the entry content has unsaved changes: then
/// asks whether to save them first.
pub fn exec_cycle_tag_filter<D>(ui_components: &mut UIComponents, app: &mut App<D>) -> (r: CmdResult)
    requires
        old(app).wf(),
    ensures
        final(app).wf(),
        old(ui_components).has_unsaved_changes ==> asked_unsaved(
            *old(ui_components),
            *final(ui_components),
            UICommand::CycleTagFilter,
        ) && *final(app) == *old(app),
        !old(ui_components).has_unsaved_changes ==> *final(ui_components) == *old(ui_components)
            && final(app)@ == tags_cycled_spec(old(app)@) && final(app).keeps_rest(old(app)),
        r matches Ok(HandleInputReturnType::Handled),
{
    if ui_components.has_unsaved() {
        ui_components.show_unsaved_msg_box(Some(UICommand::CycleTagFilter));
    } else {
        app.cycle_tags_in_filter();
    }
    Ok(HandleInputReturnType::Handled)
}

/// Removes the filter.
pub fn exec_reset_filter<D>(app: &mut App<D>) -> (r: CmdResult)
    requires
        old(app).wf(),
    ensures
        final(app).wf(),
        final(app)@ == refreshed(AppView { filter: filter_view(None), ..old(app)@ }),
        final(app).keeps_rest(old(app)),
        r matches Ok(HandleInputReturnType::Handled),
{
    app.apply_filter(None);
    Ok(HandleInputReturnType::Handled)
}

/// Switches the full-screen mode on or off.
pub fn exec_toggle_full_screen_mode<D>(app: &mut App<D>) -> (r: CmdResult)
    ensures
        *final(app) == (App {
            state: crate::app::AppState { full_screen: !old(app).state.full_screen, ..old(app).state },
            ..*old(app)
        }),
        r matches Ok(HandleInputReturnType::Handled),
{
    app.state.full_screen = !app.state.full_screen;
    Ok(HandleInputReturnType::Handled)
}

} // verus!
