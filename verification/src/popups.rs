//! The folder picker and the folder-rename prompt.
use vstd::prelude::*;

use crate::keys::{Input, KeyCode};
use crate::text::{same_text, trim, trim_spec, views};

verus! {

/// The keys that the folder picker's footer lists.
pub open spec fn folders_footer_spec() -> Seq<char> {
    "Enter or <Ctrl-m>: Confirm | Esc, q or <Ctrl-c>: Cancel"@
}

/// The text of the folder picker's footer.
pub fn folders_footer() -> (r: &'static str)
    ensures
        r@ == folders_footer_spec(),
{
    "Enter or <Ctrl-m>: Confirm | Esc, q or <Ctrl-c>: Cancel"
}

/// The rows that the folder picker's footer takes in an area `width` columns wide: three
/// where the footer text with a margin of four does not fit on one line, else two.
pub fn folders_footer_height(width: u16) -> (r: u16)
    ensures
        r == (if width < folders_footer_spec().len() + 4 {
            3u16
        } else {
            2u16
        }),
{
    let text = folders_footer();
    proof {
        reveal_strlit("Enter or <Ctrl-m>: Confirm | Esc, q or <Ctrl-c>: Cancel");
    }
    if (width as usize) < text.unicode_len() + 4 {
        3
    } else {
        2
    }
}

/// What the folder picker asks of its owner after a key press.
pub enum FoldersPopupReturn {
    /// Stay open.
    Keep,
    /// Close without a choice.
    Cancel,
    /// Close with this folder chosen.
    Apply(String),
}

/// A list of folders to pick from, with the selected position.
pub struct FoldersPopup {
    /// The selected position, if any.
    pub selected: Option<usize>,
    pub folders: Vec<String>,
}

impl View for FoldersPopup {
    type V = (Option<usize>, Seq<Seq<char>>);

    open spec fn view(&self) -> (Option<usize>, Seq<Seq<char>>) {
        (self.selected, views(self.folders@))
    }
}

/// The list shown for the current folder `current`: `current` in front when it is not empty
/// and not among `folders`.
pub open spec fn popup_folders(current: Seq<char>, folders: Seq<Seq<char>>) -> Seq<Seq<char>> {
    if current.len() > 0 && !folders.contains(current) {
        seq![current] + folders
    } else {
        folders
    }
}

/// `k` is the first position of `x` in `s`.
pub open spec fn is_first_pos(s: Seq<Seq<char>>, x: Seq<char>, k: int) -> bool {
    0 <= k < s.len() && s[k] == x && forall|j: int| 0 <= j < k ==> s[j] != x
}

/// The selection after moving down: one further, back to the top after the last.
pub open spec fn next_selection(sel: Option<usize>, len: nat) -> Option<usize> {
    if len == 0 {
        sel
    } else {
        match sel {
            Some(i) => if i >= len - 1 { Some(0) } else { Some((i + 1) as usize) },
            None => Some(0),
        }
    }
}

/// The selection after moving up: one back, to the bottom from the top.
pub open spec fn prev_selection(sel: Option<usize>, len: nat) -> Option<usize> {
    if len == 0 {
        sel
    } else {
        match sel {
            Some(i) => if i == 0 { Some((len - 1) as usize) } else { Some((i - 1) as usize) },
            None => Some((len - 1) as usize),
        }
    }
}

impl FoldersPopup {
    /// A picker over `folders` for an entry in `current_folder`: a non-empty current folder
    /// that is not listed is put in front; the first occurrence of the current folder is
    /// selected, else the first folder.
    pub fn new(current_folder: &str, folders: Vec<String>) -> (p: Self)
        ensures
            views(p.folders@) == popup_folders(current_folder@, views(folders@)),
            views(p.folders@).contains(current_folder@) ==> (p.selected matches Some(k)
                && is_first_pos(views(p.folders@), current_folder@, k as int)),
            !views(p.folders@).contains(current_folder@) && p.folders@.len() > 0 ==> p.selected
                == Some(0usize),
            p.folders@.len() == 0 ==> p.selected is None,
    {
        let mut folders = folders;
        let ghost given = views(folders@);
        let mut found = false;
        let mut k: usize = 0;
        while k < folders.len()
            invariant
                k <= folders.len(),
                given == views(folders@),
                found ==> k < folders.len() && given[k as int] == current_folder@,
                forall|j: int| 0 <= j < k ==> given[j] != current_folder@,
            ensures
                k <= folders.len(),
                found ==> k < folders.len() && given[k as int] == current_folder@,
                forall|j: int| 0 <= j < k ==> given[j] != current_folder@,
                !found ==> k == folders.len(),
            decreases folders.len() - k + (if found { 0int } else { 1int }),
        {
            if found {
                break;
            }
            if same_text(folders[k].as_str(), current_folder) {
                found = true;
            } else {
                k = k + 1;
            }
        }
        if found {
            assert(given.contains(current_folder@));
            assert(is_first_pos(given, current_folder@, k as int));
            return FoldersPopup { selected: Some(k), folders };
        }
        assert(!given.contains(current_folder@)) by {
            if given.contains(current_folder@) {
                let j = choose|j: int| 0 <= j < given.len() && given[j] == current_folder@;
                assert(given[j] != current_folder@);
            }
        }
        if current_folder.unicode_len() > 0 {
            folders.insert(0, current_folder.to_string());
            assert(views(folders@) =~= seq![current_folder@] + given);
            assert(is_first_pos(views(folders@), current_folder@, 0));
            FoldersPopup { selected: Some(0), folders }
        } else if folders.len() > 0 {
            FoldersPopup { selected: Some(0), folders }
        } else {
            FoldersPopup { selected: None, folders }
        }
    }

    /// Moves the selection down, wrapping to the top; nothing changes on an empty list.
    pub fn cycle_next(&mut self) -> (r: FoldersPopupReturn)
        ensures
            final(self).folders == old(self).folders,
            final(self).selected == next_selection(old(self).selected, old(self).folders@.len()),
            r is Keep,
    {
        if self.folders.len() > 0 {
            let last_index = self.folders.len() - 1;
            let new_index = match self.selected {
                Some(idx) => if idx >= last_index { 0 } else { idx + 1 },
                None => 0,
            };
            self.selected = Some(new_index);
        }
        FoldersPopupReturn::Keep
    }

    /// Moves the selection up, wrapping to the bottom; nothing changes on an empty list.
    pub fn cycle_prev(&mut self) -> (r: FoldersPopupReturn)
        ensures
            final(self).folders == old(self).folders,
            final(self).selected == prev_selection(old(self).selected, old(self).folders@.len()),
            r is Keep,
    {
        if self.folders.len() > 0 {
            let last_index = self.folders.len() - 1;
            let new_index = match self.selected {
                Some(idx) => if idx == 0 { last_index } else { idx - 1 },
                None => last_index,
            };
            self.selected = Some(new_index);
        }
        FoldersPopupReturn::Keep
    }

    /// The selected folder, or `Cancel` when nothing valid is selected.
    pub fn confirm(&self) -> (r: FoldersPopupReturn)
        ensures
            match self.selected {
                Some(i) if i < self.folders@.len() => r matches FoldersPopupReturn::Apply(f) && f@
                    == self.folders@[i as int]@,
                _ => r is Cancel,
            },
    {
        if let Some(idx) = self.selected {
            if idx < self.folders.len() {
                return FoldersPopupReturn::Apply(self.folders[idx].clone());
            }
        }
        FoldersPopupReturn::Cancel
    }

    /// Reacts to a key: `j` or Down and `k` or Up move the selection, Esc, `q` or Control-`c`
    /// cancel, Enter or Control-`m` confirm; any other key is ignored.
    pub fn handle_input(&mut self, input: &Input) -> (r: FoldersPopupReturn)
        ensures
            final(self).folders == old(self).folders,
            match input.key_code {
                KeyCode::Char('j') | KeyCode::Down => final(self).selected == next_selection(
                    old(self).selected,
                    old(self).folders@.len(),
                ) && r is Keep,
                KeyCode::Char('k') | KeyCode::Up => final(self).selected == prev_selection(
                    old(self).selected,
                    old(self).folders@.len(),
                ) && r is Keep,
                KeyCode::Esc | KeyCode::Char('q') => final(self).selected == old(self).selected
                    && r is Cancel,
                KeyCode::Char('c') if input.has_control => final(self).selected == old(
                    self,
                ).selected && r is Cancel,
                KeyCode::Enter => final(self).selected == old(self).selected && confirmed(
                    *old(self),
                    r,
                ),
                KeyCode::Char('m') if input.has_control => final(self).selected == old(
                    self,
                ).selected && confirmed(*old(self), r),
                _ => final(self).selected == old(self).selected && r is Keep,
            },
    {
        match input.key_code {
            KeyCode::Char('j') | KeyCode::Down => self.cycle_next(),
            KeyCode::Char('k') | KeyCode::Up => self.cycle_prev(),
            KeyCode::Esc | KeyCode::Char('q') => FoldersPopupReturn::Cancel,
            KeyCode::Char('c') => if input.has_control {
                FoldersPopupReturn::Cancel
            } else {
                FoldersPopupReturn::Keep
            },
            KeyCode::Enter => self.confirm(),
            KeyCode::Char('m') => if input.has_control {
                self.confirm()
            } else {
                FoldersPopupReturn::Keep
            },
            _ => FoldersPopupReturn::Keep,
        }
    }
}

/// `r` is what confirming in `p` answers.
pub open spec fn confirmed(p: FoldersPopup, r: FoldersPopupReturn) -> bool {
    match p.selected {
        Some(i) if i < p.folders@.len() => r matches FoldersPopupReturn::Apply(f) && f@
            == p.folders@[i as int]@,
        _ => r is Cancel,
    }
}

/// What the rename prompt asks of its owner after a key press.
pub enum RenameFolderPopupReturn {
    /// Stay open; the key goes to the text field.
    Keep,
    /// Close without renaming.
    Cancel,
    /// Close and rename the folder to this path.
    Apply(String),
}

/// A prompt for the new path of the folder at `old_path`.
pub struct RenameFolderPopup {
    pub old_path: String,
}

/// The answer to a confirmation with the text `text` in the field: the trimmed text, unless it
/// is empty or the old path.
pub open spec fn rename_confirmed(old_path: Seq<char>, text: Seq<char>, r: RenameFolderPopupReturn) -> bool {
    let new_path = trim_spec(text);
    if new_path.len() == 0 || new_path == old_path {
        r is Cancel
    } else {
        r matches RenameFolderPopupReturn::Apply(p) && p@ == new_path
    }
}

impl RenameFolderPopup {
    /// A prompt for renaming the folder at `old_path`; its text field starts with `old_path`.
    pub fn new(old_path: String) -> (p: Self)
        ensures
            p.old_path@ == old_path@,
    {
        RenameFolderPopup { old_path }
    }

    /// Reacts to a key, `text` being what the text field holds: Esc or Control-`c` cancel,
    /// Enter or Control-`m` confirm, any other key is for the text field.
    pub fn handle_input(&self, input: &Input, text: &str) -> (r: RenameFolderPopupReturn)
        ensures
            match input.key_code {
                KeyCode::Esc => r is Cancel,
                KeyCode::Char('c') if input.has_control => r is Cancel,
                KeyCode::Enter => rename_confirmed(self.old_path@, text@, r),
                KeyCode::Char('m') if input.has_control => rename_confirmed(self.old_path@, text@, r),
                _ => r is Keep,
            },
    {
        match input.key_code {
            KeyCode::Esc => RenameFolderPopupReturn::Cancel,
            KeyCode::Char('c') => if input.has_control {
                RenameFolderPopupReturn::Cancel
            } else {
                RenameFolderPopupReturn::Keep
            },
            KeyCode::Enter => self.confirm(text),
            KeyCode::Char('m') => if input.has_control {
                self.confirm(text)
            } else {
                RenameFolderPopupReturn::Keep
            },
            _ => RenameFolderPopupReturn::Keep,
        }
    }

    /// The answer to a confirmation with `text` in the field.
    fn confirm(&self, text: &str) -> (r: RenameFolderPopupReturn)
        ensures
            rename_confirmed(self.old_path@, text@, r),
    {
        let new_path = trim(text);
        if new_path.unicode_len() == 0 || same_text(new_path.as_str(), self.old_path.as_str()) {
            RenameFolderPopupReturn::Cancel
        } else {
            RenameFolderPopupReturn::Apply(new_path)
        }
    }
}

} // verus!
