//! The form for creating or editing an entry: its fields, their validation, the focus, and
//! what each key press does.
use vstd::prelude::*;

use chrono::Datelike;

use crate::app::{all_folders_set, all_tags_set, App};
use crate::entry::{entry_views, Entry, EntryView, Timestamp};
use crate::entry_fields::{
    date_text, date_text_spec, decimal_spec, parse_u32, parse_u32_spec, tags_to_text,
    text_to_tags, text_to_tags_spec, u32_text,
};
use crate::keys::{Input, KeyCode};
use crate::popups::{
    next_selection, popup_folders, prev_selection, FoldersPopup, FoldersPopupReturn,
};
use crate::sorted_text::sorted_list;
use crate::text::{join_spec, trim, trim_spec, views};

verus! {

/// What `chrono::NaiveDate::parse_from_str` makes of `text` read with the format `fmt`: the
/// start of that day in UTC, or the message of the parse error.
pub uninterp spec fn naive_date_parse(text: Seq<char>, fmt: Seq<char>) -> Result<Timestamp, Seq<char>>;

/// Reads `text` as a date with `chrono::NaiveDate::parse_from_str` and the format `fmt`,
/// giving the start of that day in UTC (`and_time(NaiveTime::MIN).and_utc()`), or the
/// text of the parse error, which is never empty (each kind of `ParseError` displays a
/// message). The contract names the result; what the parser accepts is not restated here.
#[verifier::external_body]
fn parse_date_text(text: &str, fmt: &str) -> (r: Result<Timestamp, String>)
    ensures
        match r {
            Ok(t) => naive_date_parse(text@, fmt@) == Ok::<Timestamp, Seq<char>>(t),
            Err(m) => naive_date_parse(text@, fmt@) == Err::<Timestamp, Seq<char>>(m@) && m@.len()
                > 0,
        },
{
    match chrono::NaiveDate::parse_from_str(text, fmt) {
        Ok(d) => {
            let dt = d.and_time(chrono::NaiveTime::MIN).and_utc();
            Ok(Timestamp { secs: dt.timestamp(), nanos: dt.timestamp_subsec_nanos() })
        },
        Err(e) => Err(e.to_string()),
    }
}

/// The day, month and year in UTC of the point `secs` seconds and `nanos` nanoseconds after
/// the Unix epoch, as `chrono::DateTime::from_timestamp` and `chrono::Datelike` give them;
/// `None` where `from_timestamp` rejects the values.
pub uninterp spec fn utc_calendar_date(secs: i64, nanos: u32) -> Option<(u32, u32, i32)>;

/// The UTC calendar date of `date` as day, month and year, through
/// `chrono::DateTime::from_timestamp` and `chrono::Datelike`; the contract names the result.
#[verifier::external_body]
pub(crate) fn utc_date_parts(date: Timestamp) -> (r: Option<(u32, u32, i32)>)
    ensures
        r == utc_calendar_date(date.secs, date.nanos),
{
    match chrono::DateTime::from_timestamp(date.secs, date.nanos) {
        Some(d) => Some((d.day(), d.month(), d.year())),
        None => None,
    }
}

/// Today's date in the local time zone (`chrono::Local::now`) as day, month and year. It
/// depends on the clock, so nothing is said of it but the ranges that `chrono::Datelike`
/// documents for the day and the month.
#[verifier::external_body]
fn local_today() -> (r: (u32, u32, i32))
    ensures
        1 <= r.0 <= 31,
        1 <= r.1 <= 12,
{
    let now = chrono::Local::now();
    (now.day(), now.month(), now.year())
}

/// The field of the form that has the focus.
#[derive(Debug, Clone, Copy, PartialEq, Eq, Structural)]
pub enum ActiveText {
    Title,
    Date,
    Tags,
    Folder,
    Priority,
}

/// The field after `a` in the order title, date, tags, folder, priority, and round again.
pub open spec fn next_text(a: ActiveText) -> ActiveText {
    match a {
        ActiveText::Title => ActiveText::Date,
        ActiveText::Date => ActiveText::Tags,
        ActiveText::Tags => ActiveText::Folder,
        ActiveText::Folder => ActiveText::Priority,
        ActiveText::Priority => ActiveText::Title,
    }
}

/// The field before `a` in that order.
pub open spec fn prev_text(a: ActiveText) -> ActiveText {
    match a {
        ActiveText::Title => ActiveText::Priority,
        ActiveText::Date => ActiveText::Title,
        ActiveText::Tags => ActiveText::Date,
        ActiveText::Folder => ActiveText::Tags,
        ActiveText::Priority => ActiveText::Folder,
    }
}

/// Moving the focus forward and then back, or back and then forward, returns it to where it
/// was.
pub proof fn law_focus_round_trip(a: ActiveText)
    ensures
        prev_text(next_text(a)) == a,
        next_text(prev_text(a)) == a,
{
}

/// What the form answers its owner once a key press is dealt with.
#[derive(Debug, PartialEq, Eq, Structural)]
pub enum EntryPopupInputReturn {
    KeepPopup,
    Cancel,
    AddEntry(u32),
    UpdateCurrentEntry,
}

/// What the tag picker asks of the form after a key press.
pub enum TagsPopupReturn {
    Keep,
    Cancel,
    /// The tags field's new text.
    Apply(String),
}

/// The values of a confirmed form.
pub struct EntryValues {
    pub title: String,
    pub date: Timestamp,
    pub tags: Vec<String>,
    pub priority: Option<u32>,
    pub folder: String,
}

/// What the owner of the form has to do after a key press.
pub enum EntryPopupAction {
    /// Nothing more: answer this.
    Answer(EntryPopupInputReturn),
    /// The tag picker is open: the key is for it, and its answer goes to
    /// `handle_tags_popup_input`; then the form stays.
    ForTagsPopup,
    /// Open the tag picker over the tags text (first) with these tags to pick from (second);
    /// the form stays.
    OpenTagsPopup(String, Vec<String>),
    /// The key edits the focused field; its new text goes to `update_text`; the form stays.
    EditText(ActiveText),
    /// The form creates an entry: add one with these values and answer `AddEntry` with its
    /// id.
    SaveNew(EntryValues),
    /// The form edits the current entry: give it these values and answer
    /// `UpdateCurrentEntry`.
    SaveEdit(EntryValues),
}

/// The form for an entry.
pub struct EntryPopup {
    pub title_txt: String,
    pub date_txt: String,
    pub tags_txt: String,
    pub folder_txt: String,
    pub priority_txt: String,
    /// Whether the form edits the current entry rather than creating one.
    pub is_edit_entry: bool,
    pub active_txt: ActiveText,
    pub title_err_msg: String,
    pub date_err_msg: String,
    pub tags_err_msg: String,
    pub folder_err_msg: String,
    pub priority_err_msg: String,
    /// Whether the tag picker is open over the form.
    pub tags_popup_open: bool,
    pub folders_popup: Option<FoldersPopup>,
}

/// The mathematical value of the form.
pub struct EntryPopupView {
    pub title: Seq<char>,
    pub date: Seq<char>,
    pub tags: Seq<char>,
    pub folder: Seq<char>,
    pub priority: Seq<char>,
    pub is_edit_entry: bool,
    pub active: ActiveText,
    pub title_err: Seq<char>,
    pub date_err: Seq<char>,
    pub tags_err: Seq<char>,
    pub folder_err: Seq<char>,
    pub priority_err: Seq<char>,
    pub tags_popup_open: bool,
    pub folders_popup: Option<(Option<usize>, Seq<Seq<char>>)>,
}

impl View for EntryPopup {
    type V = EntryPopupView;

    open spec fn view(&self) -> EntryPopupView {
        EntryPopupView {
            title: self.title_txt@,
            date: self.date_txt@,
            tags: self.tags_txt@,
            folder: self.folder_txt@,
            priority: self.priority_txt@,
            is_edit_entry: self.is_edit_entry,
            active: self.active_txt,
            title_err: self.title_err_msg@,
            date_err: self.date_err_msg@,
            tags_err: self.tags_err_msg@,
            folder_err: self.folder_err_msg@,
            priority_err: self.priority_err_msg@,
            tags_popup_open: self.tags_popup_open,
            folders_popup: match self.folders_popup {
                Some(f) => Some(f@),
                None => None,
            },
        }
    }
}

/// The format of the date field.
pub open spec fn date_format() -> Seq<char> {
    seq!['%', 'd', '-', '%', 'm', '-', '%', 'Y']
}

/// The title's error: set when the title is empty.
pub open spec fn title_error(text: Seq<char>) -> Seq<char> {
    if text.len() == 0 {
        "Title can't be empty"@
    } else {
        Seq::empty()
    }
}

/// The date's error: the parser's message when the text is no date.
pub open spec fn date_error(text: Seq<char>) -> Seq<char> {
    match naive_date_parse(text, date_format()) {
        Ok(_) => Seq::empty(),
        Err(m) => m,
    }
}

/// The tags' error: set when a tag read from the text holds a comma.
pub open spec fn tags_error(text: Seq<char>) -> Seq<char> {
    if exists|k: int|
        0 <= k < text_to_tags_spec(text).len() && #[trigger] text_to_tags_spec(text)[k].contains(',') {
        "Tags are invalid"@
    } else {
        Seq::empty()
    }
}

/// The priority's error: set when the text is not empty and no `u32`.
pub open spec fn priority_error(text: Seq<char>) -> Seq<char> {
    if text.len() > 0 && parse_u32_spec(text) is None {
        "Priority must be a positive number"@
    } else {
        Seq::empty()
    }
}

/// The form with the errors of the title, date, tags and priority fields worked out anew.
pub open spec fn validated(v: EntryPopupView) -> EntryPopupView {
    EntryPopupView {
        title_err: title_error(v.title),
        date_err: date_error(v.date),
        tags_err: tags_error(v.tags),
        priority_err: priority_error(v.priority),
        ..v
    }
}

/// Whether no field of the form has an error.
pub open spec fn form_valid(v: EntryPopupView) -> bool {
    v.title_err.len() == 0 && v.date_err.len() == 0 && v.tags_err.len() == 0 && v.folder_err.len()
        == 0 && v.priority_err.len() == 0
}

/// The form after the field `field` got the text `text`, with that field checked again (the
/// folder has no check).
pub open spec fn edited(v: EntryPopupView, field: ActiveText, text: Seq<char>) -> EntryPopupView {
    match field {
        ActiveText::Title => EntryPopupView { title: text, title_err: title_error(text), ..v },
        ActiveText::Date => EntryPopupView { date: text, date_err: date_error(text), ..v },
        ActiveText::Tags => EntryPopupView { tags: text, tags_err: tags_error(text), ..v },
        ActiveText::Folder => EntryPopupView { folder: text, ..v },
        ActiveText::Priority => EntryPopupView {
            priority: text,
            priority_err: priority_error(text),
            ..v
        },
    }
}

/// A fresh form for a new entry dated `day`-`month`-`year`, with the default priority.
pub open spec fn new_form(day: u32, month: u32, year: i32, priority: Option<u32>) -> EntryPopupView {
    EntryPopupView {
        title: Seq::empty(),
        date: date_text_spec(day, month, year),
        tags: Seq::empty(),
        folder: Seq::empty(),
        priority: match priority {
            Some(p) => decimal_spec(p as nat),
            None => Seq::empty(),
        },
        is_edit_entry: false,
        active: ActiveText::Title,
        title_err: Seq::empty(),
        date_err: Seq::empty(),
        tags_err: Seq::empty(),
        folder_err: Seq::empty(),
        priority_err: Seq::empty(),
        tags_popup_open: false,
        folders_popup: None,
    }
}

/// The form for editing `e`, before its fields are checked.
pub open spec fn entry_form(e: EntryView) -> EntryPopupView {
    EntryPopupView {
        title: e.title,
        date: match utc_calendar_date(e.date.secs, e.date.nanos) {
            Some(d) => date_text_spec(d.0, d.1, d.2),
            None => Seq::empty(),
        },
        tags: join_spec(e.tags, seq![',', ' ']),
        folder: e.folder,
        priority: match e.priority {
            Some(p) => decimal_spec(p as nat),
            None => Seq::empty(),
        },
        is_edit_entry: true,
        active: ActiveText::Title,
        title_err: Seq::empty(),
        date_err: Seq::empty(),
        tags_err: Seq::empty(),
        folder_err: Seq::empty(),
        priority_err: Seq::empty(),
        tags_popup_open: false,
        folders_popup: None,
    }
}

/// `r` is what confirming the form `v` (already checked) gives: the form stays while some
/// field has an error or the date does not read, else the values are to be stored.
pub open spec fn confirm_outcome(v: EntryPopupView, r: EntryPopupAction) -> bool {
    if !form_valid(v) {
        r == EntryPopupAction::Answer(EntryPopupInputReturn::KeepPopup)
    } else {
        match naive_date_parse(v.date, date_format()) {
            Ok(t) => {
                &&& if v.is_edit_entry {
                    r is SaveEdit
                } else {
                    r is SaveNew
                }
                &&& saved_values(r) matches Some(vals) && vals.title@ == v.title && vals.date == t
                    && views(vals.tags@) == text_to_tags_spec(v.tags) && vals.priority
                    == parse_u32_spec(v.priority) && vals.folder@ == trim_spec(v.folder)
            },
            Err(_) => r == EntryPopupAction::Answer(EntryPopupInputReturn::KeepPopup),
        }
    }
}

/// The values that the action `r` asks to store, if it asks to store any.
pub open spec fn saved_values(r: EntryPopupAction) -> Option<EntryValues> {
    match r {
        EntryPopupAction::SaveNew(vals) => Some(vals),
        EntryPopupAction::SaveEdit(vals) => Some(vals),
        _ => None,
    }
}

/// How the box of a field looks.
#[derive(Debug, Clone, Copy, PartialEq, Eq, Structural)]
pub enum BoxLook {
    /// The style of the focused box.
    Active,
    /// The terminal's own style (a checked field without the focus).
    Reset,
    /// No style of its own (the folder and priority fields without the focus).
    Plain,
    /// The style of a box whose text has an error.
    Invalid,
}

/// How the cursor of a field looks.
#[derive(Debug, Clone, Copy, PartialEq, Eq, Structural)]
pub enum CursorLook {
    Active,
    Hidden,
    Invalid,
}

/// The error of a checked field (title, date or tags).
pub open spec fn checked_error(v: EntryPopupView, field: ActiveText) -> Seq<char> {
    match field {
        ActiveText::Title => v.title_err,
        ActiveText::Date => v.date_err,
        _ => v.tags_err,
    }
}

/// How the field `field` of the form `v` looks: a checked field (title, date, tags) shows its
/// error, else whether it has the focus, on its box and its cursor; the folder and priority
/// boxes only show the focus, and their cursors keep their look.
pub open spec fn field_look_spec(v: EntryPopupView, field: ActiveText) -> (BoxLook, Option<
    CursorLook,
>) {
    let focused = v.active == field;
    match field {
        ActiveText::Folder | ActiveText::Priority => (
            if focused {
                BoxLook::Active
            } else {
                BoxLook::Plain
            },
            None,
        ),
        _ => if checked_error(v, field).len() == 0 {
            if focused {
                (BoxLook::Active, Some(CursorLook::Active))
            } else {
                (BoxLook::Reset, Some(CursorLook::Hidden))
            }
        } else {
            (
                BoxLook::Invalid,
                Some(
                    if focused {
                        CursorLook::Invalid
                    } else {
                        CursorLook::Hidden
                    },
                ),
            )
        },
    }
}

/// The title of the form's frame.
pub open spec fn popup_title_spec(v: EntryPopupView) -> Seq<char> {
    if v.is_edit_entry {
        "Edit journal"@
    } else {
        "Create journal"@
    }
}

/// The title of the box of the field `field`: its name, followed by its error where the field
/// has one; the tags box names its format while it has the focus.
pub open spec fn field_title_spec(v: EntryPopupView, field: ActiveText) -> Seq<char> {
    match field {
        ActiveText::Title => if v.title_err.len() == 0 {
            "Title"@
        } else {
            "Title : "@ + v.title_err
        },
        ActiveText::Date => if v.date_err.len() == 0 {
            "Date"@
        } else {
            "Date : "@ + v.date_err
        },
        ActiveText::Tags => if v.tags_err.len() > 0 {
            "Tags : "@ + v.tags_err
        } else if v.active == ActiveText::Tags {
            "Tags - A comma-separated list"@
        } else {
            "Tags"@
        },
        ActiveText::Folder => "Folder"@ + v.folder_err,
        ActiveText::Priority => "Priority (Optional)"@ + v.priority_err,
    }
}

/// The title's error for `text`.
fn title_error_of(text: &str) -> (r: String)
    ensures
        r@ == title_error(text@),
{
    if text.unicode_len() == 0 {
        "Title can't be empty".to_string()
    } else {
        String::new()
    }
}

/// The date's error for `text`.
fn date_error_of(text: &str) -> (r: String)
    ensures
        r@ == date_error(text@),
        r@.len() == 0 <==> naive_date_parse(text@, date_format()) is Ok,
{
    let fmt = "%d-%m-%Y";
    proof {
        reveal_strlit("%d-%m-%Y");
        assert(fmt@ =~= date_format());
    }
    match parse_date_text(text, fmt) {
        Ok(_) => String::new(),
        Err(m) => m,
    }
}

/// The tags' error for `text`.
fn tags_error_of(text: &str) -> (r: String)
    ensures
        r@ == tags_error(text@),
{
    let tags = text_to_tags(text);
    let mut k: usize = 0;
    while k < tags.len()
        invariant
            k <= tags.len(),
            views(tags@) == text_to_tags_spec(text@),
            forall|j: int| 0 <= j < k ==> !#[trigger] text_to_tags_spec(text@)[j].contains(','),
        decreases tags.len() - k,
    {
        assert(views(tags@)[k as int] == tags@[k as int]@);
        if has_char(tags[k].as_str(), ',') {
            return "Tags are invalid".to_string();
        }
        k = k + 1;
    }
    String::new()
}

/// Whether `s` holds the character `c`.
fn has_char(s: &str, c: char) -> (r: bool)
    ensures
        r == s@.contains(c),
{
    let n = s.unicode_len();
    let mut i: usize = 0;
    while i < n
        invariant
            n == s@.len(),
            i <= n,
            forall|j: int| 0 <= j < i ==> s@[j] != c,
        decreases n - i,
    {
        if s.get_char(i) == c {
            return true;
        }
        i = i + 1;
    }
    false
}

/// The priority's error for `text`.
fn priority_error_of(text: &str) -> (r: String)
    ensures
        r@ == priority_error(text@),
{
    if text.unicode_len() > 0 && parse_u32(text).is_none() {
        "Priority must be a positive number".to_string()
    } else {
        String::new()
    }
}

impl EntryPopup {
    /// A fresh form for a new entry dated `day`-`month`-`year`: empty title, tags and
    /// folder, the default priority if any, the title focused, no error shown yet.
    pub fn new_entry_on(day: u32, month: u32, year: i32, default_priority: Option<u32>) -> (p: Self)
        ensures
            p@ == new_form(day, month, year, default_priority),
    {
        let priority_txt = match default_priority {
            Some(priority) => u32_text(priority),
            None => String::new(),
        };
        EntryPopup {
            title_txt: String::new(),
            date_txt: date_text(day, month, year),
            tags_txt: String::new(),
            folder_txt: String::new(),
            priority_txt,
            is_edit_entry: false,
            active_txt: ActiveText::Title,
            title_err_msg: String::new(),
            date_err_msg: String::new(),
            tags_err_msg: String::new(),
            folder_err_msg: String::new(),
            priority_err_msg: String::new(),
            tags_popup_open: false,
            folders_popup: None,
        }
    }

    /// A fresh form for a new entry dated today (in the local time zone), with the default
    /// priority if any.
    pub fn new_entry(default_priority: Option<u32>) -> (p: Self)
        ensures
            exists|day: u32, month: u32, year: i32|
                1 <= day <= 31 && 1 <= month <= 12 && p@ == #[trigger] new_form(
                    day,
                    month,
                    year,
                    default_priority,
                ),
    {
        let (day, month, year) = local_today();
        let p = Self::new_entry_on(day, month, year, default_priority);
        assert(p@ == new_form(day, month, year, default_priority));
        p
    }

    /// The form for editing `entry`, with its fields checked.
    pub fn from_entry(entry: &Entry) -> (p: Self)
        ensures
            p@ == validated(entry_form(entry@)),
    {
        let date_txt = match utc_date_parts(entry.date) {
            Some((day, month, year)) => date_text(day, month, year),
            None => String::new(),
        };
        let priority_txt = match entry.priority {
            Some(priority) => u32_text(priority),
            None => String::new(),
        };
        let mut p = EntryPopup {
            title_txt: entry.title.clone(),
            date_txt,
            tags_txt: tags_to_text(&entry.tags),
            folder_txt: entry.folder.clone(),
            priority_txt,
            is_edit_entry: true,
            active_txt: ActiveText::Title,
            title_err_msg: String::new(),
            date_err_msg: String::new(),
            tags_err_msg: String::new(),
            folder_err_msg: String::new(),
            priority_err_msg: String::new(),
            tags_popup_open: false,
            folders_popup: None,
        };
        assert(p@ == entry_form(entry@));
        p.validate_all();
        p
    }

    /// Whether no field has an error.
    pub fn is_input_valid(&self) -> (r: bool)
        ensures
            r == form_valid(self@),
    {
        self.title_err_msg.unicode_len() == 0 && self.date_err_msg.unicode_len() == 0
            && self.tags_err_msg.unicode_len() == 0 && self.priority_err_msg.unicode_len() == 0
            && self.folder_err_msg.unicode_len() == 0
    }

    /// How the box and the cursor of the field `field` look.
    pub fn field_look(&self, field: ActiveText) -> (r: (BoxLook, Option<CursorLook>))
        ensures
            r == field_look_spec(self@, field),
    {
        let focused = self.active_txt == field;
        let err_len = match field {
            ActiveText::Folder | ActiveText::Priority => {
                let look = if focused {
                    BoxLook::Active
                } else {
                    BoxLook::Plain
                };
                return (look, None);
            },
            ActiveText::Title => self.title_err_msg.unicode_len(),
            ActiveText::Date => self.date_err_msg.unicode_len(),
            ActiveText::Tags => self.tags_err_msg.unicode_len(),
        };
        if err_len == 0 {
            if focused {
                (BoxLook::Active, Some(CursorLook::Active))
            } else {
                (BoxLook::Reset, Some(CursorLook::Hidden))
            }
        } else if focused {
            (BoxLook::Invalid, Some(CursorLook::Invalid))
        } else {
            (BoxLook::Invalid, Some(CursorLook::Hidden))
        }
    }

    /// The title of the form's frame: editing or creating an entry.
    pub fn popup_title(&self) -> (r: &str)
        ensures
            r@ == popup_title_spec(self@),
    {
        proof {
            reveal_strlit("Edit journal");
            reveal_strlit("Create journal");
        }
        if self.is_edit_entry {
            "Edit journal"
        } else {
            "Create journal"
        }
    }

    /// The title of the box of the field `field`.
    pub fn field_title(&self, field: ActiveText) -> (r: String)
        ensures
            r@ == field_title_spec(self@, field),
    {
        match field {
            ActiveText::Title => {
                if self.title_err_msg.unicode_len() == 0 {
                    proof { reveal_strlit("Title"); }
                    "Title".to_string()
                } else {
                    let mut r = "Title : ".to_string();
                    r.append(self.title_err_msg.as_str());
                    proof { reveal_strlit("Title : "); }
                    r
                }
            },
            ActiveText::Date => {
                if self.date_err_msg.unicode_len() == 0 {
                    proof { reveal_strlit("Date"); }
                    "Date".to_string()
                } else {
                    let mut r = "Date : ".to_string();
                    r.append(self.date_err_msg.as_str());
                    proof { reveal_strlit("Date : "); }
                    r
                }
            },
            ActiveText::Tags => {
                if self.tags_err_msg.unicode_len() > 0 {
                    let mut r = "Tags : ".to_string();
                    r.append(self.tags_err_msg.as_str());
                    proof { reveal_strlit("Tags : "); }
                    r
                } else if self.active_txt == ActiveText::Tags {
                    proof { reveal_strlit("Tags - A comma-separated list"); }
                    "Tags - A comma-separated list".to_string()
                } else {
                    proof { reveal_strlit("Tags"); }
                    "Tags".to_string()
                }
            },
            ActiveText::Folder => {
                let mut r = "Folder".to_string();
                r.append(self.folder_err_msg.as_str());
                proof { reveal_strlit("Folder"); }
                r
            },
            ActiveText::Priority => {
                let mut r = "Priority (Optional)".to_string();
                r.append(self.priority_err_msg.as_str());
                proof { reveal_strlit("Priority (Optional)"); }
                r
            },
        }
    }

    /// Checks the title, date, tags and priority fields and sets their errors.
    pub fn validate_all(&mut self)
        ensures
            final(self)@ == validated(old(self)@),
            final(self)@.date_err.len() == 0 <==> naive_date_parse(old(self)@.date, date_format()) is Ok,
    {
        self.title_err_msg = title_error_of(self.title_txt.as_str());
        self.date_err_msg = date_error_of(self.date_txt.as_str());
        self.tags_err_msg = tags_error_of(self.tags_txt.as_str());
        self.priority_err_msg = priority_error_of(self.priority_txt.as_str());
    }

    /// Gives the field `field` the text `text` and checks that field again.
    pub fn update_text(&mut self, field: ActiveText, text: String)
        ensures
            final(self)@ == edited(old(self)@, field, text@),
            field == ActiveText::Date ==> (final(self)@.date_err.len() == 0 <==> naive_date_parse(
                text@,
                date_format(),
            ) is Ok),
    {
        match field {
            ActiveText::Title => {
                self.title_err_msg = title_error_of(text.as_str());
                self.title_txt = text;
            },
            ActiveText::Date => {
                self.date_err_msg = date_error_of(text.as_str());
                self.date_txt = text;
            },
            ActiveText::Tags => {
                self.tags_err_msg = tags_error_of(text.as_str());
                self.tags_txt = text;
            },
            ActiveText::Folder => {
                self.folder_txt = text;
            },
            ActiveText::Priority => {
                self.priority_err_msg = priority_error_of(text.as_str());
                self.priority_txt = text;
            },
        }
    }

    /// Takes the tag picker's answer: `Cancel` closes it, `Apply` puts its text into the tags
    /// field, focuses that field and closes it, `Keep` changes nothing.
    pub fn handle_tags_popup_input(&mut self, ret: TagsPopupReturn)
        requires
            old(self).tags_popup_open,
        ensures
            match ret {
                TagsPopupReturn::Keep => final(self)@ == old(self)@,
                TagsPopupReturn::Cancel => final(self)@ == (EntryPopupView {
                    tags_popup_open: false,
                    ..old(self)@
                }),
                TagsPopupReturn::Apply(t) => final(self)@ == (EntryPopupView {
                    tags: t@,
                    active: ActiveText::Tags,
                    tags_popup_open: false,
                    ..old(self)@
                }),
            },
    {
        match ret {
            TagsPopupReturn::Keep => {},
            TagsPopupReturn::Cancel => {
                self.tags_popup_open = false;
            },
            TagsPopupReturn::Apply(tags_text) => {
                self.tags_txt = tags_text;
                self.active_txt = ActiveText::Tags;
                self.tags_popup_open = false;
            },
        }
    }

    /// Passes a key to the open folder picker and takes its answer: `Cancel` closes it,
    /// `Apply` puts the chosen folder into the folder field, focuses that field and closes it.
    pub fn handle_folders_popup_input(&mut self, input: &Input)
        requires
            old(self).folders_popup is Some,
        ensures
            folder_key_handled(old(self)@, *input, final(self)@),
    {
        let mut popup = self.folders_popup.take().unwrap();
        let ret = popup.handle_input(input);
        match ret {
            FoldersPopupReturn::Keep => {
                self.folders_popup = Some(popup);
            },
            FoldersPopupReturn::Cancel => {},
            FoldersPopupReturn::Apply(folder) => {
                self.apply_folder(folder);
                self.active_txt = ActiveText::Folder;
            },
        }
    }

    /// Opens the folder picker over the folders of all entries, with the trimmed folder field
    /// as the current folder.
    pub fn open_folders_popup<D>(&mut self, app: &App<D>) -> (r: EntryPopupInputReturn)
        ensures
            r == EntryPopupInputReturn::KeepPopup,
            final(self)@ == (EntryPopupView {
                folders_popup: Some(opened_folders(old(self)@.folder, entry_views(app.entries@))),
                ..old(self)@
            }),
    {
        let folders = app.get_all_folders();
        let current_folder = trim(self.folder_txt.as_str());
        let popup = FoldersPopup::new(current_folder.as_str(), folders);
        proof {
            lemma_opened_folders(current_folder@, views(folders@), popup);
        }
        self.folders_popup = Some(popup);
        EntryPopupInputReturn::KeepPopup
    }

    /// Puts `folder` into the folder field.
    pub fn apply_folder(&mut self, folder: String)
        ensures
            final(self)@ == (EntryPopupView { folder: folder@, ..old(self)@ }),
    {
        self.folder_txt = folder;
    }

    /// Checks every field; with no error and a readable date, the values to store.
    pub fn handle_confirm(&mut self) -> (r: EntryPopupAction)
        ensures
            final(self)@ == validated(old(self)@),
            final(self)@.date_err.len() == 0 <==> naive_date_parse(old(self)@.date, date_format()) is Ok,
            confirm_outcome(final(self)@, r),
            form_valid(final(self)@) <==> saved_values(r) is Some,
    {
        self.validate_all();
        if !self.is_input_valid() {
            return EntryPopupAction::Answer(EntryPopupInputReturn::KeepPopup);
        }
        let fmt = "%d-%m-%Y";
        proof {
            reveal_strlit("%d-%m-%Y");
            assert(fmt@ =~= date_format());
        }
        let date = match parse_date_text(self.date_txt.as_str(), fmt) {
            Ok(date) => date,
            Err(_) => {
                return EntryPopupAction::Answer(EntryPopupInputReturn::KeepPopup);
            },
        };
        let values = EntryValues {
            title: self.title_txt.clone(),
            date,
            tags: text_to_tags(self.tags_txt.as_str()),
            priority: parse_u32(self.priority_txt.as_str()),
            folder: trim(self.folder_txt.as_str()),
        };
        if self.is_edit_entry {
            EntryPopupAction::SaveEdit(values)
        } else {
            EntryPopupAction::SaveNew(values)
        }
    }

    /// Deals with a key press. An open tag picker gets the key; an open folder picker takes
    /// it. Otherwise Esc or Control-`c` cancel, Enter confirms, Tab and Shift-Tab move the
    /// focus forward and back, Control-Space or Control-`t` open the tag picker, Control-`f`
    /// the folder picker, and any other key edits the focused field.
    pub fn handle_input<D>(&mut self, input: &Input, app: &App<D>) -> (r: EntryPopupAction)
        ensures
            input_handled(old(self)@, *input, entry_views(app.entries@), final(self)@, r),
            !old(self)@.tags_popup_open && old(self)@.folders_popup is None && input.key_code
                == KeyCode::Enter ==> (final(self)@.date_err.len() == 0 <==> naive_date_parse(
                old(self)@.date,
                date_format(),
            ) is Ok) && (form_valid(final(self)@) <==> saved_values(r) is Some),
    {
        if self.tags_popup_open {
            return EntryPopupAction::ForTagsPopup;
        }
        if self.folders_popup.is_some() {
            self.handle_folders_popup_input(input);
            return EntryPopupAction::Answer(EntryPopupInputReturn::KeepPopup);
        }
        let has_ctrl = input.has_control;
        match input.key_code {
            KeyCode::Esc => EntryPopupAction::Answer(EntryPopupInputReturn::Cancel),
            KeyCode::Enter => self.handle_confirm(),
            KeyCode::Tab => {
                self.active_txt = next_field(self.active_txt);
                EntryPopupAction::Answer(EntryPopupInputReturn::KeepPopup)
            },
            KeyCode::BackTab => {
                self.active_txt = prev_field(self.active_txt);
                EntryPopupAction::Answer(EntryPopupInputReturn::KeepPopup)
            },
            KeyCode::Char(c) => {
                if has_ctrl && c == 'c' {
                    EntryPopupAction::Answer(EntryPopupInputReturn::Cancel)
                } else if has_ctrl && (c == ' ' || c == 't') {
                    self.tags_popup_open = true;
                    EntryPopupAction::OpenTagsPopup(self.tags_txt.clone(), app.get_all_tags())
                } else if has_ctrl && c == 'f' {
                    let r = self.open_folders_popup(app);
                    EntryPopupAction::Answer(r)
                } else {
                    EntryPopupAction::EditText(self.active_txt)
                }
            },
            _ => EntryPopupAction::EditText(self.active_txt),
        }
    }
}

/// The form after its open folder picker `old.folders_popup` took the key `input`.
pub open spec fn folder_key_handled(old: EntryPopupView, input: Input, new: EntryPopupView) -> bool {
    let fp = old.folders_popup.unwrap();
    let closed = EntryPopupView { folders_popup: None, ..old };
    let chosen = match fp.0 {
        Some(i) if i < fp.1.len() => EntryPopupView {
            folder: fp.1[i as int],
            active: ActiveText::Folder,
            folders_popup: None,
            ..old
        },
        _ => closed,
    };
    match input.key_code {
        KeyCode::Char('j') | KeyCode::Down => new == (EntryPopupView {
            folders_popup: Some((next_selection(fp.0, fp.1.len()), fp.1)),
            ..old
        }),
        KeyCode::Char('k') | KeyCode::Up => new == (EntryPopupView {
            folders_popup: Some((prev_selection(fp.0, fp.1.len()), fp.1)),
            ..old
        }),
        KeyCode::Esc | KeyCode::Char('q') => new == closed,
        KeyCode::Char('c') if input.has_control => new == closed,
        KeyCode::Enter => new == chosen,
        KeyCode::Char('m') if input.has_control => new == chosen,
        _ => new == old,
    }
}

/// The form `old` became `new` and answered `r` on the key `input`, the entries being
/// `entries`.
pub open spec fn input_handled(
    old: EntryPopupView,
    input: Input,
    entries: Seq<EntryView>,
    new: EntryPopupView,
    r: EntryPopupAction,
) -> bool {
    let keep = EntryPopupAction::Answer(EntryPopupInputReturn::KeepPopup);
    if old.tags_popup_open {
        new == old && r is ForTagsPopup
    } else if old.folders_popup is Some {
        folder_key_handled(old, input, new) && r == keep
    } else {
        match input.key_code {
            KeyCode::Esc => new == old && r == EntryPopupAction::Answer(
                EntryPopupInputReturn::Cancel,
            ),
            KeyCode::Enter => new == validated(old) && confirm_outcome(new, r),
            KeyCode::Tab => new == (EntryPopupView { active: next_text(old.active), ..old }) && r
                == keep,
            KeyCode::BackTab => new == (EntryPopupView { active: prev_text(old.active), ..old })
                && r == keep,
            KeyCode::Char(c) => if input.has_control && c == 'c' {
                new == old && r == EntryPopupAction::Answer(EntryPopupInputReturn::Cancel)
            } else if input.has_control && (c == ' ' || c == 't') {
                &&& new == (EntryPopupView { tags_popup_open: true, ..old })
                &&& r matches EntryPopupAction::OpenTagsPopup(t, tags) && t@ == old.tags
                    && views(tags@) == sorted_list(all_tags_set(entries))
            } else if input.has_control && c == 'f' {
                new == (EntryPopupView {
                    folders_popup: Some(opened_folders(old.folder, entries)),
                    ..old
                }) && r == keep
            } else {
                new == old && r == EntryPopupAction::EditText(old.active)
            },
            _ => new == old && r == EntryPopupAction::EditText(old.active),
        }
    }
}

/// The field after `a`.
fn next_field(a: ActiveText) -> (r: ActiveText)
    ensures
        r == next_text(a),
{
    match a {
        ActiveText::Title => ActiveText::Date,
        ActiveText::Date => ActiveText::Tags,
        ActiveText::Tags => ActiveText::Folder,
        ActiveText::Folder => ActiveText::Priority,
        ActiveText::Priority => ActiveText::Title,
    }
}

/// The field before `a`.
fn prev_field(a: ActiveText) -> (r: ActiveText)
    ensures
        r == prev_text(a),
{
    match a {
        ActiveText::Title => ActiveText::Priority,
        ActiveText::Date => ActiveText::Title,
        ActiveText::Tags => ActiveText::Date,
        ActiveText::Folder => ActiveText::Tags,
        ActiveText::Priority => ActiveText::Folder,
    }
}

/// The folder picker opened over the folders of `entries` for the folder field `folder`.
pub open spec fn opened_folders(folder: Seq<char>, entries: Seq<EntryView>) -> (Option<usize>, Seq<Seq<char>>) {
    let current = trim_spec(folder);
    let listed = popup_folders(current, sorted_list(all_folders_set(entries)));
    (
        if listed.contains(current) {
            Some(first_index(listed, current) as usize)
        } else if listed.len() > 0 {
            Some(0usize)
        } else {
            None
        },
        listed,
    )
}

/// The first position of `x` in `s`.
pub open spec fn first_index(s: Seq<Seq<char>>, x: Seq<char>) -> int
    decreases s.len(),
{
    if s.len() == 0 {
        0
    } else if s[0] == x {
        0
    } else {
        1 + first_index(s.drop_first(), x)
    }
}

/// A first position of `x` in `s` is the first index.
proof fn lemma_first_index(s: Seq<Seq<char>>, x: Seq<char>, k: int)
    requires
        crate::popups::is_first_pos(s, x, k),
    ensures
        first_index(s, x) == k,
    decreases s.len(),
{
    if k > 0 {
        assert(crate::popups::is_first_pos(s.drop_first(), x, k - 1)) by {
            assert forall|j: int| 0 <= j < k - 1 implies s.drop_first()[j] != x by {
                assert(s.drop_first()[j] == s[j + 1]);
            }
        }
        lemma_first_index(s.drop_first(), x, k - 1);
    }
}

proof fn lemma_opened_folders(current: Seq<char>, all: Seq<Seq<char>>, p: FoldersPopup)
    requires
        views(p.folders@) == popup_folders(current, all),
        views(p.folders@).contains(current) ==> (p.selected matches Some(k)
            && crate::popups::is_first_pos(views(p.folders@), current, k as int)),
        !views(p.folders@).contains(current) && p.folders@.len() > 0 ==> p.selected
            == Some(0usize),
        p.folders@.len() == 0 ==> p.selected is None,
    ensures
        p@ == ({
            let listed = popup_folders(current, all);
            (
                if listed.contains(current) {
                    Some(first_index(listed, current) as usize)
                } else if listed.len() > 0 {
                    Some(0usize)
                } else {
                    None
                },
                listed,
            )
        }),
{
    if views(p.folders@).contains(current) {
        let k = p.selected.unwrap();
        lemma_first_index(views(p.folders@), current, k as int);
    }
}

} // verus!
