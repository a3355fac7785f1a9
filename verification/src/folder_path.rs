//! Folder paths of entries: segments separated by `/`, the empty path being the root.
use vstd::prelude::*;

use crate::text::{same_text, starts_with};

verus! {

/// The path `p` followed by a separator: the prefix that the paths below `p` start with.
pub open spec fn below_prefix(p: Seq<char>) -> Seq<char> {
    p.push('/')
}

/// Whether `folder` is the folder `path` or one of its sub-folders.
pub open spec fn in_folder_spec(folder: Seq<char>, path: Seq<char>) -> bool {
    folder == path || below_prefix(path).is_prefix_of(folder)
}

/// The folder that `folder` becomes when the folder `old` is renamed to `new`: `new` itself
/// for `old`, `new` followed by the rest of the path for a sub-folder of `old`, and `folder`
/// unchanged otherwise.
pub open spec fn renamed_folder_spec(folder: Seq<char>, old: Seq<char>, new: Seq<char>) -> Seq<
    char,
> {
    if folder == old {
        new
    } else if below_prefix(old).is_prefix_of(folder) {
        new + folder.subrange(old.len() as int, folder.len() as int)
    } else {
        folder
    }
}

/// `p` followed by `/`.
fn with_separator(p: &str) -> (r: String)
    ensures
        r@ == below_prefix(p@),
{
    let mut r = p.to_owned();
    let sep = "/";
    proof {
        reveal_strlit("/");
    }
    r.append(sep);
    assert(r@ =~= below_prefix(p@));
    r
}

/// Whether `folder` is the folder `path` or one of its sub-folders.
pub fn in_folder(folder: &str, path: &str) -> (b: bool)
    ensures
        b == in_folder_spec(folder@, path@),
{
    if same_text(folder, path) {
        return true;
    }
    let prefix = with_separator(path);
    starts_with(folder, prefix.as_str())
}

/// The new path of `folder` when the folder `old` is renamed to `new`, or `None` when
/// `folder` is neither `old` nor below it.
pub fn renamed_folder(folder: &str, old: &str, new: &str) -> (r: Option<String>)
    ensures
        r is Some <==> in_folder_spec(folder@, old@),
        r matches Some(f) ==> f@ == renamed_folder_spec(folder@, old@, new@),
{
    if same_text(folder, old) {
        return Some(new.to_owned());
    }
    let prefix = with_separator(old);
    if starts_with(folder, prefix.as_str()) {
        let n = folder.unicode_len();
        let m = old.unicode_len();
        let rest = folder.substring_char(m, n);
        let mut r = new.to_owned();
        r.append(rest);
        Some(r)
    } else {
        None
    }
}

} // verus!
