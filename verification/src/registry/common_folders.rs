//! The folders listed under "This PC": their registry keys, and what
//! showing or hiding one writes.

use crate::text::{chars_of, is_ws, push_str, str_eq, string_of_range, trail_count, trim};
use crate::game::ea::{eq_ignore_ascii_case, str_eq_ignore_ascii_case};
use vstd::prelude::*;

verus! {

broadcast use vstd::string::group_string_axioms;

/// Each folder's name and its key under `HKEY_LOCAL_MACHINE`: the 3D Objects
/// folder is shown while its `MyComputer\NameSpace` key exists; the others
/// carry a `ThisPCPolicy` value in their `FolderDescriptions` property bag.
pub open spec fn folder_table() -> Seq<(Seq<char>, Seq<char>)> {
    seq![
        ("3D_OBJECTS"@, "SOFTWARE\\Microsoft\\Windows\\CurrentVersion\\Explorer\\MyComputer\\NameSpace\\{0DB7E03F-FC29-4DC6-9020-FF41B59E513A}"@),
        ("PICTURES"@, "SOFTWARE\\Microsoft\\Windows\\CurrentVersion\\Explorer\\FolderDescriptions\\{0ddd015d-b06c-45d5-8c4c-f59713854639}\\PropertyBag"@),
        ("VIDEOS"@, "SOFTWARE\\Microsoft\\Windows\\CurrentVersion\\Explorer\\FolderDescriptions\\{35286a68-3c57-41a1-bbb1-0eae73d76c95}\\PropertyBag"@),
        ("DOWNLOADS"@, "SOFTWARE\\Microsoft\\Windows\\CurrentVersion\\Explorer\\FolderDescriptions\\{7d83ee9b-2244-4e70-b1f5-5393042af1e4}\\PropertyBag"@),
        ("MUSIC"@, "SOFTWARE\\Microsoft\\Windows\\CurrentVersion\\Explorer\\FolderDescriptions\\{a0c69a99-21c8-4671-8703-7934162fcf1d}\\PropertyBag"@),
        ("DESKTOP"@, "SOFTWARE\\Microsoft\\Windows\\CurrentVersion\\Explorer\\FolderDescriptions\\{B4BFCC3A-DB2C-424C-B029-7FE99A87C641}\\PropertyBag"@),
        ("DOCUMENTS"@, "SOFTWARE\\Microsoft\\Windows\\CurrentVersion\\Explorer\\FolderDescriptions\\{f42ee2d3-909f-4907-8871-4c22fc0bf756}\\PropertyBag"@),
    ]
}

fn folder_rows() -> (r: Vec<(&'static str, &'static str)>)
    ensures
        r@.map_values(|e: (&'static str, &'static str)| (e.0@, e.1@)) == folder_table(),
{
    let mut v: Vec<(&'static str, &'static str)> = Vec::new();
    v.push(("3D_OBJECTS", "SOFTWARE\\Microsoft\\Windows\\CurrentVersion\\Explorer\\MyComputer\\NameSpace\\{0DB7E03F-FC29-4DC6-9020-FF41B59E513A}"));
    v.push(("PICTURES", "SOFTWARE\\Microsoft\\Windows\\CurrentVersion\\Explorer\\FolderDescriptions\\{0ddd015d-b06c-45d5-8c4c-f59713854639}\\PropertyBag"));
    v.push(("VIDEOS", "SOFTWARE\\Microsoft\\Windows\\CurrentVersion\\Explorer\\FolderDescriptions\\{35286a68-3c57-41a1-bbb1-0eae73d76c95}\\PropertyBag"));
    v.push(("DOWNLOADS", "SOFTWARE\\Microsoft\\Windows\\CurrentVersion\\Explorer\\FolderDescriptions\\{7d83ee9b-2244-4e70-b1f5-5393042af1e4}\\PropertyBag"));
    v.push(("MUSIC", "SOFTWARE\\Microsoft\\Windows\\CurrentVersion\\Explorer\\FolderDescriptions\\{a0c69a99-21c8-4671-8703-7934162fcf1d}\\PropertyBag"));
    v.push(("DESKTOP", "SOFTWARE\\Microsoft\\Windows\\CurrentVersion\\Explorer\\FolderDescriptions\\{B4BFCC3A-DB2C-424C-B029-7FE99A87C641}\\PropertyBag"));
    v.push(("DOCUMENTS", "SOFTWARE\\Microsoft\\Windows\\CurrentVersion\\Explorer\\FolderDescriptions\\{f42ee2d3-909f-4907-8871-4c22fc0bf756}\\PropertyBag"));
    assert(v@.map_values(|e: (&'static str, &'static str)| (e.0@, e.1@)) =~= folder_table());
    v
}

/// Position of `key` in the table, or `-1`.
pub open spec fn folder_pos(t: Seq<(Seq<char>, Seq<char>)>, key: Seq<char>) -> int
    decreases t.len(),
{
    if t.len() == 0 {
        -1
    } else if t[0].0 == key {
        0
    } else {
        let r = folder_pos(t.drop_first(), key);
        if r < 0 {
            -1
        } else {
            r + 1
        }
    }
}

pub proof fn lemma_folder_pos(t: Seq<(Seq<char>, Seq<char>)>, key: Seq<char>, i: int)
    requires
        0 <= i <= t.len(),
        forall|j: int| 0 <= j < i ==> (#[trigger] t[j]).0 != key,
        i == t.len() || t[i].0 == key,
    ensures
        folder_pos(t, key) == (if i == t.len() { -1 } else { i }),
    decreases i,
{
    if i > 0 {
        let u = t.drop_first();
        assert forall|j: int| 0 <= j < i - 1 implies (#[trigger] u[j]).0 != key by {
            assert(u[j] == t[j + 1]);
        }
        if i < t.len() {
            assert(u[i - 1] == t[i]);
        }
        lemma_folder_pos(u, key, i - 1);
    }
}

/// The key of a known folder.
pub open spec fn folder_key_of(key: Seq<char>) -> Option<Seq<char>> {
    let p = folder_pos(folder_table(), key);
    if p >= 0 {
        Some(folder_table()[p].1)
    } else {
        None
    }
}

/// The names of the known folders.
pub fn known_common_folder_keys() -> (r: Vec<&'static str>)
    ensures
        r@.map_values(|k: &'static str| k@) == folder_table().map_values(|e: (Seq<char>, Seq<char>)| e.0),
{
    let rows = folder_rows();
    let ghost t = rows@.map_values(|e: (&'static str, &'static str)| (e.0@, e.1@));
    let mut r: Vec<&'static str> = Vec::new();
    let mut i: usize = 0;
    while i < rows.len()
        invariant
            i <= rows@.len(),
            t == rows@.map_values(|e: (&'static str, &'static str)| (e.0@, e.1@)),
            t == folder_table(),
            r@.len() == i,
            forall|j: int| 0 <= j < i ==> (#[trigger] r@[j])@ == t[j].0,
        decreases rows@.len() - i,
    {
        assert(t[i as int] == (rows@[i as int].0@, rows@[i as int].1@));
        r.push(rows[i].0);
        i = i + 1;
    }
    assert(r@.map_values(|k: &'static str| k@) =~= folder_table().map_values(|e: (Seq<char>, Seq<char>)| e.0));
    r
}

/// The registry key of a known folder, or the error for an unknown name.
pub fn folder_path(key: &str) -> (r: Result<&'static str, String>)
    ensures
        match folder_key_of(key@) {
            Some(k) => r is Ok && r.unwrap()@ == k,
            None => r is Err && r->Err_0@ == "未知常用文件夹 key: "@ + key@,
        },
{
    let rows = folder_rows();
    let ghost t = rows@.map_values(|e: (&'static str, &'static str)| (e.0@, e.1@));
    let mut i: usize = 0;
    while i < rows.len()
        invariant
            i <= rows@.len(),
            t == rows@.map_values(|e: (&'static str, &'static str)| (e.0@, e.1@)),
            t == folder_table(),
            forall|j: int| 0 <= j < i ==> (#[trigger] t[j]).0 != key@,
        decreases rows@.len() - i,
    {
        assert(t[i as int] == (rows@[i as int].0@, rows@[i as int].1@));
        if str_eq(rows[i].0, key) {
            proof {
                lemma_folder_pos(t, key@, i as int);
            }
            return Ok(rows[i].1);
        }
        i = i + 1;
    }
    proof {
        lemma_folder_pos(t, key@, t.len() as int);
    }
    let mut m = String::new();
    push_str(&mut m, "未知常用文件夹 key: ");
    push_str(&mut m, key);
    Err(m)
}

/// Whether `key` names a known folder.
pub fn is_known_common_folder_key(key: &str) -> (r: bool)
    ensures
        r == (folder_key_of(key@) is Some),
{
    folder_path(key).is_ok()
}

/// What showing or hiding a folder writes to the registry.
#[derive(Debug, Clone, Copy, PartialEq, Eq)]
pub enum FolderSwitch {
    /// Create this key (the 3D Objects folder appears).
    CreateKey(&'static str),
    /// Delete this key (the 3D Objects folder disappears).
    DeleteKey(&'static str),
    /// Write this `ThisPCPolicy` text (`Show` or `Hide`) under this key.
    SetPolicy(&'static str, &'static str),
}

/// The registry change that shows (`show`) or hides a known folder.
pub open spec fn switch_of(key: Seq<char>, show: bool) -> Result<(int, Seq<char>, Seq<char>), Seq<char>> {
    match folder_key_of(key) {
        None => Err("未知常用文件夹 key: "@ + key),
        Some(k) => if key == "3D_OBJECTS"@ {
            Ok((if show { 0int } else { 1int }, k, seq![]))
        } else {
            Ok((2int, k, if show { "Show"@ } else { "Hide"@ }))
        },
    }
}

/// A change as plain values: its kind (create, delete, set), key and text.
pub open spec fn switch_view(s: FolderSwitch) -> (int, Seq<char>, Seq<char>) {
    match s {
        FolderSwitch::CreateKey(k) => (0int, k@, seq![]),
        FolderSwitch::DeleteKey(k) => (1int, k@, seq![]),
        FolderSwitch::SetPolicy(k, p) => (2int, k@, p@),
    }
}

fn switch_by_cmd(key: &str, show: bool) -> (r: Result<FolderSwitch, String>)
    ensures
        match switch_of(key@, show) {
            Ok(x) => r is Ok && switch_view(r.unwrap()) == x,
            Err(e) => r is Err && r->Err_0@ == e,
        },
{
    let path = folder_path(key)?;
    if str_eq(key, "3D_OBJECTS") {
        if show {
            Ok(FolderSwitch::CreateKey(path))
        } else {
            Ok(FolderSwitch::DeleteKey(path))
        }
    } else {
        Ok(FolderSwitch::SetPolicy(path, if show { "Show" } else { "Hide" }))
    }
}

/// The registry change that shows a folder under "This PC".
pub fn show(key: &str) -> (r: Result<FolderSwitch, String>)
    ensures
        match switch_of(key@, true) {
            Ok(x) => r is Ok && switch_view(r.unwrap()) == x,
            Err(e) => r is Err && r->Err_0@ == e,
        },
{
    switch_by_cmd(key, true)
}

/// The registry change that hides a folder under "This PC".
pub fn hide_folder(key: &str) -> (r: Result<FolderSwitch, String>)
    ensures
        match switch_of(key@, false) {
            Ok(x) => r is Ok && switch_view(r.unwrap()) == x,
            Err(e) => r is Err && r->Err_0@ == e,
        },
{
    switch_by_cmd(key, false)
}

/// Whether a `ThisPCPolicy` text shows the folder: after dropping trailing
/// `\0`s and surrounding whitespace, `hide` in any ASCII case hides it,
/// `show` shows it, and anything else (a damaged value) counts as shown.
pub open spec fn policy_shows(raw: Seq<char>) -> bool {
    let t = trim(raw.take(raw.len() - trail_count(raw, '\0')));
    !eq_ignore_ascii_case(t, "hide"@)
}

/// The folder state a `ThisPCPolicy` text stands for.
pub fn policy_state(raw: &str) -> (r: bool)
    ensures
        r == policy_shows(raw@),
{
    let v = chars_of(raw);
    let mut e = v.len();
    while e > 0 && v[e - 1] == '\0'
        invariant
            e <= v@.len(),
            forall|j: int| e <= j < v@.len() ==> #[trigger] v@[j] == '\0',
        decreases e,
    {
        e = e - 1;
    }
    proof {
        crate::text::lemma_trail_count(v@, '\0', v@.len() - e);
        assert(v@.take(v@.len() - trail_count(v@, '\0')) =~= v@.subrange(0, e as int));
    }
    let (a, b) = crate::text::trim_bounds(&v, 0, e);
    let t = string_of_range(&v, a, b);
    !str_eq_ignore_ascii_case(t.as_str(), "hide")
}

} // verus!
