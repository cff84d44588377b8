//! PUBG (Steam App ID 578080): launch options, and turning the intro movies
//! off or on again by renaming `Content\Movies` to `Content\Movies_disabled`
//! and back.

use crate::game::steam::{
    get_steam_game_launch_options, ids_text, launch_options_keys, launch_options_of, set_path_error_text,
    set_steam_game_launch_options,
};
use crate::path::{join_all, join_path, path_join, path_join_all};
use crate::text::{chars_of, push_str, string_of_range, trim, trim_bounds};
use crate::vdf::crud::set_path;
use crate::vdf::value::{Vdf, VdfValue};
use vstd::prelude::*;

verus! {

broadcast use vstd::string::group_string_axioms;

/// The Steam App ID of PUBG.
pub const PUBG_APP_ID: usize = 578080;

/// The PUBG launch options in a user's `localconfig.vdf` tree.
pub fn get_pubg_launch_options_by_steam_user_id(vdf: &VdfValue, steam_user_id: usize) -> (r: Result<String, String>)
    ensures
        match launch_options_of(vdf@, steam_user_id as nat, 578080) {
            Ok(s) => r is Ok && r.unwrap()@ == s,
            Err(e) => r is Err && r->Err_0@ == e,
        },
{
    get_steam_game_launch_options(vdf, steam_user_id, PUBG_APP_ID)
}

/// Writes the PUBG launch options into a user's `localconfig.vdf` tree.
pub fn set_pubg_launch_options_by_steam_user_id(vdf: &mut VdfValue, steam_user_id: usize, launch_options: &str) -> (r: Result<(), String>)
    ensures
        match set_path(old(vdf)@, launch_options_keys(578080), Vdf::Str(launch_options@)) {
            Ok(m) => r is Ok && final(vdf)@ == m,
            Err(e) => r is Err && final(vdf)@ == old(vdf)@ && r->Err_0@ == ids_text(
                "写入 Steam 启动项节点失败 user_id:"@,
                steam_user_id as nat,
                " game_id:"@,
                578080,
            ) + ": "@ + set_path_error_text(e),
        },
{
    set_steam_game_launch_options(vdf, steam_user_id, PUBG_APP_ID, launch_options)
}

/// A library folder that `libraryfolders.vdf` names, as its trimmed text.
pub fn trimmed_library_folder(library_folder: &str) -> (r: String)
    ensures
        r@ == trim(library_folder@),
{
    let v = chars_of(library_folder);
    let (a, b) = trim_bounds(&v, 0, v.len());
    assert(v@.subrange(0, v.len() as int) =~= library_folder@);
    string_of_range(&v, a, b)
}

/// Where a library folder lies.
#[derive(Debug, PartialEq, Eq)]
pub enum LibraryFolder {
    /// An absolute path, used as it is.
    AsGiven(String),
    /// A path relative to the Steam folder: the Steam folder, then the path.
    UnderSteam(String, String),
}

pub open spec fn relative_without_steam_message() -> Seq<char> {
    "Steam library folder path is relative but SteamPath is unavailable"@
}

/// Where the (trimmed) library folder lies: as given when it is absolute,
/// else under the Steam folder, which must be known. Whether a path is
/// absolute is the platform's rule (`Path::is_absolute`), so the caller
/// asks it and passes the answer as `absolute`.
pub fn locate_library_folder(trimmed: &str, absolute: bool, steam_path: Option<&str>) -> (r: Result<LibraryFolder, String>)
    ensures
        absolute ==> (r matches Ok(LibraryFolder::AsGiven(p)) && p@ == trimmed@),
        !absolute && steam_path is Some ==> (r matches Ok(LibraryFolder::UnderSteam(b, p)) && b@ == steam_path.unwrap()@
            && p@ == trimmed@),
        !absolute && steam_path is None ==> (r matches Err(e) && e@ == relative_without_steam_message()),
{
    if absolute {
        return Ok(LibraryFolder::AsGiven(trimmed.to_string()));
    }
    match steam_path {
        Some(s) => Ok(LibraryFolder::UnderSteam(s.to_string(), trimmed.to_string())),
        None => Err("Steam library folder path is relative but SteamPath is unavailable".to_string()),
    }
}

/// `<library>\steamapps\common\PUBG\TslGame\Content`.
pub open spec fn content_dir(library: Seq<char>) -> Seq<char> {
    join_all(library, seq!["steamapps"@, "common"@, "PUBG"@, "TslGame"@, "Content"@])
}

/// The movie folder and its disabled name, under the game's library folder.
pub fn pubg_movies_paths(library_folder: &str) -> (r: (String, String))
    ensures
        r.0@ == join_path(content_dir(library_folder@), "Movies"@),
        r.1@ == join_path(content_dir(library_folder@), "Movies_disabled"@),
{
    let parts: Vec<&str> = vec!["steamapps", "common", "PUBG", "TslGame", "Content"];
    proof {
        reveal_strlit("steamapps");
        reveal_strlit("common");
        reveal_strlit("PUBG");
        reveal_strlit("TslGame");
        reveal_strlit("Content");
        reveal_strlit("Movies");
        reveal_strlit("Movies_disabled");
    }
    assert(parts@.map_values(|q: &str| q@) =~= seq!["steamapps"@, "common"@, "PUBG"@, "TslGame"@, "Content"@]);
    let content = path_join_all(library_folder, parts.as_slice());
    (path_join(content.as_str(), "Movies"), path_join(content.as_str(), "Movies_disabled"))
}

/// The next step towards the wanted state of the intro movies.
#[derive(Debug, Clone, PartialEq, Eq)]
pub enum MoviesStep {
    /// Both folders exist: delete `Movies_disabled` (once), then look again.
    RemoveDisabledCopy,
    /// The wanted state holds already.
    Done,
    /// Rename `Movies` to `Movies_disabled`.
    RenameToDisabled,
    /// Rename `Movies_disabled` to `Movies`.
    RenameToMovies,
    /// Give up with this message.
    Fail(String),
}

/// The step, as a number (the order of the variants) and a message.
pub open spec fn movies_step(disabled: bool, movies_exists: bool, disabled_exists: bool, removed_once: bool, movies: Seq<char>, movies_disabled: Seq<char>) -> (int, Seq<char>) {
    if movies_exists && disabled_exists {
        if !removed_once {
            (0, seq![])
        } else {
            (4, "Movies 与 Movies_disabled 同时存在且无法删除 Movies_disabled: movies="@ + movies + " movies_disabled="@ + movies_disabled)
        }
    } else if disabled {
        if disabled_exists {
            (1, seq![])
        } else if !movies_exists {
            (4, "未找到 Movies 目录，无法禁用开场动画: "@ + movies)
        } else {
            (2, seq![])
        }
    } else {
        if movies_exists {
            (1, seq![])
        } else if !disabled_exists {
            (4, "未找到 Movies_disabled 目录，无法恢复开场动画: "@ + movies_disabled)
        } else {
            (3, seq![])
        }
    }
}

pub open spec fn step_view(s: MoviesStep) -> (int, Seq<char>) {
    match s {
        MoviesStep::RemoveDisabledCopy => (0, seq![]),
        MoviesStep::Done => (1, seq![]),
        MoviesStep::RenameToDisabled => (2, seq![]),
        MoviesStep::RenameToMovies => (3, seq![]),
        MoviesStep::Fail(m) => (4, m@),
    }
}

/// What to do next to turn the intro movies off (`disabled`) or on, given
/// which of the two folders exist and whether a leftover `Movies_disabled`
/// was deleted already. A second sight of both folders is an error, so the
/// caller's loop ends.
pub fn set_pubg_skip_intro_movies_disabled(
    disabled: bool,
    movies_exists: bool,
    disabled_exists: bool,
    removed_once: bool,
    movies: &str,
    movies_disabled: &str,
) -> (r: MoviesStep)
    ensures
        step_view(r) == movies_step(disabled, movies_exists, disabled_exists, removed_once, movies@, movies_disabled@),
{
    if movies_exists && disabled_exists {
        if !removed_once {
            return MoviesStep::RemoveDisabledCopy;
        }
        let mut m = String::new();
        push_str(&mut m, "Movies 与 Movies_disabled 同时存在且无法删除 Movies_disabled: movies=");
        push_str(&mut m, movies);
        push_str(&mut m, " movies_disabled=");
        push_str(&mut m, movies_disabled);
        return MoviesStep::Fail(m);
    }
    if disabled {
        if disabled_exists {
            MoviesStep::Done
        } else if !movies_exists {
            let mut m = String::new();
            push_str(&mut m, "未找到 Movies 目录，无法禁用开场动画: ");
            push_str(&mut m, movies);
            MoviesStep::Fail(m)
        } else {
            MoviesStep::RenameToDisabled
        }
    } else {
        if movies_exists {
            MoviesStep::Done
        } else if !disabled_exists {
            let mut m = String::new();
            push_str(&mut m, "未找到 Movies_disabled 目录，无法恢复开场动画: ");
            push_str(&mut m, movies_disabled);
            MoviesStep::Fail(m)
        } else {
            MoviesStep::RenameToMovies
        }
    }
}

/// The folders `(Movies exists, Movies_disabled exists)` once the switch has
/// run from the given ones, each step's file operation succeeding: deleting
/// `Movies_disabled`, or one of the two renames. `None` when it gives up.
pub open spec fn movies_after(disabled: bool, movies_exists: bool, disabled_exists: bool, removed_once: bool) -> Option<(bool, bool)>
    decreases (if removed_once { 0int } else { 1int }),
{
    let k = movies_step(disabled, movies_exists, disabled_exists, removed_once, seq![], seq![]).0;
    if k == 0 {
        if removed_once {
            None
        } else {
            movies_after(disabled, movies_exists, false, true)
        }
    } else if k == 1 {
        Some((movies_exists, disabled_exists))
    } else if k == 2 {
        Some((false, true))
    } else if k == 3 {
        Some((true, false))
    } else {
        None
    }
}

/// Turning the intro movies off or on, when the file operations succeed,
/// leaves exactly one of the two folders, `Movies_disabled` exactly when
/// they were turned off; a second call with the same flag finds nothing to
/// do. It gives up exactly when neither folder exists.
pub proof fn law_movies_switch(disabled: bool, movies_exists: bool, disabled_exists: bool, movies: Seq<char>, movies_disabled: Seq<char>)
    ensures
        movies_after(disabled, movies_exists, disabled_exists, false) is None <==> (!movies_exists && !disabled_exists),
        movies_after(disabled, movies_exists, disabled_exists, false) matches Some((m, d)) ==> {
            &&& m != d
            &&& d == disabled
            &&& movies_step(disabled, m, d, false, movies, movies_disabled).0 == 1
            &&& movies_after(disabled, m, d, false) == Some((m, d))
        },
{
    if movies_exists && disabled_exists {
        assert(movies_after(disabled, movies_exists, false, true) == movies_after(disabled, movies_exists, disabled_exists, false));
    }
}

} // verus!
