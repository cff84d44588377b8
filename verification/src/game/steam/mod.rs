//! Steam client data: launch options and game languages in
//! `localconfig.vdf`, library folders in `libraryfolders.vdf`, users.
//! Steam user ids are `userdata` directory names; game ids are App IDs.

pub mod language;
pub mod user;

use crate::game::ea_logs::str_contains;
use crate::text::{chars_of, contains_seq, nat_to_dec, push_str, str_eq, strs_view, u64_to_string};
use crate::utils::hex::{
    extract_last_field, hex_bytes, hex_decode, hex_decode_spec, hex_error_message, hex_error_text, is_hex_text,
    last_ok_field, lemma_hex_decode_chars,
};
use vstd::utf8::encode_utf8;
use crate::vdf::crud::{
    get_path, key_pos, law_get_after_set, lookup, set_path, SetPathError,
};
use crate::vdf::laws::{key_ok, law_parse_serialize_roundtrip};
use crate::vdf::parse::{parse, VdfSyntaxError};
use crate::vdf::unique::{keys_ok, law_parse_gives_unique_keys, law_set_keeps_keys_ok, law_set_keeps_keys_unique, lemma_wf_of_unique_ok};
use crate::vdf::value::{serialize, vdf_map_entries, Vdf, VdfValue};
use vstd::prelude::*;

verus! {

broadcast use vstd::string::group_string_axioms;

/// Steam counts as running when the registry names an active user other
/// than `0` (Steam writes `0` there when it exits normally).
pub fn steam_is_running_state_by_registry(active_user_id: Option<&str>) -> (r: bool)
    ensures
        r == (active_user_id is Some && active_user_id.unwrap()@ != "0"@),
{
    match active_user_id {
        Some(user_id) => !str_eq(user_id, "0"),
        None => false,
    }
}

/// Whether the output of `tasklist /FI "IMAGENAME eq steam.exe" /FO CSV`
/// names `steam.exe` (matched as written).
pub fn steam_listed_in_tasklist(output: &str) -> (r: bool)
    ensures
        r == contains_seq(output@, "steam.exe"@),
{
    str_contains(output, "steam.exe")
}

/// `UserLocalConfigStore > Software > Valve > Steam > apps > <game> > LaunchOptions`.
pub open spec fn launch_options_keys(game: nat) -> Seq<Seq<char>> {
    seq![
        "UserLocalConfigStore"@,
        "Software"@,
        "Valve"@,
        "Steam"@,
        "apps"@,
        nat_to_dec(game),
        "LaunchOptions"@,
    ]
}

/// `UserLocalConfigStore > UserAppConfig > <game>`.
pub open spec fn userappconfig_keys(game: nat) -> Seq<Seq<char>> {
    seq!["UserLocalConfigStore"@, "UserAppConfig"@, nat_to_dec(game)]
}

pub open spec fn strings_view(v: Seq<String>) -> Seq<Seq<char>> {
    v.map_values(|s: String| s@)
}

/// The key path of a game's launch options in `localconfig.vdf`.
pub fn get_launch_options_vdf_paths_by_game_id(steam_game_id: usize) -> (r: Vec<String>)
    ensures
        strings_view(r@) == launch_options_keys(steam_game_id as nat),
{
    let mut v: Vec<String> = Vec::new();
    v.push("UserLocalConfigStore".to_string());
    v.push("Software".to_string());
    v.push("Valve".to_string());
    v.push("Steam".to_string());
    v.push("apps".to_string());
    v.push(u64_to_string(steam_game_id as u64));
    v.push("LaunchOptions".to_string());
    assert(strings_view(v@) =~= launch_options_keys(steam_game_id as nat));
    v
}

/// The key path of a game's user settings (its language among them).
pub fn get_userappconfig_vdf_paths_by_game_id(steam_game_id: usize) -> (r: Vec<String>)
    ensures
        strings_view(r@) == userappconfig_keys(steam_game_id as nat),
{
    let mut v: Vec<String> = Vec::new();
    v.push("UserLocalConfigStore".to_string());
    v.push("UserAppConfig".to_string());
    v.push(u64_to_string(steam_game_id as u64));
    assert(strings_view(v@) =~= userappconfig_keys(steam_game_id as nat));
    v
}

/// Borrowed views of the strings of `v`, for path lookups.
pub fn as_strs(v: &Vec<String>) -> (r: Vec<&str>)
    ensures
        strs_view(r@) == strings_view(v@),
{
    let mut r: Vec<&str> = Vec::new();
    let mut i: usize = 0;
    while i < v.len()
        invariant
            i <= v@.len(),
            strs_view(r@) == strings_view(v@).take(i as int),
        decreases v@.len() - i,
    {
        let ghost before = r@;
        let s: &str = v[i].as_str();
        r.push(s);
        assert(strs_view(r@) =~= strs_view(before).push(s@));
        assert(strings_view(v@).take(i + 1) =~= strings_view(v@).take(i as int).push(v@[i as int]@));
        i = i + 1;
    }
    assert(strings_view(v@).take(v@.len() as int) =~= strings_view(v@));
    r
}

/// `user:<user> game_id:<game>`-style suffixes of the messages below.
pub open spec fn ids_text(a: Seq<char>, user: nat, b: Seq<char>, game: nat) -> Seq<char> {
    a + nat_to_dec(user) + b + nat_to_dec(game)
}

fn ids_message(a: &str, user: usize, b: &str, game: usize) -> (r: String)
    ensures
        r@ == ids_text(a@, user as nat, b@, game as nat),
{
    let mut m = String::new();
    push_str(&mut m, a);
    let u = u64_to_string(user as u64);
    push_str(&mut m, u.as_str());
    push_str(&mut m, b);
    let g = u64_to_string(game as u64);
    push_str(&mut m, g.as_str());
    m
}

/// A game's launch options: the string at its launch-options path, the empty
/// string when that path is absent (never set), an error when it is an object.
pub open spec fn launch_options_of(m: Vdf, user: nat, game: nat) -> Result<Seq<char>, Seq<char>> {
    match get_path(m, launch_options_keys(game)) {
        None => Ok(seq![]),
        Some(Vdf::Str(s)) => Ok(s),
        Some(Vdf::Obj(_)) => Err(ids_text("Steam 启动项节点不是字符串 user:"@, user, " game_id:"@, game)),
    }
}

/// The launch options of a game in the user's `localconfig.vdf` tree.
pub fn get_steam_game_launch_options(vdf: &VdfValue, steam_user_id: usize, steam_game_id: usize) -> (r: Result<String, String>)
    ensures
        match launch_options_of(vdf@, steam_user_id as nat, steam_game_id as nat) {
            Ok(s) => r is Ok && r.unwrap()@ == s,
            Err(e) => r is Err && r->Err_0@ == e,
        },
{
    let keys = get_launch_options_vdf_paths_by_game_id(steam_game_id);
    let path = as_strs(&keys);
    match vdf.get_by_path(path.as_slice()) {
        Some(value) => match value.as_string() {
            Some(s) => Ok(s.to_string()),
            None => Err(ids_message("Steam 启动项节点不是字符串 user:", steam_user_id, " game_id:", steam_game_id)),
        },
        None => Ok(String::new()),
    }
}

/// The message of a refused write of launch options.
pub open spec fn set_path_error_text(e: SetPathError) -> Seq<char> {
    match e {
        SetPathError::PathNotFound => "Path not found"@,
        SetPathError::ParentNotObject => "Parent is not an object"@,
    }
}

/// Writes a game's launch options into the user's `localconfig.vdf` tree:
/// the string leaf at its launch-options path, which needs the `apps` entry
/// of the game (the node above the leaf) to exist as an object.
pub fn set_steam_game_launch_options(
    vdf: &mut VdfValue,
    steam_user_id: usize,
    steam_game_id: usize,
    launch_options: &str,
) -> (r: Result<(), String>)
    ensures
        match set_path(old(vdf)@, launch_options_keys(steam_game_id as nat), Vdf::Str(launch_options@)) {
            Ok(m) => r is Ok && final(vdf)@ == m,
            Err(e) => r is Err && final(vdf)@ == old(vdf)@ && r->Err_0@ == ids_text(
                "写入 Steam 启动项节点失败 user_id:"@,
                steam_user_id as nat,
                " game_id:"@,
                steam_game_id as nat,
            ) + ": "@ + set_path_error_text(e),
        },
{
    let keys = get_launch_options_vdf_paths_by_game_id(steam_game_id);
    let path = as_strs(&keys);
    match vdf.set_value_by_path(path.as_slice(), launch_options) {
        Ok(()) => Ok(()),
        Err(e) => {
            let mut m = ids_message("写入 Steam 启动项节点失败 user_id:", steam_user_id, " game_id:", steam_game_id);
            push_str(&mut m, ": ");
            push_str(&mut m, e.as_str());
            Err(m)
        },
    }
}

/// Launch options read back right after a successful write are exactly the
/// options written, for every user and game.
pub proof fn law_launch_options_roundtrip(m: Vdf, user: nat, game: nat, opts: Seq<char>)
    requires
        set_path(m, launch_options_keys(game), Vdf::Str(opts)) is Ok,
    ensures
        launch_options_of(set_path(m, launch_options_keys(game), Vdf::Str(opts))->Ok_0, user, game)
            == Ok::<Seq<char>, Seq<char>>(opts),
{
    law_get_after_set(m, launch_options_keys(game), Vdf::Str(opts));
}

/// Launch options written into a `localconfig.vdf` text whose keys carry
/// no `"` and no `\`, then written out as text, read back from that text
/// exactly: the text parses to the tree that was written, and the options
/// read from it are the options written, whatever characters they hold.
pub proof fn law_launch_options_file_roundtrip(t: Seq<char>, user: nat, game: nat, opts: Seq<char>)
    requires
        parse(t) is Ok,
        keys_ok(parse(t)->Ok_0),
        set_path(parse(t)->Ok_0, launch_options_keys(game), Vdf::Str(opts)) is Ok,
    ensures
        ({
            let m2 = set_path(parse(t)->Ok_0, launch_options_keys(game), Vdf::Str(opts))->Ok_0;
            &&& parse(serialize(m2)) == Ok::<Vdf, VdfSyntaxError>(m2)
            &&& launch_options_of(parse(serialize(m2))->Ok_0, user, game) == Ok::<Seq<char>, Seq<char>>(opts)
        }),
{
    let m = parse(t)->Ok_0;
    let path = launch_options_keys(game);
    let x = Vdf::Str(opts);
    let m2 = set_path(m, path, x)->Ok_0;
    law_parse_gives_unique_keys(t);
    law_set_keeps_keys_unique(m, path, x);
    assert(key_ok(path.last())) by {
        reveal_strlit("LaunchOptions");
        assert(path.last() == "LaunchOptions"@);
    }
    law_set_keeps_keys_ok(m, path, x);
    lemma_wf_of_unique_ok(m2);
    if let Vdf::Obj(es2) = m2 {
        law_parse_serialize_roundtrip(es2);
    }
    law_launch_options_roundtrip(m, user, game, opts);
}

/// A game's language: its user-settings entry is hexadecimal text of
/// `\0`-separated fields, and the language is the last field worth reading.
pub open spec fn game_language_of(m: Vdf, user: nat, game: nat) -> Result<Seq<char>, Seq<char>> {
    match get_path(m, userappconfig_keys(game)) {
        None => Err(ids_text("language Steam game config store get value user:"@, user, " \tgame_id:"@, game)),
        Some(Vdf::Obj(_)) => Err(ids_text("Steam game language not a string user:"@, user, " \tgame_id:"@, game)),
        Some(Vdf::Str(h)) => if is_hex_text(h) {
            match last_ok_field(crate::text::split_on(hex_bytes(h), 0u8)) {
                Some(f) => Ok(vstd::utf8::decode_utf8(f)),
                None => Err("extract_last_field not find"@),
            }
        } else {
            Err(ids_text("Steam game language hex decode failed user:"@, user, " game_id:"@, game) + ": "@
                + hex_error_text(hex_decode_spec(encode_utf8(h))->Err_0))
        },
    }
}

/// The language a user chose for a game, from the user's `localconfig.vdf`
/// tree. When the stored text is not hexadecimal the error carries the
/// decoder's `Debug` text.
pub fn get_steam_game_language(vdf: &VdfValue, steam_user_id: usize, steam_game_id: usize) -> (r: Result<String, String>)
    ensures
        match game_language_of(vdf@, steam_user_id as nat, steam_game_id as nat) {
            Ok(s) => r is Ok && r.unwrap()@ == s,
            Err(e) => r is Err && r->Err_0@ == e,
        },
{
    let keys = get_userappconfig_vdf_paths_by_game_id(steam_game_id);
    let path = as_strs(&keys);
    match vdf.get_by_path(path.as_slice()) {
        Some(value) => match value.as_string() {
            Some(config_store) => {
                proof {
                    lemma_hex_decode_chars(config_store@);
                }
                let bytes = match hex_decode(config_store) {
                    Ok(b) => b,
                    Err(e) => {
                        let mut m = ids_message("Steam game language hex decode failed user:", steam_user_id, " game_id:", steam_game_id);
                        push_str(&mut m, ": ");
                        push_str(&mut m, hex_error_message(&e).as_str());
                        return Err(m);
                    },
                };
                match extract_last_field(bytes.as_slice()) {
                    Some(last_field) => Ok(last_field),
                    None => Err("extract_last_field not find".to_string()),
                }
            },
            None => Err(ids_message("Steam game language not a string user:", steam_user_id, " \tgame_id:", steam_game_id)),
        },
        None => Err(ids_message("language Steam game config store get value user:", steam_user_id, " \tgame_id:", steam_game_id)),
    }
}

/// Whether the library entry lists the game among its `apps`.
pub open spec fn library_has_app(lib: Vdf, id: Seq<char>) -> bool {
    match lookup(lib, "apps"@) {
        Some(Vdf::Obj(apps)) => key_pos(apps, id) >= 0,
        _ => false,
    }
}

/// Position of the first library entry that lists the game, or `-1`.
pub open spec fn first_library_with(es: Seq<(Seq<char>, Vdf)>, id: Seq<char>) -> int
    decreases es.len(),
{
    if es.len() == 0 {
        -1
    } else if library_has_app(es[0].1, id) {
        0
    } else {
        let r = first_library_with(es.drop_first(), id);
        if r < 0 {
            -1
        } else {
            r + 1
        }
    }
}

pub proof fn lemma_first_library_with(es: Seq<(Seq<char>, Vdf)>, id: Seq<char>, i: int)
    requires
        0 <= i <= es.len(),
        forall|j: int| 0 <= j < i ==> !library_has_app(#[trigger] es[j].1, id),
        i == es.len() || library_has_app(es[i].1, id),
    ensures
        first_library_with(es, id) == (if i == es.len() { -1 } else { i }),
    decreases i,
{
    if i > 0 {
        let t = es.drop_first();
        assert forall|j: int| 0 <= j < i - 1 implies !library_has_app(#[trigger] t[j].1, id) by {
            assert(t[j] == es[j + 1]);
        }
        if i < es.len() {
            assert(t[i - 1] == es[i]);
        }
        lemma_first_library_with(t, id, i - 1);
    }
}

pub open spec fn no_libraries_text() -> Seq<char> {
    "Steam game libraryfolders.vdf path 'libraryfolders' doesn't exist"@
}

/// The folder of the first library (in file order) whose `apps` list the
/// game, read from the `libraryfolders.vdf` tree.
pub open spec fn library_folder_of(m: Vdf, game: nat) -> Result<Seq<char>, Seq<char>> {
    match lookup(m, "libraryfolders"@) {
        None => Err("Steam game libraryfolders.vdf doesn't exist"@),
        Some(Vdf::Str(_)) => Err(no_libraries_text()),
        Some(Vdf::Obj(libs)) => {
            let i = first_library_with(libs, nat_to_dec(game));
            if i < 0 {
                Err("folders not find "@ + nat_to_dec(game))
            } else {
                match lookup(libs[i].1, "path"@) {
                    Some(Vdf::Str(p)) => Ok(p),
                    _ => Err(no_libraries_text()),
                }
            }
        },
    }
}

/// Whether the library entry `lib` lists the game `id`.
fn library_lists(lib: &VdfValue, id: &str) -> (r: bool)
    ensures
        r == library_has_app(lib@, id@),
{
    match lib.get("apps") {
        Some(apps) => match apps.as_object() {
            Some(es) => es.get_index_of(id).is_some(),
            None => false,
        },
        None => false,
    }
}

/// The library folder that holds a game, from the `libraryfolders.vdf` tree.
pub fn get_steam_game_library_folder_by_game_id(vdf: &VdfValue, steam_game_id: usize) -> (r: Result<String, String>)
    ensures
        match library_folder_of(vdf@, steam_game_id as nat) {
            Ok(s) => r is Ok && r.unwrap()@ == s,
            Err(e) => r is Err && r->Err_0@ == e,
        },
{
    let id = u64_to_string(steam_game_id as u64);
    let folders = match vdf.get("libraryfolders") {
        Some(f) => f,
        None => {
            return Err("Steam game libraryfolders.vdf doesn't exist".to_string());
        },
    };
    let libs = match folders.as_object() {
        Some(es) => es,
        None => {
            return Err("Steam game libraryfolders.vdf path 'libraryfolders' doesn't exist".to_string());
        },
    };
    let ghost em = vdf_map_entries(*libs);
    let n = libs.len();
    let mut i: usize = 0;
    while i < n
        invariant
            i <= n == em.len(),
            em == vdf_map_entries(*libs),
            lookup(vdf@, "libraryfolders"@) == Some(Vdf::Obj(em)),
            id@ == nat_to_dec(steam_game_id as nat),
            forall|j: int| 0 <= j < i ==> !library_has_app(#[trigger] em[j].1, id@),
        decreases n - i,
    {
        let lib = libs.get_index(i).1;
        assert(em[i as int].1 == lib@);
        if library_lists(lib, id.as_str()) {
            proof {
                lemma_first_library_with(em, id@, i as int);
            }
            return match lib.get_value("path") {
                Some(p) => Ok(p.to_string()),
                None => Err("Steam game libraryfolders.vdf path 'libraryfolders' doesn't exist".to_string()),
            };
        }
        i = i + 1;
    }
    proof {
        lemma_first_library_with(em, id@, em.len() as int);
    }
    let mut m = String::new();
    push_str(&mut m, "folders not find ");
    push_str(&mut m, id.as_str());
    Err(m)
}

} // verus!
