//! Apex Legends (Steam App ID 1172470): launch options, the audio folders
//! whose language files tell which voice languages are installed, depot
//! download folders, and the local configuration files.

pub mod config;
pub mod video_text;

use crate::game::apex::config::value::{
    kv_pairs, lines_view, pairs_insert, string_map_insert, string_map_new, string_map_pairs, ApexCfgDocument, ApexCfgLine,
    CfgLine,
};
use crate::game::apex::config::value::doc_text;
use crate::game::ea::{eq_ignore_ascii_case, ini_pairs, pairs_view, parse_ini_lines, str_eq_ignore_ascii_case};
use crate::game::steam::{
    get_steam_game_launch_options, get_steam_game_library_folder_by_game_id, launch_options_keys,
    launch_options_of, library_folder_of, set_path_error_text, set_steam_game_launch_options, ids_text,
};
use crate::path::{join_all, join_path, path_join, path_join_all, relative_component};
use crate::game::ea_logs::{ascii_lower_seq, str_ascii_lower, str_contains};
use crate::text::{
    chars_of, contains_seq, lines, nat_to_dec, push_str, range_starts_with, string_of_range, strs_view, trim_char,
    trim_char_bounds, u64_to_string,
};
use crate::vdf::crud::set_path;
use crate::vdf::value::{Vdf, VdfValue};
use vstd::prelude::*;

verus! {

broadcast use vstd::string::group_string_axioms;

/// The Steam App ID of Apex Legends.
pub const APEX_APP_ID: usize = 1172470;

/// The image names of the Apex game process, in the order they are looked for.
pub fn apex_process_names() -> (r: Vec<&'static str>)
    ensures
        strs_view(r@) == seq!["r5apex.exe"@, "r5apex_dx12.exe"@],
{
    let r = vec!["r5apex.exe", "r5apex_dx12.exe"];
    assert(strs_view(r@) =~= seq!["r5apex.exe"@, "r5apex_dx12.exe"@]);
    r
}

/// Whether `tasklist` output, in ASCII lower case, names the image `name`.
pub fn apex_listed_in_tasklist(output: &str, name: &str) -> (r: bool)
    ensures
        r == contains_seq(ascii_lower_seq(output@), name@),
{
    let lower = str_ascii_lower(output);
    str_contains(lower.as_str(), name)
}

/// The Apex launch options in a user's `localconfig.vdf` tree.
pub fn get_apex_launch_options_by_steam_user_id(vdf: &VdfValue, steam_user_id: usize) -> (r: Result<String, String>)
    ensures
        match launch_options_of(vdf@, steam_user_id as nat, 1172470) {
            Ok(s) => r is Ok && r.unwrap()@ == s,
            Err(e) => r is Err && r->Err_0@ == e,
        },
{
    get_steam_game_launch_options(vdf, steam_user_id, APEX_APP_ID)
}

/// Writes the Apex launch options into a user's `localconfig.vdf` tree.
pub fn set_apex_launch_options_by_steam_user_id(vdf: &mut VdfValue, steam_user_id: usize, launch_options: &str) -> (r: Result<(), String>)
    ensures
        match set_path(old(vdf)@, launch_options_keys(1172470), Vdf::Str(launch_options@)) {
            Ok(m) => r is Ok && final(vdf)@ == m,
            Err(e) => r is Err && final(vdf)@ == old(vdf)@ && r->Err_0@ == ids_text(
                "写入 Steam 启动项节点失败 user_id:"@,
                steam_user_id as nat,
                " game_id:"@,
                1172470,
            ) + ": "@ + set_path_error_text(e),
        },
{
    set_steam_game_launch_options(vdf, steam_user_id, APEX_APP_ID, launch_options)
}

/// Where the game comes from.
#[derive(Debug, Clone, Copy, PartialEq, Eq, Structural)]
pub enum ApexPlatform {
    Steam,
    Ea,
}

/// `ea` in any ASCII case names EA; anything else, or nothing, names Steam.
pub open spec fn platform_of(platform: Option<Seq<char>>) -> ApexPlatform {
    match platform {
        Some(p) => if eq_ignore_ascii_case(p, "ea"@) {
            ApexPlatform::Ea
        } else {
            ApexPlatform::Steam
        },
        None => ApexPlatform::Steam,
    }
}

pub open spec fn opt_str(o: Option<&str>) -> Option<Seq<char>> {
    match o {
        Some(s) => Some(s@),
        None => None,
    }
}

/// The platform a platform name stands for.
pub fn apex_platform(platform: Option<&str>) -> (r: ApexPlatform)
    ensures
        r == platform_of(opt_str(platform)),
{
    match platform {
        Some(p) => if str_eq_ignore_ascii_case(p, "ea") {
            ApexPlatform::Ea
        } else {
            ApexPlatform::Steam
        },
        None => ApexPlatform::Steam,
    }
}

/// `<library>\steamapps\common\Apex Legends\audio\ship`.
pub open spec fn steam_audio_folder(library: Seq<char>) -> Seq<char> {
    join_all(library, seq!["steamapps"@, "common"@, "Apex Legends"@, "audio"@, "ship"@])
}

/// The audio folder of the Steam installation in a library folder.
pub fn apex_audio_folder_in_library(library_folder: &str) -> (r: String)
    ensures
        r@ == steam_audio_folder(library_folder@),
{
    let parts: Vec<&str> = vec!["steamapps", "common", "Apex Legends", "audio", "ship"];
    proof {
        reveal_strlit("steamapps");
        reveal_strlit("common");
        reveal_strlit("Apex Legends");
        reveal_strlit("audio");
        reveal_strlit("ship");
    }
    assert(parts@.map_values(|q: &str| q@) =~= seq!["steamapps"@, "common"@, "Apex Legends"@, "audio"@, "ship"@]);
    path_join_all(library_folder, parts.as_slice())
}

/// The Steam audio folder, found through the `libraryfolders.vdf` tree.
pub fn get_apex_audio_folder_path(libraryfolders: &VdfValue) -> (r: Option<String>)
    ensures
        match library_folder_of(libraryfolders@, 1172470) {
            Ok(l) => r is Some && r.unwrap()@ == steam_audio_folder(l),
            Err(_) => r is None,
        },
{
    match get_steam_game_library_folder_by_game_id(libraryfolders, APEX_APP_ID) {
        Ok(l) => Some(apex_audio_folder_in_library(l.as_str())),
        Err(_) => None,
    }
}

/// The first non-empty `user.downloadinplacedir` (key in any ASCII case,
/// value without surrounding quotes) among the pairs.
pub open spec fn download_dir_in(ps: Seq<(Seq<char>, Seq<char>)>) -> Option<Seq<char>>
    decreases ps.len(),
{
    if ps.len() == 0 {
        None
    } else if eq_ignore_ascii_case(ps[0].0, "user.downloadinplacedir"@) && trim_char(ps[0].1, '"').len() > 0 {
        Some(trim_char(ps[0].1, '"'))
    } else {
        download_dir_in(ps.drop_first())
    }
}

/// `value.trim_matches('"')`.
fn trim_quotes(value: &str) -> (r: String)
    ensures
        r@ == trim_char(value@, '"'),
{
    let v = chars_of(value);
    let (a, b) = crate::text::trim_char_bounds(&v, 0, v.len(), '"');
    assert(v@.subrange(0, v@.len() as int) =~= v@);
    string_of_range(&v, a, b)
}

/// The EA installation folder (`user.downloadinplacedir`) that the text of
/// a user's INI file names.
pub fn get_ea_user_download_in_place_dir(ini_content: &str) -> (r: Option<String>)
    ensures
        match download_dir_in(ini_pairs(lines(ini_content@))) {
            Some(d) => r is Some && r.unwrap()@ == d,
            None => r is None,
        },
{
    let pairs = parse_ini_lines(ini_content);
    let ghost pv = pairs_view(pairs@);
    let mut i: usize = 0;
    assert(pv.skip(0) =~= pv);
    while i < pairs.len()
        invariant
            i <= pairs@.len(),
            pv == pairs_view(pairs@),
            pv == ini_pairs(lines(ini_content@)),
            download_dir_in(pv) == download_dir_in(pv.skip(i as int)),
        decreases pairs@.len() - i,
    {
        let ghost rest = pv.skip(i as int);
        assert(rest[0] == (pairs@[i as int].0@, pairs@[i as int].1@));
        assert(rest.drop_first() =~= pv.skip(i + 1));
        if str_eq_ignore_ascii_case(pairs[i].0.as_str(), "user.downloadinplacedir") {
            let dir = trim_quotes(pairs[i].1.as_str());
            if dir.as_str().unicode_len() > 0 {
                return Some(dir);
            }
        }
        i = i + 1;
    }
    None
}

/// `<EA folder>\Apex\audio\ship`.
pub open spec fn ea_audio_folder(base: Seq<char>) -> Seq<char> {
    join_all(base, seq!["Apex"@, "audio"@, "ship"@])
}

/// The audio folder of the EA installation, from the text of the user's
/// INI file.
pub fn get_apex_audio_folder_path_ea(ini_content: &str) -> (r: Option<String>)
    ensures
        match download_dir_in(ini_pairs(lines(ini_content@))) {
            Some(d) => r is Some && r.unwrap()@ == ea_audio_folder(d),
            None => r is None,
        },
{
    match get_ea_user_download_in_place_dir(ini_content) {
        Some(base) => {
            let parts: Vec<&str> = vec!["Apex", "audio", "ship"];
            proof {
                reveal_strlit("Apex");
                reveal_strlit("audio");
                reveal_strlit("ship");
            }
            assert(parts@.map_values(|q: &str| q@) =~= seq!["Apex"@, "audio"@, "ship"@]);
            Some(path_join_all(base.as_str(), parts.as_slice()))
        },
        None => None,
    }
}

/// The audio folder for the platform: the Steam one from the
/// `libraryfolders.vdf` tree, the EA one from the user's INI text (absent
/// inputs give no folder; callers read only what the platform needs).
pub open spec fn audio_folder_for(platform: Option<Seq<char>>, libraryfolders: Option<Vdf>, ea_ini: Option<Seq<char>>) -> Option<Seq<char>> {
    match platform_of(platform) {
        ApexPlatform::Ea => match ea_ini {
            Some(c) => match download_dir_in(ini_pairs(lines(c))) {
                Some(d) => Some(ea_audio_folder(d)),
                None => None,
            },
            None => None,
        },
        ApexPlatform::Steam => match libraryfolders {
            Some(m) => match library_folder_of(m, 1172470) {
                Ok(l) => Some(steam_audio_folder(l)),
                Err(_) => None,
            },
            None => None,
        },
    }
}

pub open spec fn opt_vdf(o: Option<&VdfValue>) -> Option<Vdf> {
    match o {
        Some(v) => Some(v@),
        None => None,
    }
}

pub open spec fn opt_string(o: Option<String>) -> Option<Seq<char>> {
    match o {
        Some(s) => Some(s@),
        None => None,
    }
}

/// The audio folder of the game on the given platform (Steam by default).
pub fn get_apex_audio_folder_path_by_platform(
    platform: Option<&str>,
    libraryfolders: Option<&VdfValue>,
    ea_user_ini: Option<&str>,
) -> (r: Option<String>)
    ensures
        opt_string(r) == audio_folder_for(opt_str(platform), opt_vdf(libraryfolders), opt_str(ea_user_ini)),
{
    match apex_platform(platform) {
        ApexPlatform::Ea => match ea_user_ini {
            Some(c) => get_apex_audio_folder_path_ea(c),
            None => None,
        },
        ApexPlatform::Steam => match libraryfolders {
            Some(m) => get_apex_audio_folder_path(m),
            None => None,
        },
    }
}

/// `<Steam>\steamapps\content\app_1172470\depot_<depot>\audio\ship`.
pub open spec fn depot_folder(steam: Seq<char>, depot: nat) -> Seq<char> {
    join_all(
        steam,
        seq!["steamapps"@, "content"@, "app_1172470"@, "depot_"@ + nat_to_dec(depot), "audio"@, "ship"@],
    )
}

/// Where Steam downloads a depot of the game, under the Steam folder
/// (`None` when the Steam folder is unknown).
pub fn get_apex_depot_download_folder_path(steam_path: Option<&str>, depot: usize) -> (r: Option<String>)
    ensures
        match steam_path {
            Some(s) => r is Some && r.unwrap()@ == depot_folder(s@, depot as nat),
            None => r is None,
        },
{
    match steam_path {
        Some(steam) => {
            let mut d = "depot_".to_string();
            let n = u64_to_string(depot as u64);
            push_str(&mut d, n.as_str());
            let parts: Vec<&str> = vec!["steamapps", "content", "app_1172470", d.as_str(), "audio", "ship"];
            proof {
                reveal_strlit("steamapps");
                reveal_strlit("content");
                reveal_strlit("app_1172470");
                reveal_strlit("depot_");
                reveal_strlit("audio");
                reveal_strlit("ship");
            }
            assert(parts@.map_values(|q: &str| q@) =~= seq![
                "steamapps"@,
                "content"@,
                "app_1172470"@,
                "depot_"@ + nat_to_dec(depot as nat),
                "audio"@,
                "ship"@,
            ]);
            Some(path_join_all(steam, parts.as_slice()))
        },
        None => None,
    }
}

/// The download folder for the platform: the depot folder on Steam, the
/// audio folder of the EA installation on EA.
pub fn get_apex_download_folder_path_by_platform(
    depot: usize,
    platform: Option<&str>,
    steam_path: Option<&str>,
    ea_user_ini: Option<&str>,
) -> (r: Option<String>)
    ensures
        platform_of(opt_str(platform)) == ApexPlatform::Ea ==> opt_string(r) == audio_folder_for(opt_str(platform), None, opt_str(ea_user_ini)),
        platform_of(opt_str(platform)) == ApexPlatform::Steam ==> opt_string(r) == (match steam_path {
            Some(s) => Some(depot_folder(s@, depot as nat)),
            None => None,
        }),
{
    match apex_platform(platform) {
        ApexPlatform::Ea => match ea_user_ini {
            Some(c) => get_apex_audio_folder_path_ea(c),
            None => None,
        },
        ApexPlatform::Steam => get_apex_depot_download_folder_path(steam_path, depot),
    }
}

/// `general_<language>.mstr` and `general_<language>_patch_1.mstr` in the
/// audio folder: a voice language is installed when both exist.
pub open spec fn miles_files(folder: Seq<char>, language: Seq<char>) -> (Seq<char>, Seq<char>) {
    (
        join_path(folder, "general_"@ + language + ".mstr"@),
        join_path(folder, "general_"@ + language + "_patch_1.mstr"@),
    )
}

/// The two files whose presence shows that a voice language is installed,
/// or the error for a missing audio folder.
pub fn check_apex_miles_language(audio_folder: Option<&str>, language: &str) -> (r: Result<(String, String), String>)
    ensures
        match audio_folder {
            Some(f) => r matches Ok(p) && (p.0@, p.1@) == miles_files(f@, language@),
            None => r matches Err(e) && e@ == "Apex 音频目录未找到 platform=None"@,
        },
{
    match audio_folder {
        Some(folder) => {
            let mut g = "general_".to_string();
            push_str(&mut g, language);
            let mut p = g.clone();
            push_str(&mut g, ".mstr");
            push_str(&mut p, "_patch_1.mstr");
            proof {
                reveal_strlit("general_");
            }
            Ok((path_join(folder, g.as_str()), path_join(folder, p.as_str())))
        },
        None => Err("Apex 音频目录未找到 platform=None".to_string()),
    }
}

/// The path of `videoconfig.txt` under the user profile.
pub fn get_apex_videoconfig_path(user_profile: Option<&str>) -> (r: Result<String, String>)
    ensures
        match config::file::saved_games_root(opt_str(user_profile)) {
            Ok(s) => r is Ok && r.unwrap()@ == config::file::config_path(s, config::ApexConfigFileKind::VideoConfig),
            Err(e) => r is Err && r->Err_0@ == e,
        },
{
    config::file::get_apex_config_path(user_profile, config::ApexConfigFileKind::VideoConfig)
}

/// The `setting.*` values of the lines: each key/value line whose key,
/// without its quotes, starts with `setting.`, under that unquoted key; a
/// later line of a key replaces its value.
pub open spec fn setting_pairs(ls: Seq<CfgLine>) -> Seq<(Seq<char>, Seq<char>)>
    decreases ls.len(),
{
    if ls.len() == 0 {
        seq![]
    } else {
        let acc = setting_pairs(ls.drop_last());
        match ls.last() {
            CfgLine::KeyValue { key, value, .. } => {
                let k = trim_char(key, '"');
                if "setting."@.is_prefix_of(k) {
                    pairs_insert(acc, k, value)
                } else {
                    acc
                }
            },
            CfgLine::Raw(_) => acc,
        }
    }
}

/// The text of a `videoconfig.txt` document and its `setting.*` values,
/// keyed without quotes.
pub fn read_apex_videoconfig(doc: &ApexCfgDocument) -> (r: (String, indexmap::IndexMap<String, String>))
    ensures
        r.0@ == doc_text(lines_view(doc.lines@)),
        string_map_pairs(r.1) == setting_pairs(lines_view(doc.lines@)),
{
    let ghost ls = lines_view(doc.lines@);
    let mut map = string_map_new();
    let mut i: usize = 0;
    assert(ls.take(0) =~= Seq::<CfgLine>::empty());
    while i < doc.lines.len()
        invariant
            i <= doc.lines.len(),
            ls == lines_view(doc.lines@),
            string_map_pairs(map) == setting_pairs(ls.take(i as int)),
        decreases doc.lines.len() - i,
    {
        proof {
            assert(ls.take(i + 1).drop_last() =~= ls.take(i as int));
            assert(ls.take(i + 1).last() == doc.lines@[i as int]@);
        }
        match &doc.lines[i] {
            ApexCfgLine::KeyValue { key, value, .. } => {
                let kv = chars_of(key.as_str());
                let (a, b) = trim_char_bounds(&kv, 0, kv.len(), '"');
                assert(kv@.subrange(0, kv@.len() as int) =~= kv@);
                let is_setting = range_starts_with(&kv, a, b, "setting.");
                proof {
                    let k = kv@.subrange(a as int, b as int);
                    if "setting."@.len() <= b - a {
                        assert(kv@.subrange(a as int, a + "setting."@.len()) =~= k.subrange(0, "setting."@.len() as int));
                    }
                }
                if is_setting {
                    string_map_insert(&mut map, string_of_range(&kv, a, b), value.clone());
                }
            },
            ApexCfgLine::Raw(_) => {},
        }
        i = i + 1;
    }
    assert(ls.take(doc.lines.len() as int) =~= ls);
    (doc.to_string(), map)
}

} // verus!
