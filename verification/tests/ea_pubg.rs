use windows_tool::game::ea::{
    get_apex_launch_option_ea, parse_ini_lines, set_apex_launch_option_ea, user_ini_file_name,
};
use windows_tool::game::pubg::{
    get_pubg_launch_options_by_steam_user_id, pubg_movies_paths, set_pubg_launch_options_by_steam_user_id,
    set_pubg_skip_intro_movies_disabled, MoviesStep, locate_library_folder, trimmed_library_folder, LibraryFolder,
};
use windows_tool::vdf::parse::parse_vdf_string;

#[test]
fn ini_pairs() {
    let ini = "  ; note\n#x\nuser.a = 1\r\nbad line\n k = v=w \n\n";
    let pairs = parse_ini_lines(ini);
    assert_eq!(
        pairs,
        vec![("user.a".to_string(), "1".to_string()), ("k".to_string(), "v=w".to_string())]
    );
}

#[test]
fn apex_option_get_and_set() {
    let ini = "user.a=1\nUSER.GameCommandLine.origin.ofr.50.0002694=-dev\n";
    assert_eq!(get_apex_launch_option_ea(ini), "-dev");
    assert_eq!(get_apex_launch_option_ea("user.a=1\n"), "");
    let written = set_apex_launch_option_ea(ini, "+fps_max 144");
    assert_eq!(written, "user.a=1\nUSER.GameCommandLine.origin.ofr.50.0002694=+fps_max 144\n");
    assert_eq!(get_apex_launch_option_ea(&written), "+fps_max 144");
    let added = set_apex_launch_option_ea("# only a comment\n", "-x");
    assert_eq!(added, "user.gamecommandline.origin.ofr.50.0002694=-x\n");
    assert_eq!(get_apex_launch_option_ea(&added), "-x");
}

#[test]
fn ea_ini_names() {
    assert_eq!(user_ini_file_name("123").unwrap(), "user_123.ini");
    assert_eq!(user_ini_file_name("").unwrap(), "user_.ini");
    assert_eq!(user_ini_file_name("12a").unwrap_err(), "无效的 EA 用户 id");
}

#[test]
fn pubg_launch_options() {
    let mut vdf = parse_vdf_string(
        "UserLocalConfigStore { Software { Valve { Steam { apps { 578080 { } } } } } }",
    )
    .unwrap();
    assert_eq!(get_pubg_launch_options_by_steam_user_id(&vdf, 1), Ok(String::new()));
    set_pubg_launch_options_by_steam_user_id(&mut vdf, 1, "-USEALLAVAILABLECORES").unwrap();
    assert_eq!(get_pubg_launch_options_by_steam_user_id(&vdf, 1), Ok("-USEALLAVAILABLECORES".to_string()));
}

#[test]
fn pubg_movies() {
    let (m, d) = pubg_movies_paths("D:\\SteamLibrary");
    assert_eq!(m, "D:\\SteamLibrary\\steamapps\\common\\PUBG\\TslGame\\Content\\Movies");
    assert_eq!(d, "D:\\SteamLibrary\\steamapps\\common\\PUBG\\TslGame\\Content\\Movies_disabled");
    assert_eq!(set_pubg_skip_intro_movies_disabled(true, true, false, false, "M", "D"), MoviesStep::RenameToDisabled);
    assert_eq!(set_pubg_skip_intro_movies_disabled(true, false, true, false, "M", "D"), MoviesStep::Done);
    assert_eq!(set_pubg_skip_intro_movies_disabled(false, true, false, false, "M", "D"), MoviesStep::Done);
    assert_eq!(set_pubg_skip_intro_movies_disabled(false, false, true, false, "M", "D"), MoviesStep::RenameToMovies);
    assert_eq!(set_pubg_skip_intro_movies_disabled(true, true, true, false, "M", "D"), MoviesStep::RemoveDisabledCopy);
    assert_eq!(
        set_pubg_skip_intro_movies_disabled(true, true, true, true, "M", "D"),
        MoviesStep::Fail("Movies 与 Movies_disabled 同时存在且无法删除 Movies_disabled: movies=M movies_disabled=D".to_string())
    );
    assert_eq!(
        set_pubg_skip_intro_movies_disabled(true, false, false, false, "M", "D"),
        MoviesStep::Fail("未找到 Movies 目录，无法禁用开场动画: M".to_string())
    );
    assert_eq!(
        set_pubg_skip_intro_movies_disabled(false, false, false, false, "M", "D"),
        MoviesStep::Fail("未找到 Movies_disabled 目录，无法恢复开场动画: D".to_string())
    );
}

// Runs the intro-movie switch on an in-memory pair of folders, each step's
// operation succeeding, and returns the folders afterwards.
fn run_switch(disabled: bool, mut m: bool, mut d: bool) -> Result<(bool, bool), String> {
    let mut removed = false;
    loop {
        match set_pubg_skip_intro_movies_disabled(disabled, m, d, removed, "M", "MD") {
            MoviesStep::RemoveDisabledCopy => {
                d = false;
                removed = true;
            },
            MoviesStep::Done => return Ok((m, d)),
            MoviesStep::RenameToDisabled => return Ok((false, true)),
            MoviesStep::RenameToMovies => return Ok((true, false)),
            MoviesStep::Fail(e) => return Err(e),
        }
    }
}

#[test]
fn movie_switch_leaves_one_folder_and_repeats_as_no_op() {
    for disabled in [false, true] {
        for (m, d) in [(true, false), (false, true), (true, true)] {
            let (m2, d2) = run_switch(disabled, m, d).unwrap();
            assert_ne!(m2, d2);
            assert_eq!(d2, disabled);
            assert_eq!(set_pubg_skip_intro_movies_disabled(disabled, m2, d2, false, "M", "MD"), MoviesStep::Done);
            assert_eq!(run_switch(disabled, m2, d2), Ok((m2, d2)));
        }
        assert!(run_switch(disabled, false, false).is_err());
    }
}

#[test]
fn library_folder_location() {
    assert_eq!(trimmed_library_folder("  D:\\SteamLibrary \n"), "D:\\SteamLibrary");
    assert_eq!(
        locate_library_folder("D:\\SteamLibrary", true, None),
        Ok(LibraryFolder::AsGiven("D:\\SteamLibrary".to_string()))
    );
    assert_eq!(
        locate_library_folder("lib", false, Some("C:\\Steam")),
        Ok(LibraryFolder::UnderSteam("C:\\Steam".to_string(), "lib".to_string()))
    );
    assert_eq!(
        locate_library_folder("lib", false, None),
        Err("Steam library folder path is relative but SteamPath is unavailable".to_string())
    );
}
