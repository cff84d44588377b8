use windows_tool::game::apex::{
    apex_platform, check_apex_miles_language, get_apex_audio_folder_path, get_apex_audio_folder_path_by_platform,
    get_apex_depot_download_folder_path, get_apex_download_folder_path_by_platform, get_apex_launch_options_by_steam_user_id,
    get_ea_user_download_in_place_dir, set_apex_launch_options_by_steam_user_id, ApexPlatform,
};
use windows_tool::game::steam::language::SteamLanguage;
use windows_tool::game::steam::user::{get_steam_users_id, SteamUser};
use windows_tool::game::steam::{
    get_launch_options_vdf_paths_by_game_id, get_steam_game_language, get_steam_game_launch_options,
    get_steam_game_library_folder_by_game_id, get_userappconfig_vdf_paths_by_game_id, set_steam_game_launch_options,
    steam_is_running_state_by_registry,
};
use windows_tool::vdf::parse::parse_vdf_string;

const LOCALCONFIG: &str = r#""UserLocalConfigStore"
{
	"friends"
	{
		"PersonaName"		"Player"
		"42"
		{
			"avatar"		"abc123"
		}
	}
	"Software"
	{
		"Valve"
		{
			"Steam"
			{
				"apps"
				{
					"1172470"
					{
						"LaunchOptions"		"-novid"
					}
					"578080"
					{
					}
				}
			}
		}
	}
	"UserAppConfig"
	{
		"1172470"		"0055736572436f6e66696700016c616e677561676500736368696e657365000808"
		"730"		"zz"
	}
}
"#;

const LIBRARIES: &str = r#""libraryfolders"
{
	"0"
	{
		"path"		"C:\\Program Files (x86)\\Steam"
		"apps"
		{
			"228980"		"1"
		}
	}
	"1"
	{
		"path"		"D:\\SteamLibrary"
		"apps"
		{
			"1172470"		"97031306833"
			"578080"		"46739942167"
		}
	}
}
"#;

#[test]
fn mod_test_library_folder() {
    let vdf = parse_vdf_string(LIBRARIES).unwrap();
    let pa = get_steam_game_library_folder_by_game_id(&vdf, 114);
    println!("{:?}", pa);
    assert_eq!(pa, Err("folders not find 114".to_string()));
    assert_eq!(get_steam_game_library_folder_by_game_id(&vdf, 578080), Ok("D:\\SteamLibrary".to_string()));
}

#[test]
fn library_folder_errors() {
    let empty = parse_vdf_string("").unwrap();
    assert_eq!(
        get_steam_game_library_folder_by_game_id(&empty, 1),
        Err("Steam game libraryfolders.vdf doesn't exist".to_string())
    );
    let leaf = parse_vdf_string("libraryfolders x").unwrap();
    assert_eq!(
        get_steam_game_library_folder_by_game_id(&leaf, 1),
        Err("Steam game libraryfolders.vdf path 'libraryfolders' doesn't exist".to_string())
    );
}

#[test]
fn key_paths() {
    assert_eq!(
        get_launch_options_vdf_paths_by_game_id(578080),
        vec!["UserLocalConfigStore", "Software", "Valve", "Steam", "apps", "578080", "LaunchOptions"]
    );
    assert_eq!(get_userappconfig_vdf_paths_by_game_id(7), vec!["UserLocalConfigStore", "UserAppConfig", "7"]);
}

#[test]
fn launch_options_roundtrip() {
    let mut vdf = parse_vdf_string(LOCALCONFIG).unwrap();
    assert_eq!(get_steam_game_launch_options(&vdf, 42, 1172470), Ok("-novid".to_string()));
    assert_eq!(get_steam_game_launch_options(&vdf, 42, 578080), Ok(String::new()));
    set_steam_game_launch_options(&mut vdf, 42, 578080, "+exec autoexec.cfg").unwrap();
    assert_eq!(get_steam_game_launch_options(&vdf, 42, 578080), Ok("+exec autoexec.cfg".to_string()));
    assert_eq!(get_steam_game_launch_options(&vdf, 42, 1172470), Ok("-novid".to_string()));
    assert_eq!(
        set_steam_game_launch_options(&mut vdf, 42, 999, "x"),
        Err("写入 Steam 启动项节点失败 user_id:42 game_id:999: Path not found".to_string())
    );
}

#[test]
fn launch_options_survive_writing_the_file() {
    let mut vdf = parse_vdf_string(LOCALCONFIG).unwrap();
    let opts = "-dev \"quoted\" C:\\games\\x\t+tab\nline";
    set_steam_game_launch_options(&mut vdf, 42, 1172470, opts).unwrap();
    let text = vdf.to_string();
    let back = parse_vdf_string(&text).unwrap();
    assert_eq!(back, vdf);
    assert_eq!(get_steam_game_launch_options(&back, 42, 1172470), Ok(opts.to_string()));
}

#[test]
fn launch_options_node_not_string() {
    let vdf = parse_vdf_string(
        "UserLocalConfigStore { Software { Valve { Steam { apps { 5 { LaunchOptions { } } } } } } }",
    )
    .unwrap();
    assert_eq!(
        get_steam_game_launch_options(&vdf, 1, 5),
        Err("Steam 启动项节点不是字符串 user:1 game_id:5".to_string())
    );
}

#[test]
fn apex_launch_options() {
    let mut vdf = parse_vdf_string(LOCALCONFIG).unwrap();
    assert_eq!(get_apex_launch_options_by_steam_user_id(&vdf, 42), Ok("-novid".to_string()));
    set_apex_launch_options_by_steam_user_id(&mut vdf, 42, "-high").unwrap();
    assert_eq!(get_apex_launch_options_by_steam_user_id(&vdf, 42), Ok("-high".to_string()));
}

#[test]
fn game_language() {
    let vdf = parse_vdf_string(LOCALCONFIG).unwrap();
    assert_eq!(get_steam_game_language(&vdf, 42, 1172470), Ok("schinese".to_string()));
    assert_eq!(
        get_steam_game_language(&vdf, 42, 730),
        Err("Steam game language hex decode failed user:42 game_id:730: InvalidHexCharacter { c: 'z', index: 0 }"
            .to_string())
    );
    assert_eq!(
        get_steam_game_language(&vdf, 42, 1),
        Err("language Steam game config store get value user:42 \tgame_id:1".to_string())
    );
}

#[test]
fn users() {
    let vdf = parse_vdf_string(LOCALCONFIG).unwrap();
    let u = SteamUser::from_vdf(&vdf, "42", "C:\\cfg").unwrap();
    let text = format!("{:?}", u);
    assert!(text.contains("\"Player\"") && text.contains("\"abc123\"") && text.contains("\"42\""));
    let u2 = SteamUser::from_vdf(&vdf, "7", "p").unwrap();
    assert!(format!("{:?}", u2).contains("fef49e7fa7e1997310d705b2a6158ff8dc1cdfeb"));
    let empty = parse_vdf_string("").unwrap();
    assert_eq!(
        SteamUser::from_vdf(&empty, "7", "p").unwrap_err(),
        "UserLocalConfigStore name not found 7"
    );
    let ids = get_steam_users_id(vec![
        ("123".to_string(), true),
        ("ac".to_string(), true),
        ("456".to_string(), false),
        ("789".to_string(), true),
    ]);
    assert_eq!(ids, vec!["123", "789"]);
}

#[test]
fn running_state() {
    assert!(steam_is_running_state_by_registry(Some("123")));
    assert!(!steam_is_running_state_by_registry(Some("0")));
    assert!(!steam_is_running_state_by_registry(None));
}

#[test]
fn languages() {
    let all = SteamLanguage::all_languages();
    assert_eq!(all.len(), 30);
    let w = SteamLanguage::from_language_code("schinese").unwrap();
    assert_eq!(w.web_api_language, "zh-CN");
    assert_eq!(SteamLanguage::from_web_api_code("es-419").unwrap().language, "latam");
    assert!(SteamLanguage::from_language_code("klingon").is_none());
}

#[test]
fn apex_folders() {
    let libs = parse_vdf_string(LIBRARIES).unwrap();
    assert_eq!(
        get_apex_audio_folder_path(&libs),
        Some("D:\\SteamLibrary\\steamapps\\common\\Apex Legends\\audio\\ship".to_string())
    );
    assert_eq!(apex_platform(Some("EA")), ApexPlatform::Ea);
    assert_eq!(apex_platform(Some("steam")), ApexPlatform::Steam);
    assert_eq!(apex_platform(None), ApexPlatform::Steam);
    let ini = "# c\nuser.downloadinplacedir=\"\"\nUSER.DownloadInPlaceDir = \"E:\\Games\\\" \n";
    assert_eq!(get_ea_user_download_in_place_dir(ini), Some("E:\\Games\\".to_string()));
    assert_eq!(
        get_apex_audio_folder_path_by_platform(Some("ea"), None, Some(ini)),
        Some("E:\\Games\\Apex\\audio\\ship".to_string())
    );
    assert_eq!(get_apex_audio_folder_path_by_platform(Some("ea"), Some(&libs), None), None);
    assert_eq!(
        get_apex_audio_folder_path_by_platform(None, Some(&libs), Some(ini)),
        Some("D:\\SteamLibrary\\steamapps\\common\\Apex Legends\\audio\\ship".to_string())
    );
    assert_eq!(
        get_apex_depot_download_folder_path(Some("C:/Steam"), 1172477),
        Some("C:/Steam\\steamapps\\content\\app_1172470\\depot_1172477\\audio\\ship".to_string())
    );
    assert_eq!(get_apex_depot_download_folder_path(None, 1), None);
    assert_eq!(
        get_apex_download_folder_path_by_platform(5, Some("Ea"), Some("C:"), Some(ini)),
        Some("E:\\Games\\Apex\\audio\\ship".to_string())
    );
    assert_eq!(
        get_apex_download_folder_path_by_platform(5, None, Some("C:"), None),
        Some("C:steamapps\\content\\app_1172470\\depot_5\\audio\\ship".to_string())
    );
    assert_eq!(
        check_apex_miles_language(Some("A"), "english"),
        Ok(("A\\general_english.mstr".to_string(), "A\\general_english_patch_1.mstr".to_string()))
    );
    assert_eq!(
        check_apex_miles_language(None, "english"),
        Err("Apex 音频目录未找到 platform=None".to_string())
    );
}

#[test]
fn game_language_hex_errors_count_bytes() {
    let text = "\"UserLocalConfigStore\"\n{\n\t\"UserAppConfig\"\n\t{\n\t\t\"1\"\t\t\"é0\"\n\t\t\"2\"\t\t\"éa0\"\n\t\t\"3\"\t\t\"abc\"\n\t\t\"4\"\t\t\"0A0g\"\n\t}\n}\n";
    let vdf = parse_vdf_string(text).unwrap();
    let prefix = |g: usize| format!("Steam game language hex decode failed user:7 game_id:{}: ", g);
    for (g, s) in [(1usize, "é0"), (2, "éa0"), (3, "abc"), (4, "0A0g")] {
        let want = format!("{}{:?}", prefix(g), hex::decode(s).unwrap_err());
        assert_eq!(get_steam_game_language(&vdf, 7, g), Err(want));
    }
    assert_eq!(get_steam_game_language(&vdf, 7, 1), Err(format!("{}OddLength", prefix(1))));
}
