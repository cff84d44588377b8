use windows_tool::game::apex::config::encoding::decode_bytes;
use windows_tool::game::apex::config::file::{
    get_apex_config_path, get_apex_local_folder_path, get_apex_profile_folder_path, get_apex_saved_games_root,
    patch_apex_videoconfig,
};
use std::collections::HashMap;
use windows_tool::game::apex::config::parse::parse_content;
use windows_tool::game::apex::video_text::{parse_videoconfig_key_values, patch_videoconfig_line};
use windows_tool::game::apex::config::{ApexCfgDocument, ApexCfgLine, ApexConfigFileKind, ApexFileEncoding};

const VIDEO_1280: &str = "\"VideoConfig\"\n{\n\t\"setting.defaultres\"\t\t\"1280\"\n}\n";
const VIDEO_1920: &str = "\"VideoConfig\"\n{\n\t\"setting.defaultres\"\t\t\"1920\"\n}\n";
const VIDEO_BOTH: &str =
    "\"VideoConfig\"\n{\n\t\"setting.defaultres\"\t\t\"1920\"\n\t\"setting.defaultresheight\"\t\t\"1080\"\n}\n";

#[test]
fn apex_parse_videoconfig_keys() {
    let map: HashMap<String, String> = parse_videoconfig_key_values(VIDEO_BOTH).into_iter().collect();
    assert_eq!(map.get("setting.defaultres").map(String::as_str), Some("1920"));
    assert_eq!(map.get("setting.defaultresheight").map(String::as_str), Some("1080"));
}

#[test]
fn apex_patch_videoconfig_updates_existing_key() {
    let patched = patch_videoconfig_line(VIDEO_1280, "setting.defaultres", "1920");
    assert!(patched.contains("\"setting.defaultres\"\t\t\"1920\""));
    assert!(!patched.contains("\"1280\""));
}

#[test]
fn videoconfig_text_edge_cases() {
    let text = "\"VideoConfig\"\n{\n  \"setting.a\"\t \"1,\",,\n\t\"setting.b\"\t\"\"\n\t\"other.c\"\t\"3\"\n\t\"setting.a\"\t\"2\"\n\tno tab here\n}";
    let pairs = parse_videoconfig_key_values(text);
    assert_eq!(pairs, vec![("setting.a".to_string(), "2".to_string())]);
    let added = patch_videoconfig_line(VIDEO_1280, "setting.new", "7");
    assert_eq!(added, "\"VideoConfig\"\n{\n\t\"setting.defaultres\"\t\t\"1280\"\n\t\"setting.new\"\t\t\"7\"\n}\n");
    assert_eq!(patch_videoconfig_line("a\r\nb", "k", "v"), "a\nb\n\t\"k\"\t\t\"v\"\n");
}

#[test]
fn mod_parse_videoconfig_keys() {
    let sample = "\"VideoConfig\"\n{\n\t\"setting.defaultres\"\t\t\"1920\"\n\t\"setting.defaultresheight\"\t\t\"1080\"\n}\n";
    let doc = ApexCfgDocument::from_content(sample, ApexFileEncoding::Utf8).unwrap();
    assert_eq!(doc.get("setting.defaultres"), Some("1920"));
}

#[test]
fn mod_patch_videoconfig_updates_existing_key() {
    let mut doc = ApexCfgDocument::from_content(VIDEO_1280, ApexFileEncoding::Utf8).unwrap();
    doc.set("setting.defaultres", "1920").unwrap();
    let out = doc.to_string();
    assert!(out.contains("\"1920\""));
    assert!(!out.contains("\"1280\""));
}

#[test]
fn set_updates_existing() {
    let mut doc = ApexCfgDocument::from_content(VIDEO_1280, ApexFileEncoding::Utf8).unwrap();
    doc.set("setting.defaultres", "1920").unwrap();
    assert_eq!(doc.get("setting.defaultres"), Some("1920"));
    let out = doc.to_string();
    assert!(out.contains("\"1920\""));
    assert!(!out.contains("\"1280\""));
}

#[test]
fn remove_key() {
    let mut doc = ApexCfgDocument::from_content(VIDEO_1920, ApexFileEncoding::Utf8).unwrap();
    assert!(doc.remove("setting.defaultres").unwrap());
    assert!(doc.get("setting.defaultres").is_none());
}

#[test]
fn parse_videoconfig_sample() {
    let doc = parse_content(VIDEO_BOTH, ApexFileEncoding::Utf8).unwrap();
    assert_eq!(doc.root_name.as_deref(), Some("VideoConfig"));
    assert_eq!(doc.get("setting.defaultres"), Some("1920"));
    assert_eq!(doc.get("setting.defaultresheight"), Some("1080"));
}

#[test]
fn parse_profile_kv() {
    let sample = "cl_fovScale \"1.55\"\nmouse_sensitivity \"0.996247\"\n";
    let doc = parse_content(sample, ApexFileEncoding::Utf8).unwrap();
    assert_eq!(doc.get("cl_fovScale"), Some("1.55"));
}

#[test]
fn decode_utf8_content() {
    let bytes = b"\"VideoConfig\"\n{\n}\n";
    let (text, enc) = decode_bytes(bytes).unwrap();
    assert_eq!(enc, ApexFileEncoding::Utf8);
    assert!(text.contains("VideoConfig"));
}

#[test]
fn decode_strips_nul_bytes() {
    let bytes = b"\"VideoConfig\"\n{\n}\n\0\n";
    let (text, _) = decode_bytes(bytes).unwrap();
    assert!(!text.contains('\0'));
    assert!(text.contains("VideoConfig"));
}

#[test]
fn decode_utf16le_with_bom() {
    let mut bytes = vec![0xFF, 0xFE];
    for u in "\"A\"\0".encode_utf16() {
        bytes.extend_from_slice(&u.to_le_bytes());
    }
    let (text, enc) = decode_bytes(&bytes).unwrap();
    assert_eq!(enc, ApexFileEncoding::Utf16Le);
    assert_eq!(text, "\"A\"");
}

#[test]
fn utf16le_save_then_read_gives_the_text() {
    let text = "\"VideoConfig\"\n{\n\t\"setting.名字\"\t\t\"\u{1F600}\0x\"\n}\n";
    let bytes = ApexFileEncoding::Utf16Le.encode(text);
    let (back, enc) = decode_bytes(&bytes).unwrap();
    assert_eq!(enc, ApexFileEncoding::Utf16Le);
    assert_eq!(back, text.replace('\0', ""));
    let doc = ApexCfgDocument::load_from_bytes(&bytes).unwrap();
    assert_eq!(doc.encoding, ApexFileEncoding::Utf16Le);
    assert_eq!(doc.to_string(), text.replace('\0', ""));
}

#[test]
fn decode_utf16be_refused() {
    let r = decode_bytes(&[0xFE, 0xFF, 0x00, 0x41]);
    assert_eq!(r, Err("暂不支持 UTF-16 BE 编码的 Apex 配置文件".to_string()));
}

#[test]
fn decode_bad_utf8_after_bom() {
    let r = decode_bytes(&[0xEF, 0xBB, 0xBF, 0xFF]);
    let why = std::str::from_utf8(&[0xFF]).unwrap_err().to_string();
    assert_eq!(r, Err(format!("UTF-8 BOM 文件解码失败: {}", why)));
}

#[test]
fn decode_gbk_fallback() {
    // "中" in GBK is D6 D0, which is not UTF-8.
    let (text, enc) = decode_bytes(&[0xD6, 0xD0]).unwrap();
    assert_eq!(enc, ApexFileEncoding::Utf8);
    assert_eq!(text, "中");
}

#[test]
fn encode_utf16le_has_bom() {
    assert_eq!(ApexFileEncoding::Utf16Le.encode("A"), vec![0xFF, 0xFE, 0x41, 0x00]);
    assert_eq!(ApexFileEncoding::Utf8.encode("A"), vec![0x41]);
}

#[test]
fn get_after_set_new_key_inserts_before_brace() {
    let mut doc = ApexCfgDocument::from_content(VIDEO_1920, ApexFileEncoding::Utf8).unwrap();
    doc.set("setting.fullscreen", "1").unwrap();
    assert_eq!(doc.get("setting.fullscreen"), Some("1"));
    let out = doc.to_string();
    assert!(out.ends_with("\t\"setting.fullscreen\"\t\t\"1\"\n}\n"));
}

#[test]
fn remove_missing_key_reports_false() {
    let mut doc = ApexCfgDocument::from_content(VIDEO_1920, ApexFileEncoding::Utf8).unwrap();
    assert!(!doc.remove("setting.nothing").unwrap());
    assert_eq!(doc.get("setting.defaultres"), Some("1920"));
}

#[test]
fn line_accessors() {
    let l = ApexCfgLine::KeyValue {
        key: "\"a\"".to_string(),
        value: "1".to_string(),
        prefix: "\t".to_string(),
        separator: " ".to_string(),
    };
    assert_eq!(l.key(), Some("\"a\""));
    assert_eq!(l.value(), Some("1"));
    assert_eq!(l.to_line_string(), "\t\"a\" \"1\"");
    assert_eq!(ApexCfgLine::Raw("{".to_string()).key(), None);
}

#[test]
fn key_values_keep_file_order() {
    let doc = ApexCfgDocument::from_content(VIDEO_BOTH, ApexFileEncoding::Utf8).unwrap();
    let kv = doc.key_values();
    let keys: Vec<&String> = kv.keys().collect();
    assert_eq!(keys, vec!["\"setting.defaultres\"", "\"setting.defaultresheight\""]);
}

#[test]
fn config_paths_under_profile() {
    assert_eq!(
        get_apex_saved_games_root(Some("C:\\Users\\me")).unwrap(),
        "C:\\Users\\me\\Saved Games\\Respawn\\Apex"
    );
    assert_eq!(
        get_apex_local_folder_path(Some("C:\\Users\\me\\")).unwrap(),
        "C:\\Users\\me\\Saved Games\\Respawn\\Apex\\local"
    );
    assert_eq!(
        get_apex_profile_folder_path(Some("D:")).unwrap(),
        "D:Saved Games\\Respawn\\Apex\\profile"
    );
    assert_eq!(
        get_apex_config_path(Some("C:\\U"), ApexConfigFileKind::Settings).unwrap(),
        "C:\\U\\Saved Games\\Respawn\\Apex\\local\\settings.cfg"
    );
    assert_eq!(
        get_apex_config_path(None, ApexConfigFileKind::Profile),
        Err("未设置 USERPROFILE，无法定位 Apex 配置目录".to_string())
    );
    assert_eq!(ApexConfigFileKind::VideoConfig.file_name(), "videoconfig.txt");
    assert_eq!(ApexConfigFileKind::Profile.subdir(), "profile");
}

#[test]
fn patch_videoconfig_rules() {
    let none: Vec<(String, String)> = vec![];
    assert_eq!(
        patch_apex_videoconfig(None, &none).unwrap_err(),
        "没有需要写入的画质配置项"
    );
    let bad = vec![("fullscreen".to_string(), "1".to_string())];
    assert_eq!(patch_apex_videoconfig(None, &bad).unwrap_err(), "非法配置键: fullscreen");
    let good = vec![("\"setting.defaultres\"".to_string(), "2560".to_string())];
    let doc = patch_apex_videoconfig(None, &good).unwrap();
    assert_eq!(doc.get("setting.defaultres"), Some("2560"));
    assert_eq!(doc.to_string(), "\"VideoConfig\"\n{\n\t\"setting.defaultres\"\t\t\"2560\"\n}\n");
}

#[test]
fn load_from_bytes_keeps_encoding() {
    let doc = ApexCfgDocument::load_from_bytes(VIDEO_1920.as_bytes()).unwrap();
    assert_eq!(doc.encoding, ApexFileEncoding::Utf8);
    assert_eq!(doc.get("setting.defaultres"), Some("1920"));
}

#[test]
fn default_document_is_empty_utf8() {
    let d = ApexCfgDocument::default();
    assert!(d.lines.is_empty());
    assert!(d.root_name.is_none());
    assert_eq!(d.encoding, ApexFileEncoding::Utf8);
    assert_eq!(d.to_string(), ApexCfgDocument::new().to_string());
}

#[test]
fn write_back_keeps_text() {
    let text = "\"VideoConfig\"\n{\n\t\"setting.defaultres\"\t\t\"1920\"\n\t// note\n}\n";
    let doc = ApexCfgDocument::from_content(text, ApexFileEncoding::Utf8).unwrap();
    assert_eq!(doc.to_string(), text);
    let no_final_break = "\"VideoConfig\"\n{\n}";
    let doc2 = ApexCfgDocument::from_content(no_final_break, ApexFileEncoding::Utf8).unwrap();
    assert_eq!(doc2.to_string(), "\"VideoConfig\"\n{\n}\n");
    let bare = ApexCfgDocument::from_content("cl_fovScale \"1.55\"\n", ApexFileEncoding::Utf8).unwrap();
    assert_eq!(bare.to_string(), "cl_fovScale \"1.55\"\n");
}

#[test]
fn set_many_sets_in_turn() {
    let mut doc = ApexCfgDocument::from_content(VIDEO_1280, ApexFileEncoding::Utf8).unwrap();
    doc.set_many(&[
        ("setting.defaultres".to_string(), "1920".to_string()),
        ("setting.new".to_string(), "1".to_string()),
        ("setting.new".to_string(), "2".to_string()),
    ])
    .unwrap();
    assert_eq!(doc.get("setting.defaultres"), Some("1920"));
    assert_eq!(doc.get("setting.new"), Some("2"));
    assert_eq!(doc.to_string().matches("setting.new").count(), 1);
}

#[test]
fn utf8_save_then_read() {
    let text = "\"VideoConfig\"\n{\n\t\"setting.x\"\t\t\"中\0文\"\n}\n";
    let bytes = ApexFileEncoding::Utf8.encode(text);
    let (back, enc) = decode_bytes(&bytes).unwrap();
    assert_eq!(back, text.replace('\0', ""));
    assert_eq!(enc, ApexFileEncoding::Utf8);
}

#[test]
fn bare_key_keeps_its_separator() {
    let doc = parse_content("cl_fovScale \"1.55\"\n", ApexFileEncoding::Utf8).unwrap();
    assert_eq!(
        doc.lines,
        vec![ApexCfgLine::KeyValue {
            key: "cl_fovScale".into(),
            value: "1.55".into(),
            prefix: "".into(),
            separator: " ".into()
        }]
    );
}

#[test]
fn two_quoted_words_are_a_key_value_line() {
    let doc = parse_content("\"cl_fovScale\" \"1.55\"\n", ApexFileEncoding::Utf8).unwrap();
    assert_eq!(
        doc.lines,
        vec![ApexCfgLine::KeyValue {
            key: "\"cl_fovScale\"".into(),
            value: "1.55".into(),
            prefix: "".into(),
            separator: " ".into()
        }]
    );
    assert_eq!(doc.get("cl_fovScale"), Some("1.55"));
    assert_eq!(doc.root_name, None);
    let named = parse_content("\"VideoConfig\"\n{\n}\n", ApexFileEncoding::Utf8).unwrap();
    assert_eq!(named.root_name.as_deref(), Some("VideoConfig"));
}

#[test]
fn set_updates_every_line_of_the_key() {
    let text = "\"VideoConfig\"\n{\n\t\"setting.a\"\t\t\"1\"\n\t\"setting.a\"\t\t\"2\"\n}\n";
    let mut doc = ApexCfgDocument::from_content(text, ApexFileEncoding::Utf8).unwrap();
    doc.set("setting.a", "9").unwrap();
    assert_eq!(doc.get("setting.a"), Some("9"));
    assert_eq!(doc.lines.len(), 5);
    assert_eq!(doc.to_string().matches("\"9\"").count(), 2);
    let mut other = ApexCfgDocument::from_content(text, ApexFileEncoding::Utf16Le).unwrap();
    other.insert("setting.a", "9").unwrap();
    other.insert("setting.b", "3").unwrap();
    let mut same = ApexCfgDocument::from_content(text, ApexFileEncoding::Utf16Le).unwrap();
    same.set("setting.a", "9").unwrap();
    same.set("setting.b", "3").unwrap();
    assert_eq!(other.lines, same.lines);
    assert_eq!(other.encoding, same.encoding);
    assert_eq!(other.root_name, same.root_name);
}

#[test]
fn read_videoconfig_gives_setting_keys_unquoted() {
    let text = "\"VideoConfig\"\n{\n\t\"setting.defaultres\"\t\t\"1920\"\n\t\"other\"\t\t\"x\"\n\t\"setting.defaultresheight\"\t\t\"1080\"\n}\n";
    let doc = ApexCfgDocument::from_content(text, ApexFileEncoding::Utf8).unwrap();
    let (t, kv) = windows_tool::game::apex::read_apex_videoconfig(&doc);
    assert_eq!(t, text);
    let map: HashMap<String, String> = kv.into_iter().collect();
    assert_eq!(
        map,
        HashMap::from([
            ("setting.defaultres".to_string(), "1920".to_string()),
            ("setting.defaultresheight".to_string(), "1080".to_string())
        ])
    );
}

#[test]
fn shaped_lines_write_back_unchanged() {
    let text = "cl_fovScale \"1.55\"\n\"mouse_sensitivity\" \"0.99\"\n\t\"setting.x\"\t\t\"1\"\nbind \"F\" \"+use\"\n";
    let doc = ApexCfgDocument::from_content(text, ApexFileEncoding::Utf8).unwrap();
    assert_eq!(doc.to_string(), text);
    assert_eq!(doc.get("mouse_sensitivity"), Some("0.99"));
    assert_eq!(doc.get("cl_fovScale"), Some("1.55"));
}

#[test]
fn save_then_read_in_either_encoding() {
    for text in ["", "A", "\"VideoConfig\"\n{\n\t\"k\"\t\t\"v\"\n}\n", "名字 \u{1F600}\n"] {
        for enc in [ApexFileEncoding::Utf8, ApexFileEncoding::Utf16Le] {
            assert_eq!(decode_bytes(&enc.encode(text)), Ok((text.to_string(), enc)));
        }
    }
}
