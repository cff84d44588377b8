use windows_tool::game::ea_users::{nuchash_for_ini, order_users, str_lt};
use std::collections::HashMap;
use windows_tool::text::lines_of;
use windows_tool::game::ea_logs::{nuchash_from_line, persona_from_get_profile_line, EaDesktopUser};
use windows_tool::game::ea_profiles::{
    chunk_profile_of, ea_profile, fill_single_user_avatar, last_avatar_in_text, profile_from_verbose,
    user_avatar_url_from_line, NuchashProfile, drop_partial_first_line, verbose_tail_start, VERBOSE_PREAMBLE_BYTES,
    VERBOSE_TAIL_BYTES,
};

// The avatar search as plain Rust over `str`, byte offsets and all.
fn avatar_by_bytes(line: &str) -> Option<String> {
    let lower = line.to_lowercase();
    let pos = lower.find("useravatar/")?;
    let before = line.get(..pos)?;
    let https_start = before.rfind("https://")?;
    let rest = line.get(https_start..)?;
    let end = rest
        .find(|c: char| c.is_whitespace() || matches!(c, '"' | '\'' | '<' | ']'))
        .unwrap_or(rest.len());
    let mut url = rest.get(..end)?.trim_end_matches([')', ',', ';', '"', '\'', ']']);
    while url.ends_with('"') || url.ends_with('\'') || url.ends_with(']') {
        url = url.trim_end_matches(['"', '\'', ']']);
    }
    Some(url.to_string())
}

#[derive(Clone, Debug, Default, PartialEq)]
struct Prof {
    persona: Option<String>,
    avatar_url: Option<String>,
}

// The per-file profile map as plain Rust with a `HashMap`.
fn profiles_by_map(text: &str, hashes: &[String]) -> HashMap<String, Prof> {
    let mut map = HashMap::<String, Prof>::new();
    let mut current: Option<String> = None;
    for line in text.lines() {
        if line.contains("nuchash=[") {
            current = nuchash_from_line(line);
            continue;
        }
        let Some(ch) = current.as_ref() else { continue };
        let e = map.entry(ch.clone()).or_default();
        if let Some(p) = persona_from_get_profile_line(line) {
            e.persona = Some(p);
        }
        if let Some(u) = avatar_by_bytes(line) {
            e.avatar_url = Some(u);
        }
    }
    for h in hashes {
        if h.is_empty() {
            continue;
        }
        let needle = format!("nuchash=[{}]", h.to_lowercase());
        let mut last = None::<usize>;
        let mut pos = 0;
        while let Some(i) = text[pos..].find(&needle) {
            last = Some(pos + i);
            pos += i + needle.len();
        }
        let tail = last.map(|s| &text[s..]);
        let e = map.entry(h.clone()).or_default();
        if e.avatar_url.is_none() {
            e.avatar_url = tail.and_then(|t| t.lines().find_map(avatar_by_bytes));
        }
        if e.persona.is_none() {
            e.persona = tail.and_then(|t| t.lines().find_map(persona_from_get_profile_line));
        }
    }
    map
}

fn prof(p: NuchashProfile) -> Prof {
    Prof { persona: p.persona, avatar_url: p.avatar_url }
}

#[test]
fn avatar_url_cases() {
    assert_eq!(
        user_avatar_url_from_line("avatar: \"https://x.ea.com/userAvatar/12/40x40.png\" done"),
        Some("https://x.ea.com/userAvatar/12/40x40.png".to_string())
    );
    assert_eq!(
        user_avatar_url_from_line("(https://x.ea.com/useravatar/a.png),;"),
        Some("https://x.ea.com/useravatar/a.png".to_string())
    );
    assert_eq!(
        user_avatar_url_from_line("https://a/ then https://b/USERAVATAR/c]x"),
        Some("https://b/USERAVATAR/c".to_string())
    );
    assert_eq!(user_avatar_url_from_line("http://x/userAvatar/1"), None);
    assert_eq!(user_avatar_url_from_line("no avatar here https://x/"), None);
    assert_eq!(user_avatar_url_from_line(""), None);
}

#[test]
fn avatar_url_byte_offsets_follow_lowercasing() {
    let cases = [
        "İİ https://a.com/useravatar/x.png)",
        "İ https://a.com/useravatar/x.png",
        "Ⱥ https://a.com/useravatar/x.png",
        "ȺȺȺ https://a.com/ab https://b.com/useravatar/x.png",
        "é https://a.com/userAvatar/x.png<tag>",
        "https://x.com/useravatar/名前.png 末尾",
        "ΣΣ https://x.com/useravatar/y.png'",
        "https://x.com/İuseravatar/y.png",
        "https://x.com/\u{2003}useravatar/y.png",
    ];
    for c in cases {
        assert_eq!(user_avatar_url_from_line(c), avatar_by_bytes(c), "line {:?}", c);
    }
}

const VERBOSE: &str = "\
start line\r
setUserId nuchash=[AB12] ok\r
GetProfileResponse Persona=\"First\" id\r
img https://x.ea.com/userAvatar/1/40x40.png\r
other nuchash=[cd34]\r
GetProfileResponse Persona=\"Second\"\r
nuchash=[zz] bad\r
GetProfileResponse Persona=\"Lost\"\r
again nuchash=[ab12]\r
noise\r
GetProfileResponse Persona=\"Later\"\r
";

#[test]
fn verbose_profiles_follow_the_current_hash() {
    let ls = lines_of(VERBOSE);
    let a = prof(profile_from_verbose(&ls, "ab12"));
    assert_eq!(a.persona.as_deref(), Some("Later"));
    assert_eq!(a.avatar_url.as_deref(), Some("https://x.ea.com/userAvatar/1/40x40.png"));
    let c = prof(profile_from_verbose(&ls, "cd34"));
    assert_eq!(c.persona.as_deref(), Some("Second"));
    assert_eq!(c.avatar_url, None);
    assert_eq!(prof(profile_from_verbose(&ls, "zz")), Prof::default());
}

#[test]
fn chunk_profiles_match_the_map() {
    let texts = [
        VERBOSE,
        "GetProfileResponse Persona=\"Early\"\nnuchash=[ab12]\n",
        "x nuchash=[ab12] https://h/useravatar/p.png\ny nuchash=[ab12]\nGetProfileResponse Persona=\"P\"\nhttps://h/useravatar/q.png\n",
        "nuchash=[AB12]\nnuchash=[cd34] GetProfileResponse Persona=\"Q\"\n",
        "",
    ];
    let hashes = vec!["ab12".to_string(), "cd34".to_string(), "ef56".to_string()];
    for t in texts {
        let map = profiles_by_map(t, &hashes);
        for h in &hashes {
            let want = map.get(h).cloned().unwrap_or_default();
            assert_eq!(prof(chunk_profile_of(t, h)), want, "text {:?} hash {}", t, h);
        }
    }
}

#[test]
fn later_texts_win_per_field() {
    let bak = "nuchash=[ab12]\nGetProfileResponse Persona=\"Old\"\nhttps://h/useravatar/old.png\n".to_string();
    let log = "nuchash=[ab12]\nGetProfileResponse Persona=\"New\"\n".to_string();
    let p = prof(ea_profile(&vec![bak.clone(), log.clone()], "ab12"));
    assert_eq!(p.persona.as_deref(), Some("New"));
    assert_eq!(p.avatar_url.as_deref(), Some("https://h/useravatar/old.png"));
    let q = prof(ea_profile(&vec![log, bak], "ab12"));
    assert_eq!(q.persona.as_deref(), Some("Old"));
    assert_eq!(prof(ea_profile(&vec![VERBOSE.to_string()], "")), Prof::default());
    assert_eq!(prof(ea_profile(&vec![], "ab12")), Prof::default());
}

#[test]
fn last_avatar_of_text() {
    let t = "https://a/useravatar/1.png\nnothing\nhttps://a/useravatar/2.png x\nend";
    assert_eq!(last_avatar_in_text(t), Some("https://a/useravatar/2.png".to_string()));
    assert_eq!(last_avatar_in_text("none"), None);
}

fn user(id: &str, avatar: &str) -> EaDesktopUser {
    EaDesktopUser {
        id: id.to_string(),
        name: "n".to_string(),
        avatar: avatar.to_string(),
        config_path: "p".to_string(),
        user_userid: "u".to_string(),
        nu_hash: "h".to_string(),
    }
}

#[test]
fn lone_user_gets_last_avatar() {
    let text = "https://a/useravatar/x/40x40.png\nhttps://a/useravatar/y/128X128.png\n";
    let mut one = vec![user("1", "")];
    fill_single_user_avatar(&mut one, Some(text));
    assert_eq!(one[0].avatar, "https://a/useravatar/y/208x208.png");
    assert_eq!(one[0].id, "1");

    let mut has = vec![user("1", "keep")];
    fill_single_user_avatar(&mut has, Some(text));
    assert_eq!(has[0].avatar, "keep");

    let mut two = vec![user("1", ""), user("2", "")];
    fill_single_user_avatar(&mut two, Some(text));
    assert_eq!(two[0].avatar, "");
    assert_eq!(two[1].avatar, "");

    let mut none = vec![user("1", "")];
    fill_single_user_avatar(&mut none, None);
    assert_eq!(none[0].avatar, "");
    fill_single_user_avatar(&mut none, Some("no urls"));
    assert_eq!(none[0].avatar, "");
}

#[test]
fn users_come_in_id_order() {
    let mut us = vec![user("20", ""), user("1000", "a"), user("3", ""), user("100", "")];
    order_users(&mut us);
    let ids: Vec<&str> = us.iter().map(|u| u.id.as_str()).collect();
    assert_eq!(ids, vec!["100", "1000", "20", "3"]);
    assert_eq!(us[1].avatar, "a");
    assert!(str_lt("ab", "b"));
    assert!(str_lt("a", "ab"));
    assert!(!str_lt("ab", "ab"));
    assert!(str_lt("Z", "a") == ("Z" < "a"));
    assert!(str_lt("é", "z") == ("é" < "z"));
    let pairs = vec![("h1".to_string(), "10".to_string()), ("h2".to_string(), "20".to_string()), ("h3".to_string(), "10".to_string())];
    assert_eq!(nuchash_for_ini(&pairs, "10"), "h3");
    assert_eq!(nuchash_for_ini(&pairs, "20"), "h2");
    assert_eq!(nuchash_for_ini(&pairs, "30"), "");
}

#[test]
fn verbose_tail_window() {
    assert_eq!(VERBOSE_TAIL_BYTES + VERBOSE_PREAMBLE_BYTES, 13 * 1024 * 1024);
    assert_eq!(verbose_tail_start(100, 10, 5), 85);
    assert_eq!(verbose_tail_start(10, 10, 5), 0);
    assert_eq!(verbose_tail_start(u64::MAX, u64::MAX, 1), 0);
    assert_eq!(verbose_tail_start(u64::MAX, u64::MAX - 2, 1), 1);
}

#[test]
fn cut_first_line_is_dropped() {
    assert_eq!(drop_partial_first_line("tial line\nnext\nlast", true), "next\nlast");
    assert_eq!(drop_partial_first_line("tial line\nnext", false), "tial line\nnext");
    assert_eq!(drop_partial_first_line("no newline", true), "no newline");
    assert_eq!(drop_partial_first_line("\n", true), "");
}
