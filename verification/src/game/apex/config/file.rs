//! Where the Apex configuration files live, and documents read from their
//! bytes or patched before they are written back.

use crate::game::apex::config::crud::{normalize_key, set_lines};
use crate::game::apex::config::encoding::{
    decode_bytes, decode_spec, encoded, remove_nul, utf16_be_message, reads_back, utf8_error_text, ApexFileEncoding,
    DecodeFailure,
};
use crate::game::apex::config::parse::{classify, root_name_of};
use crate::game::apex::config::value::{lines_view, ApexCfgDocument, ApexCfgLine, CfgLine};
use crate::path::{join_all, join_path, path_join, path_join_all, relative_component};
use crate::text::{lines, opt_view, push_str, str_eq, trim_char};
use vstd::prelude::*;

verus! {

broadcast use vstd::string::group_string_axioms;

/// The three configuration files.
#[derive(Debug, Clone, Copy, PartialEq, Eq, Structural)]
pub enum ApexConfigFileKind {
    /// `Saved Games/Respawn/Apex/local/videoconfig.txt`
    VideoConfig,
    /// `Saved Games/Respawn/Apex/local/settings.cfg`
    Settings,
    /// `Saved Games/Respawn/Apex/profile/profile.cfg`
    Profile,
}

pub open spec fn kind_file_name(k: ApexConfigFileKind) -> Seq<char> {
    match k {
        ApexConfigFileKind::VideoConfig => "videoconfig.txt"@,
        ApexConfigFileKind::Settings => "settings.cfg"@,
        ApexConfigFileKind::Profile => "profile.cfg"@,
    }
}

pub open spec fn kind_subdir(k: ApexConfigFileKind) -> Seq<char> {
    match k {
        ApexConfigFileKind::VideoConfig | ApexConfigFileKind::Settings => "local"@,
        ApexConfigFileKind::Profile => "profile"@,
    }
}

impl ApexConfigFileKind {
    pub fn file_name(&self) -> (r: &'static str)
        ensures
            r@ == kind_file_name(*self),
    {
        match self {
            ApexConfigFileKind::VideoConfig => "videoconfig.txt",
            ApexConfigFileKind::Settings => "settings.cfg",
            ApexConfigFileKind::Profile => "profile.cfg",
        }
    }

    pub fn subdir(&self) -> (r: &'static str)
        ensures
            r@ == kind_subdir(*self),
    {
        match self {
            ApexConfigFileKind::VideoConfig | ApexConfigFileKind::Settings => "local",
            ApexConfigFileKind::Profile => "profile",
        }
    }
}

pub open spec fn no_profile_text() -> Seq<char> {
    "未设置 USERPROFILE，无法定位 Apex 配置目录"@
}

/// `<USERPROFILE>\Saved Games\Respawn\Apex`, given the variable's value.
pub open spec fn saved_games_root(user_profile: Option<Seq<char>>) -> Result<Seq<char>, Seq<char>> {
    match user_profile {
        Some(p) => Ok(join_all(p, seq!["Saved Games"@, "Respawn"@, "Apex"@])),
        None => Err(no_profile_text()),
    }
}

/// The Apex settings root under the user profile (`None`: the variable is unset).
pub fn get_apex_saved_games_root(user_profile: Option<&str>) -> (r: Result<String, String>)
    ensures
        match saved_games_root(match user_profile { Some(p) => Some(p@), None => None }) {
            Ok(s) => r is Ok && r.unwrap()@ == s,
            Err(e) => r is Err && r->Err_0@ == e,
        },
{
    match user_profile {
        Some(p) => {
            let parts: Vec<&str> = vec!["Saved Games", "Respawn", "Apex"];
            proof {
                reveal_strlit("Saved Games");
                reveal_strlit("Respawn");
                reveal_strlit("Apex");
            }
            assert(parts@.map_values(|q: &str| q@) =~= seq!["Saved Games"@, "Respawn"@, "Apex"@]);
            Ok(path_join_all(p, parts.as_slice()))
        },
        None => Err("未设置 USERPROFILE，无法定位 Apex 配置目录".to_string()),
    }
}

fn under_root(user_profile: Option<&str>, dir: &str) -> (r: Result<String, String>)
    requires
        relative_component(dir@),
    ensures
        match saved_games_root(match user_profile { Some(p) => Some(p@), None => None }) {
            Ok(s) => r is Ok && r.unwrap()@ == join_path(s, dir@),
            Err(e) => r is Err && r->Err_0@ == e,
        },
{
    let root = get_apex_saved_games_root(user_profile)?;
    Ok(path_join(root.as_str(), dir))
}

/// `...\Apex\local`.
pub fn get_apex_local_folder_path(user_profile: Option<&str>) -> (r: Result<String, String>)
    ensures
        match saved_games_root(match user_profile { Some(p) => Some(p@), None => None }) {
            Ok(s) => r is Ok && r.unwrap()@ == join_path(s, "local"@),
            Err(e) => r is Err && r->Err_0@ == e,
        },
{
    proof {
        reveal_strlit("local");
    }
    under_root(user_profile, "local")
}

/// `...\Apex\profile`.
pub fn get_apex_profile_folder_path(user_profile: Option<&str>) -> (r: Result<String, String>)
    ensures
        match saved_games_root(match user_profile { Some(p) => Some(p@), None => None }) {
            Ok(s) => r is Ok && r.unwrap()@ == join_path(s, "profile"@),
            Err(e) => r is Err && r->Err_0@ == e,
        },
{
    proof {
        reveal_strlit("profile");
    }
    under_root(user_profile, "profile")
}

/// The path of one configuration file.
pub open spec fn config_path(root: Seq<char>, kind: ApexConfigFileKind) -> Seq<char> {
    join_path(join_path(root, kind_subdir(kind)), kind_file_name(kind))
}

/// The path of the configuration file of kind `kind`.
pub fn get_apex_config_path(user_profile: Option<&str>, kind: ApexConfigFileKind) -> (r: Result<String, String>)
    ensures
        match saved_games_root(match user_profile { Some(p) => Some(p@), None => None }) {
            Ok(s) => r is Ok && r.unwrap()@ == config_path(s, kind),
            Err(e) => r is Err && r->Err_0@ == e,
        },
{
    proof {
        reveal_strlit("local");
        reveal_strlit("profile");
        reveal_strlit("videoconfig.txt");
        reveal_strlit("settings.cfg");
        reveal_strlit("profile.cfg");
    }
    let dir = under_root(user_profile, kind.subdir())?;
    Ok(path_join(dir.as_str(), kind.file_name()))
}

/// The document a file's bytes hold: decoded as `decode_spec` says, then
/// parsed, keeping the encoding it was read in.
pub open spec fn doc_of_bytes(b: Seq<u8>) -> Result<(Seq<CfgLine>, Option<Seq<char>>, crate::game::apex::config::encoding::ApexFileEncoding), DecodeFailure> {
    match decode_spec(b) {
        Ok((s, e)) => Ok((lines(s).map_values(|l: Seq<char>| classify(l)), root_name_of(lines(s)), e)),
        Err(f) => Err(f),
    }
}

impl ApexCfgDocument {
    /// The document a file's bytes hold.
    pub fn load_from_bytes(bytes: &[u8]) -> (r: Result<Self, String>)
        requires
            bytes@.len() <= usize::MAX / 4,
        ensures
            match doc_of_bytes(bytes@) {
                Ok((ls, root, e)) => r matches Ok(d) && lines_view(d.lines@) == ls && opt_view(d.root_name) == root
                    && d.encoding == e,
                Err(DecodeFailure::Utf16Be) => r matches Err(m) && m@ == utf16_be_message(),
                Err(DecodeFailure::BadUtf8AfterBom) => r matches Err(m) && m@ == "UTF-8 BOM 文件解码失败: "@
                    + utf8_error_text(bytes@.skip(3)),
            },
            forall|e: ApexFileEncoding, s: Seq<char>| #[trigger] encoded(e, s) == bytes@ && reads_back(e, s)
                ==> (r matches Ok(d) && lines_view(d.lines@) == lines(remove_nul(s)).map_values(|l: Seq<char>| classify(l))
                && opt_view(d.root_name) == root_name_of(lines(remove_nul(s))) && d.encoding == e),
    {
        let (content, encoding) = decode_bytes(bytes)?;
        let mut doc = Self::from_content(content.as_str(), encoding)?;
        doc.encoding = encoding;
        Ok(doc)
    }

    /// The document written when `videoconfig.txt` does not exist yet: the
    /// root name and an empty block.
    pub fn new_videoconfig() -> (r: Self)
        ensures
            lines_view(r.lines@) == seq![CfgLine::Raw("\"VideoConfig\""@), CfgLine::Raw("{"@), CfgLine::Raw("}"@)],
            opt_view(r.root_name) == Some("VideoConfig"@),
            r.encoding == crate::game::apex::config::encoding::ApexFileEncoding::Utf8,
    {
        let mut doc = ApexCfgDocument::new();
        doc.root_name = Some("VideoConfig".to_string());
        doc.lines.push(ApexCfgLine::Raw("\"VideoConfig\"".to_string()));
        doc.lines.push(ApexCfgLine::Raw("{".to_string()));
        doc.lines.push(ApexCfgLine::Raw("}".to_string()));
        assert(lines_view(doc.lines@) =~= seq![CfgLine::Raw("\"VideoConfig\""@), CfgLine::Raw("{"@), CfgLine::Raw("}"@)]);
        doc
    }
}

/// A key `patch_apex_videoconfig` accepts: it starts with `setting.` or `"`.
pub open spec fn video_key_ok(k: Seq<char>) -> bool {
    "setting."@.is_prefix_of(k) || (k.len() > 0 && k[0] == '"')
}

/// The lines after applying `updates` in order, or the first refused key.
pub open spec fn patch_lines(ls: Seq<CfgLine>, updates: Seq<(Seq<char>, Seq<char>)>) -> Result<Seq<CfgLine>, Seq<char>>
    decreases updates.len(),
{
    if updates.len() == 0 {
        Ok(ls)
    } else {
        match patch_lines(ls, updates.drop_last()) {
            Err(e) => Err(e),
            Ok(l2) => {
                let (k, v) = updates.last();
                if video_key_ok(k) {
                    Ok(set_lines(l2, trim_char(k, '"'), v))
                } else {
                    Err("非法配置键: "@ + k)
                }
            },
        }
    }
}

fn starts_with_str(s: &str, p: &str) -> (r: bool)
    ensures
        r == p@.is_prefix_of(s@),
{
    let v = crate::text::chars_of(s);
    let w = crate::text::chars_of(p);
    if w.len() > v.len() {
        return false;
    }
    let mut i: usize = 0;
    while i < w.len()
        invariant
            v@ == s@,
            w@ == p@,
            w@.len() <= v@.len(),
            i <= w@.len(),
            forall|j: int| 0 <= j < i ==> v@[j] == w@[j],
        decreases w@.len() - i,
    {
        if v[i] != w[i] {
            return false;
        }
        i = i + 1;
    }
    true
}

/// `videoconfig.txt` with `updates` applied in order: the document read from
/// the file, or the empty one when there is none. Nothing to update, or a
/// key that neither starts with `setting.` nor with a quote, is refused.
pub fn patch_apex_videoconfig(existing: Option<ApexCfgDocument>, updates: &[(String, String)]) -> (r: Result<ApexCfgDocument, String>)
    ensures
        updates@.len() == 0 ==> (r matches Err(e) && e@ == "没有需要写入的画质配置项"@),
        updates@.len() > 0 ==> {
            let start = match existing {
                Some(d) => lines_view(d.lines@),
                None => seq![CfgLine::Raw("\"VideoConfig\""@), CfgLine::Raw("{"@), CfgLine::Raw("}"@)],
            };
            match patch_lines(start, updates@.map_values(|u: (String, String)| (u.0@, u.1@))) {
                Ok(ls) => r matches Ok(d) && lines_view(d.lines@) == ls,
                Err(e) => r matches Err(m) && m@ == e,
            }
        },
        r matches Ok(d) ==> match existing {
            Some(e) => d.root_name == e.root_name && d.encoding == e.encoding,
            None => opt_view(d.root_name) == Some("VideoConfig"@)
                && d.encoding == crate::game::apex::config::encoding::ApexFileEncoding::Utf8,
        },
{
    if updates.len() == 0 {
        return Err("没有需要写入的画质配置项".to_string());
    }
    let mut doc = match existing {
        Some(d) => d,
        None => ApexCfgDocument::new_videoconfig(),
    };
    let ghost us = updates@.map_values(|u: (String, String)| (u.0@, u.1@));
    let ghost start = lines_view(doc.lines@);
    let mut i: usize = 0;
    assert(us.take(0) =~= Seq::<(Seq<char>, Seq<char>)>::empty());
    while i < updates.len()
        invariant
            i <= updates@.len(),
            us == updates@.map_values(|u: (String, String)| (u.0@, u.1@)),
            start == (match existing {
                Some(d) => lines_view(d.lines@),
                None => seq![CfgLine::Raw("\"VideoConfig\""@), CfgLine::Raw("{"@), CfgLine::Raw("}"@)],
            }),
            patch_lines(start, us.take(i as int)) == Ok::<Seq<CfgLine>, Seq<char>>(lines_view(doc.lines@)),
            match existing {
                Some(e) => doc.root_name == e.root_name && doc.encoding == e.encoding,
                None => opt_view(doc.root_name) == Some("VideoConfig"@)
                    && doc.encoding == crate::game::apex::config::encoding::ApexFileEncoding::Utf8,
            },
        decreases updates@.len() - i,
    {
        let key = updates[i].0.as_str();
        let value = updates[i].1.as_str();
        let ghost pre = us.take(i + 1);
        assert(pre.drop_last() =~= us.take(i as int));
        assert(pre.last() == (key@, value@));
        let kv = crate::text::chars_of(key);
        let quoted = kv.len() > 0 && kv[0] == '"';
        if !starts_with_str(key, "setting.") && !quoted {
            let mut m = String::new();
            push_str(&mut m, "非法配置键: ");
            push_str(&mut m, key);
            proof {
                lemma_patch_err(start, us, i as int);
            }
            return Err(m);
        }
        let normalized = trim_quotes(key);
        let _ = doc.set(normalized.as_str(), value);
        i = i + 1;
    }
    assert(us.take(updates@.len() as int) =~= us);
    Ok(doc)
}

/// `key.trim_matches('"')`.
fn trim_quotes(key: &str) -> (r: String)
    ensures
        r@ == trim_char(key@, '"'),
{
    let v = crate::text::chars_of(key);
    let (a, b) = crate::text::trim_char_bounds(&v, 0, v.len(), '"');
    assert(v@.subrange(0, v@.len() as int) =~= v@);
    crate::text::string_of_range(&v, a, b)
}

proof fn lemma_patch_err(start: Seq<CfgLine>, us: Seq<(Seq<char>, Seq<char>)>, i: int)
    requires
        0 <= i < us.len(),
        patch_lines(start, us.take(i)) is Ok,
        !video_key_ok(us[i].0),
    ensures
        patch_lines(start, us) == Err::<Seq<CfgLine>, Seq<char>>("非法配置键: "@ + us[i].0),
{
    assert(us.take(i + 1).drop_last() =~= us.take(i));
    lemma_patch_err_stays(start, us, i + 1, us.len() as int);
    assert(us.take(us.len() as int) =~= us);
}

proof fn lemma_patch_err_stays(start: Seq<CfgLine>, us: Seq<(Seq<char>, Seq<char>)>, i: int, j: int)
    requires
        0 <= i <= j <= us.len(),
        patch_lines(start, us.take(i)) is Err,
    ensures
        patch_lines(start, us.take(j)) == patch_lines(start, us.take(i)),
    decreases j - i,
{
    if j > i {
        lemma_patch_err_stays(start, us, i, j - 1);
        assert(us.take(j).drop_last() =~= us.take(j - 1));
    }
}

} // verus!
