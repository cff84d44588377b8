//! The languages Steam offers, with their Steam and Web API codes
//! (as the Steamworks localization table lists them).

use crate::text::str_eq;
use vstd::prelude::*;

verus! {

broadcast use vstd::string::group_string_axioms;

/// A Steam language: Chinese name, native name, Steam code, Web API code.
#[derive(Debug, Clone, Copy)]
pub struct SteamLanguage {
    pub cn_name: &'static str,
    pub name: &'static str,
    pub language: &'static str,
    pub web_api_language: &'static str,
}

/// A language as plain values, in field order.
pub type LanguageView = (Seq<char>, Seq<char>, Seq<char>, Seq<char>);

impl View for SteamLanguage {
    type V = LanguageView;

    open spec fn view(&self) -> LanguageView {
        (self.cn_name@, self.name@, self.language@, self.web_api_language@)
    }
}

/// Every supported language, in the order of the localization table.
pub open spec fn language_table() -> Seq<LanguageView> {
    seq![
        ("阿拉伯语 *"@, "العربية"@, "arabic"@, "ar"@),
        ("保加利亚语"@, "български език"@, "bulgarian"@, "bg"@),
        ("简体中文"@, "简体中文"@, "schinese"@, "zh-CN"@),
        ("繁体中文"@, "繁體中文"@, "tchinese"@, "zh-TW"@),
        ("捷克语"@, "čeština"@, "czech"@, "cs"@),
        ("丹麦语"@, "Dansk"@, "danish"@, "da"@),
        ("荷兰语"@, "Nederlands"@, "dutch"@, "nl"@),
        ("英语"@, "English"@, "english"@, "en"@),
        ("芬兰语"@, "Suomi"@, "finnish"@, "fi"@),
        ("法语"@, "Français"@, "french"@, "fr"@),
        ("德语"@, "Deutsch"@, "german"@, "de"@),
        ("希腊语"@, "Ελληνικά"@, "greek"@, "el"@),
        ("匈牙利语"@, "Magyar"@, "hungarian"@, "hu"@),
        ("印度尼西亚语"@, "Bahasa Indonesia"@, "indonesian"@, "id"@),
        ("意大利语"@, "Italiano"@, "italian"@, "it"@),
        ("日语"@, "日本語"@, "japanese"@, "ja"@),
        ("韩语"@, "한국어"@, "koreana"@, "ko"@),
        ("挪威语"@, "Norsk"@, "norwegian"@, "no"@),
        ("波兰语"@, "Polski"@, "polish"@, "pl"@),
        ("葡萄牙语"@, "Português"@, "portuguese"@, "pt"@),
        ("葡萄牙语 - 巴西"@, "Português-Brasil"@, "brazilian"@, "pt-BR"@),
        ("罗马尼亚语"@, "Română"@, "romanian"@, "ro"@),
        ("俄语"@, "Русский"@, "russian"@, "ru"@),
        ("西班牙语 - 西班牙"@, "Español-España"@, "spanish"@, "es"@),
        ("西班牙语 - 拉丁美洲"@, "Español-Latinoamérica"@, "latam"@, "es-419"@),
        ("瑞典语"@, "Svenska"@, "swedish"@, "sv"@),
        ("泰语"@, "ไทย"@, "thai"@, "th"@),
        ("土耳其语"@, "Türkçe"@, "turkish"@, "tr"@),
        ("乌克兰语"@, "Українська"@, "ukrainian"@, "uk"@),
        ("越南语"@, "Tiếng Việt"@, "vietnamese"@, "vi"@),
    ]
}

/// Position of the first language whose Steam code (`web` false) or Web API
/// code (`web` true) is `code`, or `-1`.
pub open spec fn language_pos(t: Seq<LanguageView>, code: Seq<char>, web: bool) -> int
    decreases t.len(),
{
    if t.len() == 0 {
        -1
    } else if (if web { t[0].3 } else { t[0].2 }) == code {
        0
    } else {
        let r = language_pos(t.drop_first(), code, web);
        if r < 0 {
            -1
        } else {
            r + 1
        }
    }
}

pub proof fn lemma_language_pos(t: Seq<LanguageView>, code: Seq<char>, web: bool, i: int)
    requires
        0 <= i <= t.len(),
        forall|j: int| 0 <= j < i ==> (if web { (#[trigger] t[j]).3 } else { t[j].2 }) != code,
        i == t.len() || (if web { t[i].3 } else { t[i].2 }) == code,
    ensures
        language_pos(t, code, web) == (if i == t.len() { -1 } else { i }),
    decreases i,
{
    if i > 0 {
        let u = t.drop_first();
        assert forall|j: int| 0 <= j < i - 1 implies (if web { (#[trigger] u[j]).3 } else { u[j].2 }) != code by {
            assert(u[j] == t[j + 1]);
        }
        if i < t.len() {
            assert(u[i - 1] == t[i]);
        }
        lemma_language_pos(u, code, web, i - 1);
    }
}

/// The language with the given code, looked up in table order.
pub open spec fn find_language(code: Seq<char>, web: bool) -> Option<LanguageView> {
    let p = language_pos(language_table(), code, web);
    if p >= 0 {
        Some(language_table()[p])
    } else {
        None
    }
}

impl SteamLanguage {
    /// Every supported language.
    pub fn all_languages() -> (r: Vec<SteamLanguage>)
        ensures
            r@.map_values(|l: SteamLanguage| l@) == language_table(),
    {
        let mut v: Vec<SteamLanguage> = Vec::new();
    v.push(SteamLanguage { cn_name: "阿拉伯语 *", name: "العربية", language: "arabic", web_api_language: "ar" });
    v.push(SteamLanguage { cn_name: "保加利亚语", name: "български език", language: "bulgarian", web_api_language: "bg" });
    v.push(SteamLanguage { cn_name: "简体中文", name: "简体中文", language: "schinese", web_api_language: "zh-CN" });
    v.push(SteamLanguage { cn_name: "繁体中文", name: "繁體中文", language: "tchinese", web_api_language: "zh-TW" });
    v.push(SteamLanguage { cn_name: "捷克语", name: "čeština", language: "czech", web_api_language: "cs" });
    v.push(SteamLanguage { cn_name: "丹麦语", name: "Dansk", language: "danish", web_api_language: "da" });
    v.push(SteamLanguage { cn_name: "荷兰语", name: "Nederlands", language: "dutch", web_api_language: "nl" });
    v.push(SteamLanguage { cn_name: "英语", name: "English", language: "english", web_api_language: "en" });
    v.push(SteamLanguage { cn_name: "芬兰语", name: "Suomi", language: "finnish", web_api_language: "fi" });
    v.push(SteamLanguage { cn_name: "法语", name: "Français", language: "french", web_api_language: "fr" });
    v.push(SteamLanguage { cn_name: "德语", name: "Deutsch", language: "german", web_api_language: "de" });
    v.push(SteamLanguage { cn_name: "希腊语", name: "Ελληνικά", language: "greek", web_api_language: "el" });
    v.push(SteamLanguage { cn_name: "匈牙利语", name: "Magyar", language: "hungarian", web_api_language: "hu" });
    v.push(SteamLanguage { cn_name: "印度尼西亚语", name: "Bahasa Indonesia", language: "indonesian", web_api_language: "id" });
    v.push(SteamLanguage { cn_name: "意大利语", name: "Italiano", language: "italian", web_api_language: "it" });
    v.push(SteamLanguage { cn_name: "日语", name: "日本語", language: "japanese", web_api_language: "ja" });
    v.push(SteamLanguage { cn_name: "韩语", name: "한국어", language: "koreana", web_api_language: "ko" });
    v.push(SteamLanguage { cn_name: "挪威语", name: "Norsk", language: "norwegian", web_api_language: "no" });
    v.push(SteamLanguage { cn_name: "波兰语", name: "Polski", language: "polish", web_api_language: "pl" });
    v.push(SteamLanguage { cn_name: "葡萄牙语", name: "Português", language: "portuguese", web_api_language: "pt" });
    v.push(SteamLanguage { cn_name: "葡萄牙语 - 巴西", name: "Português-Brasil", language: "brazilian", web_api_language: "pt-BR" });
    v.push(SteamLanguage { cn_name: "罗马尼亚语", name: "Română", language: "romanian", web_api_language: "ro" });
    v.push(SteamLanguage { cn_name: "俄语", name: "Русский", language: "russian", web_api_language: "ru" });
    v.push(SteamLanguage { cn_name: "西班牙语 - 西班牙", name: "Español-España", language: "spanish", web_api_language: "es" });
    v.push(SteamLanguage { cn_name: "西班牙语 - 拉丁美洲", name: "Español-Latinoamérica", language: "latam", web_api_language: "es-419" });
    v.push(SteamLanguage { cn_name: "瑞典语", name: "Svenska", language: "swedish", web_api_language: "sv" });
    v.push(SteamLanguage { cn_name: "泰语", name: "ไทย", language: "thai", web_api_language: "th" });
    v.push(SteamLanguage { cn_name: "土耳其语", name: "Türkçe", language: "turkish", web_api_language: "tr" });
    v.push(SteamLanguage { cn_name: "乌克兰语", name: "Українська", language: "ukrainian", web_api_language: "uk" });
    v.push(SteamLanguage { cn_name: "越南语", name: "Tiếng Việt", language: "vietnamese", web_api_language: "vi" });
        assert(v@.map_values(|l: SteamLanguage| l@) =~= language_table());
        v
    }

    fn find(code: &str, web: bool) -> (r: Option<SteamLanguage>)
        ensures
            match find_language(code@, web) {
                Some(x) => r is Some && r.unwrap()@ == x,
                None => r is None,
            },
    {
        let all = Self::all_languages();
        let ghost t = all@.map_values(|l: SteamLanguage| l@);
        let mut i: usize = 0;
        while i < all.len()
            invariant
                i <= all@.len(),
                t == all@.map_values(|l: SteamLanguage| l@),
                t == language_table(),
                forall|j: int| 0 <= j < i ==> (if web { (#[trigger] t[j]).3 } else { t[j].2 }) != code@,
            decreases all@.len() - i,
        {
            let l = all[i];
            assert(t[i as int] == l@);
            let hit = if web {
                str_eq(l.web_api_language, code)
            } else {
                str_eq(l.language, code)
            };
            if hit {
                proof {
                    lemma_language_pos(t, code@, web, i as int);
                }
                return Some(l);
            }
            i = i + 1;
        }
        proof {
            lemma_language_pos(t, code@, web, t.len() as int);
        }
        None
    }

    /// The language whose Steam code is `language_code`.
    pub fn from_language_code(language_code: &str) -> (r: Option<SteamLanguage>)
        ensures
            match find_language(language_code@, false) {
                Some(x) => r is Some && r.unwrap()@ == x,
                None => r is None,
            },
    {
        Self::find(language_code, false)
    }

    /// The language whose Web API code is `web_api_code`.
    pub fn from_web_api_code(web_api_code: &str) -> (r: Option<SteamLanguage>)
        ensures
            match find_language(web_api_code@, true) {
                Some(x) => r is Some && r.unwrap()@ == x,
                None => r is None,
            },
    {
        Self::find(web_api_code, true)
    }
}

} // verus!
