//! What EA Desktop's logs and INI files tell about its users: the `nuchash`
//! of each `setUserId` line of `EADesktop.log` paired with the `user_<id>.ini`
//! named after it, persona names from `GetProfileResponse` lines, and the
//! assembly of a user from the INI pairs and what the logs gave.

use crate::game::apex::config::value::{pair_pos, pairs_insert};
use crate::game::ea::{ascii_lower, char_ascii_lower, pairs_view};
use crate::game::steam::strings_view;
use crate::numeric::{digit_run, lemma_digit_run};
use crate::text::{
    strs_view, chars_of, contains_seq, find_from, find_char_in, find_seq_from, index_of_char, is_digit,
    lemma_find_from, occurs_at, push_char, push_str, str_eq, string_of_range, trim, trim_bounds,
};
use vstd::prelude::*;

verus! {

broadcast use vstd::string::group_string_axioms;

pub open spec fn is_hex_digit(c: char) -> bool {
    is_digit(c) || ('a' <= c && c <= 'f') || ('A' <= c && c <= 'F')
}

/// `str::to_ascii_lowercase`.
pub open spec fn ascii_lower_seq(s: Seq<char>) -> Seq<char> {
    s.map_values(|c: char| ascii_lower(c))
}

/// The `nuchash=[...]` of a log line: trimmed, non-empty hexadecimal,
/// returned in lower case.
pub open spec fn nuchash_of(l: Seq<char>) -> Option<Seq<char>> {
    let i = find_from(l, "nuchash=["@, 0);
    if i < 0 {
        None
    } else {
        let rest = l.skip(i + "nuchash=["@.len());
        let e = index_of_char(rest, ']');
        if e >= rest.len() {
            None
        } else {
            let h = trim(rest.take(e as int));
            if h.len() == 0 || !(forall|j: int| 0 <= j < h.len() ==> is_hex_digit(#[trigger] h[j])) {
                None
            } else {
                Some(ascii_lower_seq(h))
            }
        }
    }
}

fn lower_range(v: &Vec<char>, a: usize, b: usize) -> (r: String)
    requires
        a <= b <= v.len(),
    ensures
        r@ == ascii_lower_seq(v@.subrange(a as int, b as int)),
{
    let mut out = String::new();
    let mut i = a;
    while i < b
        invariant
            a <= i <= b <= v.len(),
            out@ == ascii_lower_seq(v@.subrange(a as int, i as int)),
        decreases b - i,
    {
        push_char(&mut out, char_ascii_lower(v[i]));
        i = i + 1;
        assert(out@ =~= ascii_lower_seq(v@.subrange(a as int, i as int)));
    }
    out
}

/// The `nuchash` a log line carries.
pub fn nuchash_from_line(line: &str) -> (r: Option<String>)
    ensures
        match nuchash_of(line@) {
            Some(h) => r is Some && r.unwrap()@ == h,
            None => r is None,
        },
{
    let v = chars_of(line);
    let key = chars_of("nuchash=[");
    let i = match find_seq_from(&v, &key, 0) {
        Some(i) => i,
        None => {
            return None;
        },
    };
    proof {
        lemma_find_from(v@, key@, 0);
    }
    assert(occurs_at(v@, key@, i as int));
    assert(i + key@.len() <= v@.len());
    assert(v@.len() == v.len() && key@.len() == key.len());
    let start = i + key.len();
    let e = find_char_in(&v, start, v.len(), ']');
    assert(v@.skip(start as int) =~= v@.subrange(start as int, v@.len() as int));
    if e == v.len() {
        return None;
    }
    let (a, b) = trim_bounds(&v, start, e);
    proof {
        let rest = line@.skip(i + "nuchash=["@.len());
        assert(rest =~= v@.subrange(start as int, v@.len() as int));
        assert(rest.take(e - start) =~= v@.subrange(start as int, e as int));
    }
    if a == b {
        assert(v@.subrange(a as int, b as int) =~= Seq::<char>::empty());
        return None;
    }
    if !range_all_hex(&v, a, b) {
        return None;
    }
    Some(lower_range(&v, a, b))
}

/// Whether `v[a..b]` is all hexadecimal digits.
fn range_all_hex(v: &Vec<char>, a: usize, b: usize) -> (r: bool)
    requires
        a <= b <= v.len(),
    ensures
        r == (forall|k: int| 0 <= k < b - a ==> is_hex_digit(#[trigger] v@.subrange(a as int, b as int)[k])),
{
    let mut j = a;
    while j < b
        invariant
            a <= j <= b <= v.len(),
            forall|k: int| a <= k < j ==> is_hex_digit(#[trigger] v@[k]),
        decreases b - j,
    {
        let c = v[j];
        if !(('0' <= c && c <= '9') || ('a' <= c && c <= 'f') || ('A' <= c && c <= 'F')) {
            assert(v@.subrange(a as int, b as int)[j - a] == c);
            return false;
        }
        j = j + 1;
    }
    assert forall|k: int| 0 <= k < b - a implies is_hex_digit(#[trigger] v@.subrange(a as int, b as int)[k]) by {
        assert(v@.subrange(a as int, b as int)[k] == v@[a + k]);
    }
    true
}

/// The id of the first `user_<digits>.ini` in `s` at or after `from`.
pub open spec fn ini_id_from(s: Seq<char>, from: int) -> Option<Seq<char>>
    decreases s.len() + 1 - from,
{
    if from < 0 {
        None
    } else {
        let i = find_from(s, "user_"@, from);
        if i < 0 {
            None
        } else {
            let tail = s.skip(i + "user_"@.len());
            let n = digit_run(tail);
            if n > 0 && ".ini"@.is_prefix_of(tail.skip(n as int)) {
                Some(tail.take(n as int))
            } else {
                proof {
                    lemma_find_from(s, "user_"@, from);
                    reveal_strlit("user_");
                }
                ini_id_from(s, i + "user_"@.len())
            }
        }
    }
}

/// The id of the first `user_<digits>.ini` a log line names.
pub fn user_ini_id_from_line(line: &str) -> (r: Option<String>)
    ensures
        match ini_id_from(line@, 0) {
            Some(id) => r is Some && r.unwrap()@ == id,
            None => r is None,
        },
{
    let v = chars_of(line);
    let key = chars_of("user_");
    let suffix = chars_of(".ini");
    proof {
        reveal_strlit("user_");
        reveal_strlit(".ini");
    }
    let mut from: usize = 0;
    while from <= v.len()
        invariant
            v@ == line@,
            key@ == "user_"@,
            suffix@ == ".ini"@,
            ini_id_from(v@, 0) == ini_id_from(v@, from as int),
        decreases v@.len() + 1 - from,
    {
        proof {
            reveal_strlit("user_");
            reveal_strlit(".ini");
        }
        let i = match find_seq_from(&v, &key, from) {
            Some(i) => i,
            None => {
                return None;
            },
        };
        proof {
            lemma_find_from(v@, key@, from as int);
        }
        assert(occurs_at(v@, key@, i as int));
        assert(v@.len() == v.len());
        let t = i + 5;
        let mut n = t;
        while n < v.len() && '0' <= v[n] && v[n] <= '9'
            invariant
                t <= n <= v.len(),
                forall|k: int| t <= k < n ==> is_digit(#[trigger] v@[k]),
            decreases v@.len() - n,
        {
            n = n + 1;
        }
        let ghost tail = v@.skip(t as int);
        proof {
            assert forall|k: int| 0 <= k < n - t implies is_digit(#[trigger] tail[k]) by {
                assert(tail[k] == v@[t + k]);
            }
            if n < v.len() {
                assert(tail[n - t] == v@[n as int]);
            }
            lemma_digit_run(tail, n - t);
        }
        let ends_ini = n > t && crate::text::occurs_at_exec(&v, &suffix, n);
        proof {
            assert(tail.skip(n - t) =~= v@.skip(n as int));
            if n + 4 <= v.len() {
                assert(".ini"@.is_prefix_of(tail.skip(n - t)) == (v@.subrange(n as int, n + 4) == ".ini"@)) by {
                    if v@.subrange(n as int, n + 4) == ".ini"@ {
                        assert forall|k: int| 0 <= k < 4 implies tail.skip(n - t)[k] == ".ini"@[k] by {
                            assert(tail.skip(n - t)[k] == v@.subrange(n as int, n + 4)[k]);
                        }
                    } else if ".ini"@.is_prefix_of(tail.skip(n - t)) {
                        assert(v@.subrange(n as int, n + 4) =~= ".ini"@);
                    }
                }
            }
        }
        if ends_ini {
            assert(tail.take(n - t) =~= v@.subrange(t as int, n as int));
            return Some(string_of_range(&v, t, n));
        }
        from = t;
    }
    None
}

/// Whether `p` occurs in `s`.
pub fn str_contains(s: &str, p: &str) -> (r: bool)
    ensures
        r == contains_seq(s@, p@),
{
    let v = chars_of(s);
    let w = chars_of(p);
    find_seq_from(&v, &w, 0).is_some()
}

/// The persona name of a `GetProfileResponse` line: the non-empty text
/// between `Persona="` and the next `"`.
pub open spec fn persona_of(l: Seq<char>) -> Option<Seq<char>> {
    if !(contains_seq(l, "GetProfileResponse"@) && contains_seq(l, "Persona=\""@)) {
        None
    } else {
        let i = find_from(l, "Persona=\""@, 0);
        let rest = l.skip(i + "Persona=\""@.len());
        let e = index_of_char(rest, '"');
        if e >= rest.len() || e == 0 {
            None
        } else {
            Some(rest.take(e as int))
        }
    }
}

/// The persona name a log line reports.
pub fn persona_from_get_profile_line(line: &str) -> (r: Option<String>)
    ensures
        match persona_of(line@) {
            Some(p) => r is Some && r.unwrap()@ == p,
            None => r is None,
        },
{
    if !(str_contains(line, "GetProfileResponse") && str_contains(line, "Persona=\"")) {
        return None;
    }
    let v = chars_of(line);
    let key = chars_of("Persona=\"");
    let i = match find_seq_from(&v, &key, 0) {
        Some(i) => i,
        None => {
            return None;
        },
    };
    proof {
        lemma_find_from(v@, key@, 0);
    }
    assert(occurs_at(v@, key@, i as int));
    assert(v@.len() == v.len() && key@.len() == key.len());
    let start = i + key.len();
    let e = find_char_in(&v, start, v.len(), '"');
    proof {
        let rest = line@.skip(i + "Persona=\""@.len());
        assert(rest =~= v@.subrange(start as int, v@.len() as int));
        assert(rest.take(e - start) =~= v@.subrange(start as int, e as int));
    }
    if e == v.len() || e == start {
        return None;
    }
    Some(string_of_range(&v, start, e))
}

pub open spec fn is_setuser_line(l: Seq<char>) -> bool {
    contains_seq(l, "setUserId"@) && contains_seq(l, "nuchash=["@)
}

/// The `user_<id>.ini` a `setUserId` line leads to: scanning the lines from
/// `k` up to `end` (and stopping at the next `setUserId` line), the first id
/// on an `Unable to open file` line, else the first id seen.
pub open spec fn ini_after(ls: Seq<Seq<char>>, k: int, end: int, fallback: Option<Seq<char>>) -> Option<Seq<char>>
    decreases end - k,
{
    if k >= end || k < 0 || k >= ls.len() {
        fallback
    } else if is_setuser_line(ls[k]) {
        fallback
    } else {
        match ini_id_from(ls[k], 0) {
            None => ini_after(ls, k + 1, end, fallback),
            Some(id) => if contains_seq(ls[k], "Unable to open file"@) {
                Some(id)
            } else {
                ini_after(ls, k + 1, end, if fallback is None { Some(id) } else { fallback })
            },
        }
    }
}

/// What `user_ini_after_setuser` gives: the scan of `lines[i + 1..j_end]`,
/// nothing when that range does not exist.
pub open spec fn ini_after_setuser(ls: Seq<Seq<char>>, i: int, j_end: int) -> Option<Seq<char>> {
    if 0 <= i && i + 1 <= j_end && j_end <= ls.len() {
        ini_after(ls, i + 1, j_end, None)
    } else {
        None
    }
}

pub open spec fn opt_seq(o: Option<String>) -> Option<Seq<char>> {
    match o {
        Some(s) => Some(s@),
        None => None,
    }
}

/// The INI id that follows the `setUserId` line `i`, within `lines[i + 1..j_end]`.
pub fn user_ini_after_setuser(lines: &Vec<String>, i: usize, j_end: usize) -> (r: Option<String>)
    ensures
        opt_seq(r) == ini_after_setuser(strings_view(lines@), i as int, j_end as int),
{
    let ghost ls = strings_view(lines@);
    if !(i < j_end && j_end <= lines.len()) {
        return None;
    }
    let mut fallback: Option<String> = None;
    let mut k = i + 1;
    while k < j_end
        invariant
            i + 1 <= k <= j_end <= lines@.len(),
            ls == strings_view(lines@),
            ini_after(ls, i + 1, j_end as int, None) == ini_after(ls, k as int, j_end as int, opt_seq(fallback)),
        decreases j_end - k,
    {
        let line = lines[k].as_str();
        assert(ls[k as int] == line@);
        if str_contains(line, "setUserId") && str_contains(line, "nuchash=[") {
            return fallback;
        }
        match user_ini_id_from_line(line) {
            None => {},
            Some(id) => {
                if str_contains(line, "Unable to open file") {
                    return Some(id);
                }
                if fallback.is_none() {
                    fallback = Some(id);
                }
            },
        }
        k = k + 1;
    }
    fallback
}

/// Pairs `(nuchash, ini id)` gathered from the first `n` log lines: each
/// `setUserId` line with a `nuchash` and an INI id within the next 120 lines;
/// a later pair for the same `nuchash` replaces the earlier one's id.
pub open spec fn log_pairs(ls: Seq<Seq<char>>, n: int) -> Seq<(Seq<char>, Seq<char>)>
    decreases n,
{
    if n <= 0 || n > ls.len() {
        seq![]
    } else {
        let acc = log_pairs(ls, n - 1);
        let i = n - 1;
        if !is_setuser_line(ls[i]) {
            acc
        } else {
            match nuchash_of(ls[i]) {
                None => acc,
                Some(h) => {
                    let j_end = if i + 1 + 120 < ls.len() { i + 1 + 120 } else { ls.len() as int };
                    match ini_after_setuser(ls, i, j_end) {
                        Some(id) => pairs_insert(acc, h, id),
                        None => acc,
                    }
                },
            }
        }
    }
}

/// `pairs_insert` on a vector of pairs.
pub(crate) fn insert_pair(ps: &mut Vec<(String, String)>, k: String, v: String)
    ensures
        pairs_view(final(ps)@) == pairs_insert(pairs_view(old(ps)@), k@, v@),
{
    let ghost pv = pairs_view(ps@);
    let mut i: usize = 0;
    while i < ps.len()
        invariant
            i <= ps@.len(),
            pv == pairs_view(ps@),
            pv == pairs_view(old(ps)@),
            forall|j: int| 0 <= j < i ==> (#[trigger] pv[j]).0 != k@,
        decreases ps@.len() - i,
    {
        assert(pv[i as int] == (ps@[i as int].0@, ps@[i as int].1@));
        if str_eq(ps[i].0.as_str(), k.as_str()) {
            proof {
                lemma_pair_pos(pv, k@, i as int);
            }
            ps.set(i, (k, v));
            assert(pairs_view(ps@) =~= pv.update(i as int, (k@, v@)));
            return;
        }
        i = i + 1;
    }
    proof {
        lemma_pair_pos(pv, k@, pv.len() as int);
    }
    ps.push((k, v));
    assert(pairs_view(ps@) =~= pv.push((k@, v@)));
}

proof fn lemma_pair_pos(es: Seq<(Seq<char>, Seq<char>)>, k: Seq<char>, i: int)
    requires
        0 <= i <= es.len(),
        forall|j: int| 0 <= j < i ==> (#[trigger] es[j]).0 != k,
        i == es.len() || es[i].0 == k,
    ensures
        pair_pos(es, k) == (if i == es.len() { -1 } else { i }),
    decreases i,
{
    if i > 0 {
        let t = es.drop_first();
        assert forall|j: int| 0 <= j < i - 1 implies (#[trigger] t[j]).0 != k by {
            assert(t[j] == es[j + 1]);
        }
        if i < es.len() {
            assert(t[i - 1] == es[i]);
        }
        lemma_pair_pos(t, k, i - 1);
    }
}

/// The `(nuchash, INI id)` pairs of the lines of `EADesktop.log`.
pub fn nuchash_to_config_id(lines: &Vec<String>) -> (r: Vec<(String, String)>)
    ensures
        pairs_view(r@) == log_pairs(strings_view(lines@), lines@.len() as int),
{
    let ghost ls = strings_view(lines@);
    let n = lines.len();
    let mut out: Vec<(String, String)> = Vec::new();
    let mut i: usize = 0;
    assert(pairs_view(out@) =~= Seq::<(Seq<char>, Seq<char>)>::empty());
    while i < n
        invariant
            i <= n == lines@.len(),
            ls == strings_view(lines@),
            pairs_view(out@) == log_pairs(ls, i as int),
        decreases n - i,
    {
        let line = lines[i].as_str();
        assert(ls[i as int] == line@);
        if str_contains(line, "setUserId") && str_contains(line, "nuchash=[") {
            match nuchash_from_line(line) {
                Some(hash) => {
                    let j_end = if n - i > 121 { i + 121 } else { n };
                    match user_ini_after_setuser(lines, i, j_end) {
                        Some(id) => {
                            insert_pair(&mut out, hash, id);
                        },
                        None => {},
                    }
                },
                None => {},
            }
        }
        i = i + 1;
    }
    out
}

/// `str::to_ascii_lowercase`.
pub fn str_ascii_lower(s: &str) -> (r: String)
    ensures
        r@ == ascii_lower_seq(s@),
{
    let v = chars_of(s);
    let r = lower_range(&v, 0, v.len());
    assert(v@.subrange(0, v@.len() as int) =~= v@);
    r
}

/// The image names of EA Desktop's processes, in the order they are looked for.
pub fn ea_process_names() -> (r: Vec<&'static str>)
    ensures
        strs_view(r@) == seq!["EADesktop.exe"@, "EALauncher.exe"@, "EABackgroundAgent.exe"@, "EASteamProxy.exe"@],
{
    let r = vec!["EADesktop.exe", "EALauncher.exe", "EABackgroundAgent.exe", "EASteamProxy.exe"];
    assert(strs_view(r@) =~= seq!["EADesktop.exe"@, "EALauncher.exe"@, "EABackgroundAgent.exe"@, "EASteamProxy.exe"@]);
    r
}

/// Whether `tasklist` output, in Unicode lower case, names the image `name`
/// in ASCII lower case.
pub fn ea_listed_in_tasklist(output: &str, name: &str) -> (r: bool)
    ensures
        r == contains_seq(unicode_lowercase(output@), ascii_lower_seq(name@)),
{
    let lower = str_to_lowercase(output);
    let n = str_ascii_lower(name);
    str_contains(lower.as_str(), n.as_str())
}

/// `str::to_lowercase` (Unicode lower case); its tables are not restated here.
pub uninterp spec fn unicode_lowercase(s: Seq<char>) -> Seq<char>;

/// `str::to_lowercase`: the result is named by `unicode_lowercase`.
#[verifier::external_body]
pub(crate) fn str_to_lowercase(s: &str) -> (r: String)
    ensures
        r@ == unicode_lowercase(s@),
{
    s.to_lowercase()
}

/// A user of EA Desktop.
#[derive(Clone, Debug)]
pub struct EaDesktopUser {
    pub id: String,
    pub name: String,
    pub avatar: String,
    pub config_path: String,
    pub user_userid: String,
    pub nu_hash: String,
}

/// The value of the last pair whose key, lower-cased, is `key` (the INI
/// pairs are looked up by lower-cased key, a later pair winning).
pub open spec fn last_lower_value(ps: Seq<(Seq<char>, Seq<char>)>, key: Seq<char>) -> Option<Seq<char>>
    decreases ps.len(),
{
    if ps.len() == 0 {
        None
    } else if unicode_lowercase(ps.last().0) == key {
        Some(ps.last().1)
    } else {
        last_lower_value(ps.drop_last(), key)
    }
}

/// The first non-empty value among `keys`, tried in order.
pub open spec fn first_nonempty(ps: Seq<(Seq<char>, Seq<char>)>, keys: Seq<Seq<char>>) -> Option<Seq<char>>
    decreases keys.len(),
{
    if keys.len() == 0 {
        None
    } else {
        match last_lower_value(ps, keys[0]) {
            Some(v) => if v.len() > 0 {
                Some(v)
            } else {
                first_nonempty(ps, keys.drop_first())
            },
            None => first_nonempty(ps, keys.drop_first()),
        }
    }
}

pub open spec fn display_name_keys() -> Seq<Seq<char>> {
    seq![
        "user.eadisplayname"@,
        "user.maynickname"@,
        "user.displayname"@,
        "user.personaname"@,
        "user.nickname"@,
        "user.username"@,
    ]
}

pub open spec fn avatar_keys() -> Seq<Seq<char>> {
    seq!["user.avataruri"@, "user.avatarurl"@, "user.pictureurl"@, "user.portraiturl"@, "user.profileimageurl"@]
}

/// The INI pairs with their keys lower-cased.
fn lowered(ps: &Vec<(String, String)>) -> (r: Vec<(String, String)>)
    ensures
        pairs_view(r@) == pairs_view(ps@).map_values(|p: (Seq<char>, Seq<char>)| (unicode_lowercase(p.0), p.1)),
{
    let ghost pv = pairs_view(ps@);
    let mut out: Vec<(String, String)> = Vec::new();
    let mut i: usize = 0;
    while i < ps.len()
        invariant
            i <= ps@.len(),
            pv == pairs_view(ps@),
            pairs_view(out@) == pv.take(i as int).map_values(|p: (Seq<char>, Seq<char>)| (unicode_lowercase(p.0), p.1)),
        decreases ps@.len() - i,
    {
        let ghost before = out@;
        let k = str_to_lowercase(ps[i].0.as_str());
        let v = ps[i].1.as_str().to_string();
        out.push((k, v));
        assert(pv[i as int] == (ps@[i as int].0@, ps@[i as int].1@));
        assert(pairs_view(out@) =~= pairs_view(before).push((k@, v@)));
        assert(pairs_view(out@) =~= pv.take(i + 1).map_values(|p: (Seq<char>, Seq<char>)| (unicode_lowercase(p.0), p.1)));
        i = i + 1;
    }
    assert(pv.take(ps@.len() as int) =~= pv);
    out
}

/// `last_lower_value` over pairs whose keys are lower-cased already.
fn last_value_of(low: &Vec<(String, String)>, key: &str) -> (r: Option<String>)
    ensures
        forall|ps: Seq<(Seq<char>, Seq<char>)>|
            pairs_view(low@) == ps.map_values(|p: (Seq<char>, Seq<char>)| (unicode_lowercase(p.0), p.1))
                ==> #[trigger] last_lower_value(ps, key@) == opt_seq(r),
{
    let mut i = low.len();
    while i > 0
        invariant
            i <= low@.len(),
            forall|j: int| i <= j < low@.len() ==> #[trigger] low@[j].0@ != key@,
        decreases i,
    {
        if str_eq(low[i - 1].0.as_str(), key) {
            let r = Some(low[i - 1].1.clone());
            proof {
                assert forall|ps: Seq<(Seq<char>, Seq<char>)>|
                    pairs_view(low@) == ps.map_values(|p: (Seq<char>, Seq<char>)| (unicode_lowercase(p.0), p.1))
                    implies #[trigger] last_lower_value(ps, key@) == opt_seq(r) by {
                    lemma_last_lower(ps, low@, key@, (i - 1) as int);
                }
            }
            return r;
        }
        i = i - 1;
    }
    proof {
        assert forall|ps: Seq<(Seq<char>, Seq<char>)>|
            pairs_view(low@) == ps.map_values(|p: (Seq<char>, Seq<char>)| (unicode_lowercase(p.0), p.1))
            implies #[trigger] last_lower_value(ps, key@) == opt_seq(None::<String>) by {
            lemma_last_lower(ps, low@, key@, -1);
        }
    }
    None
}

proof fn lemma_last_lower(ps: Seq<(Seq<char>, Seq<char>)>, low: Seq<(String, String)>, key: Seq<char>, i: int)
    requires
        pairs_view(low) == ps.map_values(|p: (Seq<char>, Seq<char>)| (unicode_lowercase(p.0), p.1)),
        -1 <= i < low.len(),
        forall|j: int| i < j < low.len() ==> #[trigger] low[j].0@ != key,
        i >= 0 ==> low[i].0@ == key,
    ensures
        last_lower_value(ps, key) == (if i >= 0 { Some(low[i].1@) } else { None::<Seq<char>> }),
    decreases ps.len(),
{
    assert(pairs_view(low).len() == ps.len());
    if ps.len() > 0 {
        let n = ps.len() - 1;
        assert(pairs_view(low)[n] == (low[n].0@, low[n].1@));
        assert(pairs_view(low)[n] == (unicode_lowercase(ps[n].0), ps[n].1));
        if i < n {
            let low2 = low.drop_last();
            assert(pairs_view(low2) =~= pairs_view(low).drop_last());
            assert(ps.drop_last().map_values(|p: (Seq<char>, Seq<char>)| (unicode_lowercase(p.0), p.1)) =~= ps.map_values(
                |p: (Seq<char>, Seq<char>)| (unicode_lowercase(p.0), p.1),
            ).drop_last());
            assert forall|j: int| i < j < low2.len() implies #[trigger] low2[j].0@ != key by {
                assert(low2[j] == low[j]);
            }
            if i >= 0 {
                assert(low2[i] == low[i]);
            }
            lemma_last_lower(ps.drop_last(), low2, key, i);
        }
    }
}

/// The first non-empty value among `keys` in pairs with lower-cased keys.
fn first_value(low: &Vec<(String, String)>, keys: &Vec<&str>) -> (r: Option<String>)
    ensures
        forall|ps: Seq<(Seq<char>, Seq<char>)>|
            pairs_view(low@) == ps.map_values(|p: (Seq<char>, Seq<char>)| (unicode_lowercase(p.0), p.1))
                ==> #[trigger] first_nonempty(ps, crate::text::strs_view(keys@)) == opt_seq(r),
{
    let ghost ks = crate::text::strs_view(keys@);
    let mut i: usize = 0;
    assert(ks.skip(0) =~= ks);
    while i < keys.len()
        invariant
            i <= keys@.len(),
            ks == crate::text::strs_view(keys@),
            forall|ps: Seq<(Seq<char>, Seq<char>)>|
                pairs_view(low@) == ps.map_values(|p: (Seq<char>, Seq<char>)| (unicode_lowercase(p.0), p.1))
                    ==> #[trigger] first_nonempty(ps, ks) == first_nonempty(ps, ks.skip(i as int)),
        decreases keys@.len() - i,
    {
        let v = last_value_of(low, keys[i]);
        assert(ks.skip(i as int)[0] == keys@[i as int]@);
        assert(ks.skip(i as int).drop_first() =~= ks.skip(i + 1));
        match v {
            Some(x) => {
                if x.as_str().unicode_len() > 0 {
                    return Some(x);
                }
            },
            None => {},
        }
        i = i + 1;
    }
    assert(ks.skip(i as int) =~= Seq::<Seq<char>>::empty());
    None
}

/// The text after replacing, left to right, each occurrence of `p` at or
/// after `from` by `r` (`str::replace` for a non-empty `p`).
pub open spec fn replace_from(s: Seq<char>, p: Seq<char>, r: Seq<char>, from: int) -> Seq<char>
    decreases s.len() + 1 - from,
{
    if from < 0 || from > s.len() {
        seq![]
    } else {
        let i = find_from(s, p, from);
        if i < 0 || p.len() == 0 {
            s.skip(from)
        } else {
            proof {
                lemma_find_from(s, p, from);
            }
            s.subrange(from, i) + r + replace_from(s, p, r, i + p.len())
        }
    }
}

/// `s.replace(p, r)` for a non-empty pattern.
pub fn replace_all(s: &str, p: &str, r: &str) -> (out: String)
    requires
        p@.len() > 0,
    ensures
        out@ == replace_from(s@, p@, r@, 0),
{
    let v = chars_of(s);
    let w = chars_of(p);
    let mut out = String::new();
    let mut from: usize = 0;
    while from <= v.len()
        invariant
            v@ == s@,
            w@ == p@,
            w@.len() > 0,
            replace_from(v@, w@, r@, 0) == out@ + replace_from(v@, w@, r@, from as int),
        decreases v@.len() + 1 - from,
    {
        match find_seq_from(&v, &w, from) {
            Some(i) => {
                proof {
                    lemma_find_from(v@, w@, from as int);
                }
                assert(occurs_at(v@, w@, i as int));
                assert(v@.len() == v.len() && w@.len() == w.len());
                let piece = string_of_range(&v, from, i);
                push_str(&mut out, piece.as_str());
                push_str(&mut out, r);
                proof {
                    let rest = replace_from(v@, w@, r@, (i + w@.len()) as int);
                    assert(replace_from(v@, w@, r@, from as int) == v@.subrange(from as int, i as int) + r@ + rest);
                }
                from = i + w.len();
            },
            None => {
                let piece = string_of_range(&v, from, v.len());
                push_str(&mut out, piece.as_str());
                assert(v@.skip(from as int) =~= v@.subrange(from as int, v@.len() as int));
                return out;
            },
        }
    }
    out
}

/// The avatar URL asked for in 208x208 instead of 40x40 or 128x128.
pub open spec fn normalized_avatar(u: Seq<char>) -> Seq<char> {
    let n = "208x208"@;
    replace_from(
        replace_from(replace_from(replace_from(u, "40X40"@, n, 0), "40x40"@, n, 0), "128X128"@, n, 0),
        "128x128"@,
        n,
        0,
    )
}

/// The avatar URL asked for in 208x208.
pub fn normalize_ea_avatar_url(url: &str) -> (r: String)
    ensures
        r@ == normalized_avatar(url@),
{
    proof {
        reveal_strlit("40X40");
        reveal_strlit("40x40");
        reveal_strlit("128X128");
        reveal_strlit("128x128");
    }
    let a = replace_all(url, "40X40", "208x208");
    let b = replace_all(a.as_str(), "40x40", "208x208");
    let c = replace_all(b.as_str(), "128X128", "208x208");
    replace_all(c.as_str(), "128x128", "208x208")
}

/// A user as plain values: id, name, avatar, configuration path, user id
/// from the INI file, `nuchash`.
pub open spec fn ea_user_of(
    ini_id: Seq<char>,
    ps: Seq<(Seq<char>, Seq<char>)>,
    config_path: Seq<char>,
    nu_hash: Seq<char>,
    persona: Option<Seq<char>>,
    avatar_url: Option<Seq<char>>,
) -> (Seq<char>, Seq<char>, Seq<char>, Seq<char>, Seq<char>, Seq<char>) {
    let name = match persona {
        Some(p) => p,
        None => match first_nonempty(ps, display_name_keys()) {
            Some(n) => n,
            None => "EA "@ + ini_id,
        },
    };
    let avatar_src = match avatar_url {
        Some(a) => a,
        None => match first_nonempty(ps, avatar_keys()) {
            Some(a) => a,
            None => seq![],
        },
    };
    let user_userid = match first_nonempty(ps, seq!["user.userid"@]) {
        Some(u) => u,
        None => seq![],
    };
    (ini_id, name, normalized_avatar(avatar_src), config_path, user_userid, nu_hash)
}

pub open spec fn ea_user_view(u: EaDesktopUser) -> (Seq<char>, Seq<char>, Seq<char>, Seq<char>, Seq<char>, Seq<char>) {
    (u.id@, u.name@, u.avatar@, u.config_path@, u.user_userid@, u.nu_hash@)
}

fn unwrap_or_string(o: Option<String>, d: String) -> (r: String)
    ensures
        r@ == (match o {
            Some(s) => s@,
            None => d@,
        }),
{
    match o {
        Some(s) => s,
        None => d,
    }
}

/// The user of the INI file `user_<ini_id>.ini` whose pairs are `lines`:
/// the persona and avatar the logs gave win over the INI values, and the
/// name falls back to `EA <id>`.
pub fn ea_desktop_user(
    ini_id: &str,
    lines: &Vec<(String, String)>,
    config_path: &str,
    nu_hash: &str,
    persona: Option<&str>,
    avatar_url: Option<&str>,
) -> (r: EaDesktopUser)
    ensures
        ea_user_view(r) == ea_user_of(
            ini_id@,
            pairs_view(lines@),
            config_path@,
            nu_hash@,
            match persona { Some(p) => Some(p@), None => None },
            match avatar_url { Some(a) => Some(a@), None => None },
        ),
{
    let ghost ps = pairs_view(lines@);
    let low = lowered(lines);
    let name_keys: Vec<&str> = vec![
        "user.eadisplayname",
        "user.maynickname",
        "user.displayname",
        "user.personaname",
        "user.nickname",
        "user.username",
    ];
    let pic_keys: Vec<&str> = vec!["user.avataruri", "user.avatarurl", "user.pictureurl", "user.portraiturl", "user.profileimageurl"];
    let id_keys: Vec<&str> = vec!["user.userid"];
    assert(crate::text::strs_view(name_keys@) =~= display_name_keys());
    assert(crate::text::strs_view(pic_keys@) =~= avatar_keys());
    assert(crate::text::strs_view(id_keys@) =~= seq!["user.userid"@]);
    let name = match persona {
        Some(p) => p.to_string(),
        None => {
            let n = first_value(&low, &name_keys);
            let mut d = "EA ".to_string();
            push_str(&mut d, ini_id);
            unwrap_or_string(n, d)
        },
    };
    let avatar_src = match avatar_url {
        Some(a) => a.to_string(),
        None => unwrap_or_string(first_value(&low, &pic_keys), String::new()),
    };
    let user_userid = unwrap_or_string(first_value(&low, &id_keys), String::new());
    EaDesktopUser {
        id: ini_id.to_string(),
        name,
        avatar: normalize_ea_avatar_url(avatar_src.as_str()),
        config_path: config_path.to_string(),
        user_userid,
        nu_hash: nu_hash.to_string(),
    }
}

/// The id in an INI file name `user_<digits>.ini`.
pub open spec fn ini_id_of_file_name(f: Seq<char>) -> Option<Seq<char>> {
    if f.len() >= 9 && "user_"@.is_prefix_of(f) && ".ini"@.is_suffix_of(f) {
        let id = f.subrange(5, f.len() - 4);
        if id.len() > 0 && forall|i: int| 0 <= i < id.len() ==> is_digit(#[trigger] id[i]) {
            Some(id)
        } else {
            None
        }
    } else {
        None
    }
}

/// A file name `user_<digits>.ini` is `user_`, its id and `.ini`.
proof fn lemma_ini_file_name_parts(f: Seq<char>)
    requires
        ini_id_of_file_name(f) is Some,
    ensures
        f == "user_"@ + ini_id_of_file_name(f)->Some_0 + ".ini"@,
{
    reveal_strlit("user_");
    reveal_strlit(".ini");
    let id = f.subrange(5, f.len() - 4);
    let g = "user_"@ + id + ".ini"@;
    assert forall|k: int| 0 <= k < f.len() implies f[k] == g[k] by {
        if k < 5 {
            assert(f[k] == "user_"@[k]);
        } else if k >= f.len() - 4 {
            assert(f[k] == ".ini"@[k - (f.len() - 4)]);
        }
    }
    assert(f =~= g);
}

/// Two INI file names that give the same user id are the same name: the
/// users read from the distinct files of one folder have distinct ids.
pub proof fn law_ini_id_names_one_file(f1: Seq<char>, f2: Seq<char>)
    requires
        ini_id_of_file_name(f1) is Some,
        ini_id_of_file_name(f1) == ini_id_of_file_name(f2),
    ensures
        f1 == f2,
{
    lemma_ini_file_name_parts(f1);
    lemma_ini_file_name_parts(f2);
}

/// The user id an EA Desktop file name stands for, if it is `user_<digits>.ini`.
pub fn ea_ini_id_from_file_name(fname: &str) -> (r: Option<String>)
    ensures
        opt_seq(r) == ini_id_of_file_name(fname@),
{
    let v = chars_of(fname);
    let n = v.len();
    proof {
        reveal_strlit("user_");
        reveal_strlit(".ini");
    }
    if n < 9 {
        return None;
    }
    let pre = crate::text::range_eq(&v, 0, 5, "user_");
    let suf = crate::text::range_eq(&v, n - 4, n, ".ini");
    proof {
        assert("user_"@.is_prefix_of(fname@) == (v@.subrange(0, 5) == "user_"@)) by {
            if v@.subrange(0, 5) == "user_"@ {
                assert forall|k: int| 0 <= k < 5 implies fname@[k] == "user_"@[k] by {
                    assert(v@.subrange(0, 5)[k] == v@[k]);
                }
            }
            if "user_"@.is_prefix_of(fname@) {
                assert(v@.subrange(0, 5) =~= "user_"@);
            }
        }
        assert(".ini"@.is_suffix_of(fname@) == (v@.subrange(n - 4, n as int) == ".ini"@)) by {
            if v@.subrange(n - 4, n as int) == ".ini"@ {
                assert forall|k: int| 0 <= k < 4 implies fname@[n - 4 + k] == ".ini"@[k] by {
                    assert(v@.subrange(n - 4, n as int)[k] == v@[n - 4 + k]);
                }
            }
            if ".ini"@.is_suffix_of(fname@) {
                assert(v@.subrange(n - 4, n as int) =~= ".ini"@);
            }
        }
    }
    if !(pre && suf) {
        return None;
    }
    if n == 9 || !crate::numeric::range_all_digits(&v, 5, n - 4) {
        return None;
    }
    Some(string_of_range(&v, 5, n - 4))
}

} // verus!
