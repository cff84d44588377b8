//! Avatar URLs and persona names that EA Desktop's verbose logs give for
//! each `nuchash`, and how the logs of several files combine.

use crate::game::ea_logs::{
    normalize_ea_avatar_url, normalized_avatar, nuchash_from_line, nuchash_of, opt_seq, persona_from_get_profile_line,
    persona_of, str_contains, str_to_lowercase, unicode_lowercase, EaDesktopUser,
};
use crate::game::steam::strings_view;
use crate::text::{
    chars_of, contains_seq, find_char_in, find_from, index_of_char, find_seq_from, is_ws, lemma_find_from, lines, lines_of, occurs_at, push_str,
    str_eq, string_of_range,
};
use vstd::prelude::*;

verus! {

broadcast use vstd::string::group_string_axioms;

/// Bytes that `c` takes in UTF-8.
pub open spec fn utf8_len(c: char) -> nat {
    if (c as u32) < 0x80 {
        1
    } else if (c as u32) < 0x800 {
        2
    } else if (c as u32) < 0x10000 {
        3
    } else {
        4
    }
}

/// Bytes that `s` takes in UTF-8.
pub open spec fn utf8_size(s: Seq<char>) -> nat
    decreases s.len(),
{
    if s.len() == 0 {
        0
    } else {
        utf8_size(s.drop_last()) + utf8_len(s.last())
    }
}

/// The number `j >= from` of leading characters of `s` that take exactly `b`
/// bytes, if a character boundary lies at byte `b`.
pub open spec fn boundary_from(s: Seq<char>, b: nat, from: int) -> Option<int>
    decreases s.len() + 1 - from,
{
    if from < 0 || from > s.len() {
        None
    } else if utf8_size(s.take(from)) == b {
        Some(from)
    } else if utf8_size(s.take(from)) > b {
        None
    } else {
        boundary_from(s, b, from + 1)
    }
}

/// The last position `i <= at` where `p` occurs in `s`, or `-1`.
pub open spec fn last_at_or_before(s: Seq<char>, p: Seq<char>, at: int) -> int
    decreases at + 1,
{
    if at < 0 {
        -1
    } else if occurs_at(s, p, at) {
        at
    } else {
        last_at_or_before(s, p, at - 1)
    }
}

/// The characters that end an avatar URL.
pub open spec fn ends_url(c: char) -> bool {
    is_ws(c) || c == '"' || c == '\'' || c == '<' || c == ']'
}

/// Index of the first character of `s` that ends a URL, or `s.len()`.
pub open spec fn url_end(s: Seq<char>) -> nat
    decreases s.len(),
{
    if s.len() == 0 {
        0
    } else if ends_url(s[0]) {
        0
    } else {
        1 + url_end(s.drop_first())
    }
}

/// The characters trimmed from the end of an avatar URL.
pub open spec fn url_trailer(c: char) -> bool {
    c == ')' || c == ',' || c == ';' || c == '"' || c == '\'' || c == ']'
}

/// `s` without its trailing `url_trailer` characters.
pub open spec fn trim_trailers(s: Seq<char>) -> Seq<char>
    decreases s.len(),
{
    if s.len() > 0 && url_trailer(s.last()) {
        trim_trailers(s.drop_last())
    } else {
        s
    }
}

/// The avatar URL of a log line: the `https://` URL that ends just before
/// the first `useravatar/` (searched in the lower-cased line, whose byte
/// offset is taken back to the line), cut at white space or a quote, `<` or
/// `]`, without trailing `)`, `,`, `;`, quotes or `]`.
pub open spec fn avatar_url_of(line: Seq<char>) -> Option<Seq<char>> {
    let lower = unicode_lowercase(line);
    let i = find_from(lower, "useravatar/"@, 0);
    if i < 0 {
        None
    } else {
        match boundary_from(line, utf8_size(lower.take(i)), 0) {
            None => None,
            Some(j) => {
                let before = line.take(j);
                let h = last_at_or_before(before, "https://"@, before.len() - "https://"@.len());
                if h < 0 {
                    None
                } else {
                    let rest = line.skip(h);
                    Some(trim_trailers(rest.take(url_end(rest) as int)))
                }
            },
        }
    }
}

proof fn lemma_utf8_size_push(s: Seq<char>, c: char)
    ensures
        utf8_size(s.push(c)) == utf8_size(s) + utf8_len(c),
{
    assert(s.push(c).drop_last() =~= s);
}

fn char_utf8_len(c: char) -> (n: u64)
    ensures
        n == utf8_len(c),
{
    let x = c as u32;
    if x < 0x80 {
        1
    } else if x < 0x800 {
        2
    } else if x < 0x10000 {
        3
    } else {
        4
    }
}

/// `utf8_size(v[..i])`.
fn utf8_size_upto(v: &Vec<char>, i: usize) -> (n: u128)
    requires
        i <= v.len(),
    ensures
        n == utf8_size(v@.take(i as int)),
        n <= 4 * i,
{
    let mut n: u128 = 0;
    let mut k: usize = 0;
    assert(v@.take(0) =~= Seq::<char>::empty());
    while k < i
        invariant
            k <= i <= v.len(),
            n == utf8_size(v@.take(k as int)),
            n <= 4 * k,
        decreases i - k,
    {
        proof {
            lemma_utf8_size_push(v@.take(k as int), v@[k as int]);
            assert(v@.take(k as int).push(v@[k as int]) =~= v@.take(k + 1));
        }
        n = n + char_utf8_len(v[k]) as u128;
        k = k + 1;
    }
    n
}

/// `boundary_from(v, b, 0)`.
fn boundary_index(v: &Vec<char>, b: u128) -> (r: Option<usize>)
    ensures
        match r {
            Some(j) => boundary_from(v@, b as nat, 0) == Some(j as int),
            None => boundary_from(v@, b as nat, 0) is None,
        },
        r is Some ==> r.unwrap() <= v.len(),
{
    let mut n: u128 = 0;
    let mut k: usize = 0;
    assert(v@.take(0) =~= Seq::<char>::empty());
    while k <= v.len()
        invariant
            k <= v.len() + 1,
            k <= v.len() ==> n == utf8_size(v@.take(k as int)),
            n <= 4 * k,
            boundary_from(v@, b as nat, 0) == boundary_from(v@, b as nat, k as int),
        decreases v.len() + 1 - k,
    {
        if n == b {
            return Some(k);
        }
        if n > b {
            return None;
        }
        if k == v.len() {
            assert(boundary_from(v@, b as nat, (k + 1) as int) is None);
            return None;
        }
        proof {
            lemma_utf8_size_push(v@.take(k as int), v@[k as int]);
            assert(v@.take(k as int).push(v@[k as int]) =~= v@.take(k + 1));
        }
        n = n + char_utf8_len(v[k]) as u128;
        k = k + 1;
    }
    None
}

/// `last_at_or_before(v, w, at)`, for `at < v.len()`.
fn last_occurrence_upto(v: &Vec<char>, w: &Vec<char>, end: usize) -> (r: Option<usize>)
    requires
        end <= v.len(),
    ensures
        match r {
            Some(i) => last_at_or_before(v@.take(end as int), w@, end - w@.len()) == i,
            None => last_at_or_before(v@.take(end as int), w@, end - w@.len()) < 0,
        },
        r is Some ==> r.unwrap() + w.len() <= end,
{
    let ghost s = v@.take(end as int);
    if w.len() > end {
        return None;
    }
    let mut at: usize = end - w.len();
    loop
        invariant
            at + w@.len() <= end <= v.len(),
            s == v@.take(end as int),
            last_at_or_before(s, w@, end - w@.len()) == last_at_or_before(s, w@, at as int),
        decreases at,
    {
        if occurs_at_prefix(v, w, at) {
            assert(s.subrange(at as int, at + w@.len()) =~= v@.subrange(at as int, at + w@.len()));
            return Some(at);
        }
        assert(s.subrange(at as int, at + w@.len()) =~= v@.subrange(at as int, at + w@.len()));
        if at == 0 {
            assert(last_at_or_before(s, w@, -1) == -1);
            return None;
        }
        at = at - 1;
    }
}

/// Whether `w` occurs in `v` at `i` (with `i + w.len() <= v.len()`).
fn occurs_at_prefix(v: &Vec<char>, w: &Vec<char>, i: usize) -> (r: bool)
    requires
        i + w.len() <= v.len(),
    ensures
        r == (v@.subrange(i as int, i + w@.len()) == w@),
{
    let mut k: usize = 0;
    while k < w.len()
        invariant
            i + w@.len() <= v@.len(),
            i + w.len() <= v.len(),
            k <= w@.len(),
            forall|j: int| 0 <= j < k ==> v@[i + j] == w@[j],
        decreases w@.len() - k,
    {
        if v[i + k] != w[k] {
            assert(v@.subrange(i as int, i + w@.len())[k as int] == v@[i + k]);
            return false;
        }
        k = k + 1;
    }
    assert(v@.subrange(i as int, i + w@.len()) =~= w@);
    true
}

fn char_ends_url(c: char) -> (b: bool)
    ensures
        b == ends_url(c),
{
    crate::text::char_is_ws(c) || c == '"' || c == '\'' || c == '<' || c == ']'
}

/// `start + url_end(v[start..])`.
fn url_end_from(v: &Vec<char>, start: usize) -> (r: usize)
    requires
        start <= v.len(),
    ensures
        start <= r <= v.len(),
        r - start == url_end(v@.skip(start as int)),
{
    let mut k = start;
    while k < v.len() && !char_ends_url(v[k])
        invariant
            start <= k <= v.len(),
            url_end(v@.skip(start as int)) == (k - start) + url_end(v@.skip(k as int)),
        decreases v.len() - k,
    {
        assert(v@.skip(k as int).drop_first() =~= v@.skip(k + 1));
        k = k + 1;
    }
    k
}

/// The end of `trim_trailers(v[start..end])`.
fn trim_trailers_end(v: &Vec<char>, start: usize, end: usize) -> (r: usize)
    requires
        start <= end <= v.len(),
    ensures
        start <= r <= end,
        v@.subrange(start as int, r as int) == trim_trailers(v@.subrange(start as int, end as int)),
{
    let mut e = end;
    while e > start && (v[e - 1] == ')' || v[e - 1] == ',' || v[e - 1] == ';' || v[e - 1] == '"' || v[e - 1] == '\''
        || v[e - 1] == ']')
        invariant
            start <= e <= end <= v.len(),
            trim_trailers(v@.subrange(start as int, end as int)) == trim_trailers(v@.subrange(start as int, e as int)),
        decreases e,
    {
        assert(v@.subrange(start as int, e as int).drop_last() =~= v@.subrange(start as int, e - 1));
        e = e - 1;
    }
    e
}

/// The avatar URL a log line carries.
pub fn user_avatar_url_from_line(line: &str) -> (r: Option<String>)
    ensures
        match avatar_url_of(line@) {
            Some(u) => r is Some && r.unwrap()@ == u,
            None => r is None,
        },
{
    let lower_text = str_to_lowercase(line);
    let lower = chars_of(lower_text.as_str());
    let key = chars_of("useravatar/");
    let i = match find_seq_from(&lower, &key, 0) {
        Some(i) => i,
        None => {
            return None;
        },
    };
    proof {
        lemma_find_from(lower@, key@, 0);
    }
    let b = utf8_size_upto(&lower, i);
    let v = chars_of(line);
    let j = match boundary_index(&v, b) {
        Some(j) => j,
        None => {
            return None;
        },
    };
    let https = chars_of("https://");
    proof {
        let lower_s = unicode_lowercase(line@);
        assert(lower@ == lower_s);
        assert(key@ == "useravatar/"@);
        assert(i == find_from(lower_s, "useravatar/"@, 0));
        assert(b == utf8_size(lower_s.take(i as int)));
        assert(boundary_from(line@, utf8_size(lower_s.take(i as int)), 0) == Some(j as int));
        assert(line@.take(j as int).len() == j);
        assert(https@ == "https://"@);
    }
    let h = match last_occurrence_upto(&v, &https, j) {
        Some(h) => h,
        None => {
            return None;
        },
    };
    let e = url_end_from(&v, h);
    let t = trim_trailers_end(&v, h, e);
    proof {
        let rest = line@.skip(h as int);
        assert(rest =~= v@.skip(h as int));
        assert(rest.take(url_end(rest) as int) =~= v@.subrange(h as int, e as int));
    }
    Some(string_of_range(&v, h, t))
}

/// What the verbose log tells of one `nuchash`.
#[derive(Clone, Debug)]
pub struct NuchashProfile {
    pub persona: Option<String>,
    pub avatar_url: Option<String>,
}

pub open spec fn profile_view(p: NuchashProfile) -> (Option<Seq<char>>, Option<Seq<char>>) {
    (opt_seq(p.persona), opt_seq(p.avatar_url))
}

/// `new` when it holds something, else `old`.
pub open spec fn or_keep(new: Option<Seq<char>>, old: Option<Seq<char>>) -> Option<Seq<char>> {
    match new {
        Some(x) => Some(x),
        None => old,
    }
}

pub open spec fn names_nuchash(l: Seq<char>) -> bool {
    contains_seq(l, "nuchash=["@)
}

/// The `nuchash` the verbose log is at after its first `n` lines: that of
/// the last line naming one (nothing when that line's is not valid).
pub open spec fn current_nuchash(ls: Seq<Seq<char>>, n: int) -> Option<Seq<char>>
    decreases n,
{
    if n <= 0 || n > ls.len() {
        None
    } else if names_nuchash(ls[n - 1]) {
        nuchash_of(ls[n - 1])
    } else {
        current_nuchash(ls, n - 1)
    }
}

/// `(persona, avatar URL)` that the first `n` lines give for `h`: each
/// line that follows `h` (and names no `nuchash` itself) replaces what it
/// carries.
pub open spec fn verbose_profile(ls: Seq<Seq<char>>, n: int, h: Seq<char>) -> (Option<Seq<char>>, Option<Seq<char>>)
    decreases n,
{
    if n <= 0 || n > ls.len() {
        (None, None)
    } else {
        let p = verbose_profile(ls, n - 1, h);
        let l = ls[n - 1];
        if !names_nuchash(l) && current_nuchash(ls, n - 1) == Some(h) {
            (or_keep(persona_of(l), p.0), or_keep(avatar_url_of(l), p.1))
        } else {
            p
        }
    }
}

/// `nuchash=[<h in lower case>]`.
pub open spec fn nuchash_needle(h: Seq<char>) -> Seq<char> {
    "nuchash=["@ + unicode_lowercase(h) + "]"@
}

/// The start of the last of the occurrences of `p` found scanning `s` from
/// `pos`, each search going on after the previous match (`last` when none).
pub open spec fn last_scan(s: Seq<char>, p: Seq<char>, pos: int, last: int) -> int
    decreases s.len() + 1 - pos,
{
    if p.len() == 0 || pos < 0 || pos > s.len() {
        last
    } else {
        let i = find_from(s, p, pos);
        if i < 0 {
            last
        } else {
            proof {
                lemma_find_from(s, p, pos);
            }
            last_scan(s, p, i + p.len(), i)
        }
    }
}

/// The text from the last `nuchash=[h]` on.
pub open spec fn tail_after_last(text: Seq<char>, h: Seq<char>) -> Option<Seq<char>> {
    let i = last_scan(text, nuchash_needle(h), 0, -1);
    if i < 0 {
        None
    } else {
        Some(text.skip(i))
    }
}

pub open spec fn first_avatar(ls: Seq<Seq<char>>) -> Option<Seq<char>>
    decreases ls.len(),
{
    if ls.len() == 0 {
        None
    } else {
        match avatar_url_of(ls[0]) {
            Some(u) => Some(u),
            None => first_avatar(ls.drop_first()),
        }
    }
}

pub open spec fn first_persona(ls: Seq<Seq<char>>) -> Option<Seq<char>>
    decreases ls.len(),
{
    if ls.len() == 0 {
        None
    } else {
        match persona_of(ls[0]) {
            Some(u) => Some(u),
            None => first_persona(ls.drop_first()),
        }
    }
}

/// The avatar URL of the last line that has one.
pub open spec fn last_avatar(ls: Seq<Seq<char>>) -> Option<Seq<char>>
    decreases ls.len(),
{
    if ls.len() == 0 {
        None
    } else {
        match avatar_url_of(ls.last()) {
            Some(u) => Some(u),
            None => last_avatar(ls.drop_last()),
        }
    }
}

/// What one verbose log text gives for `h`: the lines that follow `h`,
/// and for what they leave unknown, the first persona and avatar at or
/// after the last `nuchash=[h]` of the text.
pub open spec fn chunk_profile(text: Seq<char>, h: Seq<char>) -> (Option<Seq<char>>, Option<Seq<char>>) {
    let ls = lines(text);
    let p = verbose_profile(ls, ls.len() as int, h);
    if h.len() == 0 {
        p
    } else {
        let tail = tail_after_last(text, h);
        (
            if p.0 is Some {
                p.0
            } else {
                match tail {
                    Some(t) => first_persona(lines(t)),
                    None => None,
                }
            },
            if p.1 is Some {
                p.1
            } else {
                match tail {
                    Some(t) => first_avatar(lines(t)),
                    None => None,
                }
            },
        )
    }
}

/// What the verbose log texts, read in order, give for `h`: a later text's
/// persona or avatar replaces an earlier one's.
pub open spec fn chunks_profile(texts: Seq<Seq<char>>, h: Seq<char>) -> (Option<Seq<char>>, Option<Seq<char>>)
    decreases texts.len(),
{
    if texts.len() == 0 {
        (None, None)
    } else {
        let acc = chunks_profile(texts.drop_last(), h);
        let c = chunk_profile(texts.last(), h);
        (or_keep(c.0, acc.0), or_keep(c.1, acc.1))
    }
}

fn keep_newer(new: Option<String>, old: Option<String>) -> (r: Option<String>)
    ensures
        opt_seq(r) == or_keep(opt_seq(new), opt_seq(old)),
{
    match new {
        Some(x) => Some(x),
        None => old,
    }
}

/// What the lines of one verbose log text give for `hash`.
pub fn profile_from_verbose(lines: &Vec<String>, hash: &str) -> (r: NuchashProfile)
    ensures
        profile_view(r) == verbose_profile(strings_view(lines@), lines@.len() as int, hash@),
{
    let ghost ls = strings_view(lines@);
    let mut current: Option<String> = None;
    let mut persona: Option<String> = None;
    let mut avatar: Option<String> = None;
    let mut k: usize = 0;
    while k < lines.len()
        invariant
            k <= lines@.len(),
            ls == strings_view(lines@),
            opt_seq(current) == current_nuchash(ls, k as int),
            (opt_seq(persona), opt_seq(avatar)) == verbose_profile(ls, k as int, hash@),
        decreases lines@.len() - k,
    {
        let line = lines[k].as_str();
        assert(ls[k as int] == line@);
        if str_contains(line, "nuchash=[") {
            current = nuchash_from_line(line);
        } else {
            let follows = match &current {
                Some(c) => str_eq(c.as_str(), hash),
                None => false,
            };
            if follows {
                persona = keep_newer(persona_from_get_profile_line(line), persona);
                avatar = keep_newer(user_avatar_url_from_line(line), avatar);
            }
        }
        k = k + 1;
    }
    NuchashProfile { persona, avatar_url: avatar }
}

/// `last_scan(v, w, 0, -1)`, for a non-empty `w`.
fn last_match(v: &Vec<char>, w: &Vec<char>) -> (r: Option<usize>)
    requires
        w@.len() > 0,
    ensures
        match r {
            Some(i) => last_scan(v@, w@, 0, -1) == i && i <= v@.len(),
            None => last_scan(v@, w@, 0, -1) < 0,
        },
{
    let mut last: Option<usize> = None;
    let mut pos: usize = 0;
    while pos <= v.len()
        invariant
            w@.len() > 0,
            last_scan(v@, w@, 0, -1) == last_scan(v@, w@, pos as int, match last {
                Some(i) => i as int,
                None => -1,
            }),
            match last {
                Some(i) => i <= v@.len(),
                None => true,
            },
        decreases v@.len() + 1 - pos,
    {
        match find_seq_from(v, w, pos) {
            Some(i) => {
                proof {
                    lemma_find_from(v@, w@, pos as int);
                }
                last = Some(i);
                pos = i + w.len();
            },
            None => {
                return last;
            },
        }
    }
    last
}

/// The lines of the text from the last `nuchash=[hash]` on.
fn tail_lines(v: &Vec<char>, hash: &str) -> (r: Option<Vec<String>>)
    ensures
        match tail_after_last(v@, hash@) {
            Some(t) => r is Some && strings_view(r.unwrap()@) == lines(t),
            None => r is None,
        },
{
    let mut needle = String::new();
    push_str(&mut needle, "nuchash=[");
    let lower = str_to_lowercase(hash);
    push_str(&mut needle, lower.as_str());
    push_str(&mut needle, "]");
    let w = chars_of(needle.as_str());
    proof {
        reveal_strlit("nuchash=[");
        assert(w@ == nuchash_needle(hash@));
    }
    match last_match(v, &w) {
        Some(i) => {
            let tail = string_of_range(v, i, v.len());
            assert(tail@ =~= v@.skip(i as int));
            Some(lines_of(tail.as_str()))
        },
        None => None,
    }
}

fn first_avatar_in(ls: &Vec<String>) -> (r: Option<String>)
    ensures
        opt_seq(r) == first_avatar(strings_view(ls@)),
{
    let ghost sv = strings_view(ls@);
    let mut k: usize = 0;
    assert(sv.skip(0) =~= sv);
    while k < ls.len()
        invariant
            k <= ls@.len(),
            sv == strings_view(ls@),
            first_avatar(sv) == first_avatar(sv.skip(k as int)),
        decreases ls@.len() - k,
    {
        assert(sv.skip(k as int)[0] == ls@[k as int]@);
        assert(sv.skip(k as int).drop_first() =~= sv.skip(k + 1));
        match user_avatar_url_from_line(ls[k].as_str()) {
            Some(u) => {
                return Some(u);
            },
            None => {},
        }
        k = k + 1;
    }
    None
}

fn first_persona_in(ls: &Vec<String>) -> (r: Option<String>)
    ensures
        opt_seq(r) == first_persona(strings_view(ls@)),
{
    let ghost sv = strings_view(ls@);
    let mut k: usize = 0;
    assert(sv.skip(0) =~= sv);
    while k < ls.len()
        invariant
            k <= ls@.len(),
            sv == strings_view(ls@),
            first_persona(sv) == first_persona(sv.skip(k as int)),
        decreases ls@.len() - k,
    {
        assert(sv.skip(k as int)[0] == ls@[k as int]@);
        assert(sv.skip(k as int).drop_first() =~= sv.skip(k + 1));
        match persona_from_get_profile_line(ls[k].as_str()) {
            Some(u) => {
                return Some(u);
            },
            None => {},
        }
        k = k + 1;
    }
    None
}

/// What one verbose log text gives for `hash` (see `chunk_profile`).
pub fn chunk_profile_of(text: &str, hash: &str) -> (r: NuchashProfile)
    ensures
        profile_view(r) == chunk_profile(text@, hash@),
{
    let ls = lines_of(text);
    let p = profile_from_verbose(&ls, hash);
    if hash.is_empty() {
        return p;
    }
    let v = chars_of(text);
    if p.persona.is_some() && p.avatar_url.is_some() {
        return p;
    }
    let tail = tail_lines(&v, hash);
    match tail {
        None => p,
        Some(t) => {
            let persona = match p.persona {
                Some(x) => Some(x),
                None => first_persona_in(&t),
            };
            let avatar_url = match p.avatar_url {
                Some(x) => Some(x),
                None => first_avatar_in(&t),
            };
            NuchashProfile { persona, avatar_url }
        },
    }
}

/// What the verbose log texts, read in order, give for the `nuchash` of a
/// user; nothing for an empty one.
pub fn ea_profile(texts: &Vec<String>, nu_hash: &str) -> (r: NuchashProfile)
    ensures
        profile_view(r) == (if nu_hash@.len() == 0 {
            (None, None)
        } else {
            chunks_profile(strings_view(texts@), nu_hash@)
        }),
{
    let ghost tv = strings_view(texts@);
    let mut persona: Option<String> = None;
    let mut avatar: Option<String> = None;
    if nu_hash.is_empty() {
        return NuchashProfile { persona, avatar_url: avatar };
    }
    let mut k: usize = 0;
    assert(tv.take(0) =~= Seq::<Seq<char>>::empty());
    while k < texts.len()
        invariant
            k <= texts@.len(),
            tv == strings_view(texts@),
            (opt_seq(persona), opt_seq(avatar)) == chunks_profile(tv.take(k as int), nu_hash@),
        decreases texts@.len() - k,
    {
        let c = chunk_profile_of(texts[k].as_str(), nu_hash);
        assert(tv.take(k + 1).drop_last() =~= tv.take(k as int));
        assert(tv.take(k + 1).last() == texts@[k as int]@);
        persona = keep_newer(c.persona, persona);
        avatar = keep_newer(c.avatar_url, avatar);
        k = k + 1;
    }
    assert(tv.take(k as int) =~= tv);
    NuchashProfile { persona, avatar_url: avatar }
}

/// The avatar URL of the last line of `text` that has one.
pub fn last_avatar_in_text(text: &str) -> (r: Option<String>)
    ensures
        opt_seq(r) == last_avatar(lines(text@)),
{
    let ls = lines_of(text);
    let ghost sv = strings_view(ls@);
    let mut k: usize = ls.len();
    assert(sv.take(k as int) =~= sv);
    while k > 0
        invariant
            k <= ls@.len(),
            sv == strings_view(ls@),
            sv == lines(text@),
            last_avatar(sv) == last_avatar(sv.take(k as int)),
        decreases k,
    {
        assert(sv.take(k as int).last() == ls@[k - 1]@);
        assert(sv.take(k as int).drop_last() =~= sv.take(k - 1));
        match user_avatar_url_from_line(ls[k - 1].as_str()) {
            Some(u) => {
                return Some(u);
            },
            None => {},
        }
        k = k - 1;
    }
    None
}

/// With exactly one user, which has no avatar: the avatar that the last
/// verbose log text read gives it (the last URL in it, normalised).
pub open spec fn single_user_avatar(users: Seq<EaDesktopUser>, last_chunk: Option<Seq<char>>) -> Option<Seq<char>> {
    if users.len() == 1 && users[0].avatar@.len() == 0 {
        match last_chunk {
            Some(t) => match last_avatar(lines(t)) {
                Some(u) => Some(normalized_avatar(u)),
                None => None,
            },
            None => None,
        }
    } else {
        None
    }
}

/// Gives a lone user without an avatar the last avatar URL of the last
/// verbose log text read, normalised; other lists stay as they are.
pub fn fill_single_user_avatar(users: &mut Vec<EaDesktopUser>, last_chunk: Option<&str>)
    ensures
        match single_user_avatar(old(users)@, match last_chunk {
            Some(t) => Some(t@),
            None => None,
        }) {
            Some(a) => {
                &&& final(users)@.len() == 1
                &&& final(users)@[0].avatar@ == a
                &&& final(users)@[0].id == old(users)@[0].id
                &&& final(users)@[0].name == old(users)@[0].name
                &&& final(users)@[0].config_path == old(users)@[0].config_path
                &&& final(users)@[0].user_userid == old(users)@[0].user_userid
                &&& final(users)@[0].nu_hash == old(users)@[0].nu_hash
            },
            None => final(users)@ == old(users)@,
        },
{
    if users.len() != 1 || !users[0].avatar.as_str().is_empty() {
        return;
    }
    let text = match last_chunk {
        Some(t) => t,
        None => {
            return;
        },
    };
    let url = match last_avatar_in_text(text) {
        Some(u) => u,
        None => {
            return;
        },
    };
    let mut u = users.pop().unwrap();
    u.avatar = normalize_ea_avatar_url(url.as_str());
    users.push(u);
}

/// Bytes read from the end of a verbose log: its last 12 MiB.
pub const VERBOSE_TAIL_BYTES: u64 = 12582912;

/// Bytes read before that tail as well: 1 MiB, for the profile lines that
/// precede it.
pub const VERBOSE_PREAMBLE_BYTES: u64 = 1048576;

/// Where reading a verbose log of `len` bytes starts: `tail + preamble`
/// bytes before its end (both added with saturation), or at its start
/// when it is shorter.
pub fn verbose_tail_start(len: u64, tail: u64, preamble: u64) -> (r: u64)
    ensures
        ({
            let want = if tail + preamble > u64::MAX { u64::MAX as int } else { tail + preamble };
            r == if want < len { len - want } else { 0 }
        }),
{
    let want = tail.saturating_add(preamble);
    let want = if want < len { want } else { len };
    len - want
}

/// Text read from the middle of a file starts with a cut line: when
/// `started_mid_file`, everything up to and including the first `\n` is
/// dropped (nothing when there is none).
pub fn drop_partial_first_line(text: &str, started_mid_file: bool) -> (r: String)
    ensures
        r@ == (if started_mid_file && index_of_char(text@, '\n') < text@.len() {
            text@.skip(index_of_char(text@, '\n') as int + 1)
        } else {
            text@
        }),
{
    let v = chars_of(text);
    if !started_mid_file {
        return text.to_string();
    }
    let i = find_char_in(&v, 0, v.len(), '\n');
    proof {
        assert(v@.subrange(0, v.len() as int) =~= text@);
    }
    if i == v.len() {
        return text.to_string();
    }
    let r = string_of_range(&v, i + 1, v.len());
    proof {
        assert(v@.subrange(i + 1, v.len() as int) =~= text@.skip(i + 1));
    }
    r
}

} // verus!
