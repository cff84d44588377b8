//! `videoconfig.txt` handled as plain text: the `setting.*` values it holds,
//! and replacing (or adding) the line of one setting.

use crate::game::apex::config::value::pairs_insert;
use crate::game::ea::pairs_view;
use crate::game::ea_logs::insert_pair;
use crate::text::{
    chars_of, find_char_in, index_of_char, lines, lines_of, push_char, push_str, range_starts_with, string_of_range,
    trail_count, trim, trim_bounds, trim_char, trim_char_bounds,
};
use vstd::prelude::*;

verus! {

broadcast use vstd::string::group_string_axioms;

/// The `(key, value)` of a `"setting.<name>"<TAB>"<value>"` line: the line
/// trimmed starts with `"`, the key is what comes before the first tab
/// (trimmed, without its quotes) and starts with `setting.`, the value is
/// the rest (trimmed, without quotes and trailing commas) and is not empty.
pub open spec fn video_kv(l: Seq<char>) -> Option<(Seq<char>, Seq<char>)> {
    let t = trim(l);
    if !(t.len() > 0 && t[0] == '"') {
        None
    } else {
        let i = index_of_char(t, '\t');
        if i >= t.len() {
            None
        } else {
            let key = trim_char(trim(t.take(i as int)), '"');
            let v0 = trim_char(trim(t.skip(i as int + 1)), '"');
            let value = v0.take(v0.len() - trail_count(v0, ','));
            if !"setting."@.is_prefix_of(key) || value.len() == 0 {
                None
            } else {
                Some((key, value))
            }
        }
    }
}

/// The settings of the lines, a later line of a key replacing its value.
pub open spec fn video_pairs(ls: Seq<Seq<char>>) -> Seq<(Seq<char>, Seq<char>)>
    decreases ls.len(),
{
    if ls.len() == 0 {
        seq![]
    } else {
        let acc = video_pairs(ls.drop_last());
        match video_kv(ls.last()) {
            Some(kv) => pairs_insert(acc, kv.0, kv.1),
            None => acc,
        }
    }
}

fn video_kv_at(v: &Vec<char>) -> (r: Option<(String, String)>)
    ensures
        match video_kv(v@) {
            Some(kv) => r matches Some(p) && p.0@ == kv.0 && p.1@ == kv.1,
            None => r is None,
        },
{
    let (a, b) = trim_bounds(v, 0, v.len());
    assert(v@.subrange(0, v@.len() as int) =~= v@);
    let ghost t = trim(v@);
    if a == b || v[a] != '"' {
        return None;
    }
    assert(t[0] == v@[a as int]);
    let tab = find_char_in(v, a, b, '\t');
    if tab == b {
        return None;
    }
    let (ka, kb) = trim_bounds(v, a, tab);
    let (kc, kd) = trim_char_bounds(v, ka, kb, '"');
    let (va, vb) = trim_bounds(v, tab + 1, b);
    let (vc, vd) = trim_char_bounds(v, va, vb, '"');
    let mut ve = vd;
    while ve > vc && v[ve - 1] == ','
        invariant
            vc <= ve <= vd <= v.len(),
            forall|j: int| ve <= j < vd ==> v@[j] == ',',
            trail_count(v@.subrange(vc as int, vd as int), ',') == (vd - ve) + trail_count(
                v@.subrange(vc as int, ve as int),
                ',',
            ),
        decreases ve,
    {
        assert(v@.subrange(vc as int, ve as int).drop_last() =~= v@.subrange(vc as int, ve - 1));
        ve = ve - 1;
    }
    proof {
        assert(t =~= v@.subrange(a as int, b as int));
        let i = index_of_char(t, '\t');
        assert(i == tab - a);
        assert(t.take(i as int) =~= v@.subrange(a as int, tab as int));
        assert(t.skip(i as int + 1) =~= v@.subrange(tab + 1, b as int));
        let v0 = v@.subrange(vc as int, vd as int);
        if ve > vc {
            assert(v@[ve - 1] != ',');
            assert(v@.subrange(vc as int, ve as int).last() == v@[ve - 1]);
        }
        assert(trail_count(v@.subrange(vc as int, ve as int), ',') == 0);
        assert(v0.take(v0.len() - trail_count(v0, ',')) =~= v@.subrange(vc as int, ve as int));
    }
    if ve == vc || !range_starts_with(v, kc, kd, "setting.") {
        proof {
            let key = v@.subrange(kc as int, kd as int);
            if "setting."@.len() <= kd - kc {
                assert(v@.subrange(kc as int, kc + "setting."@.len()) =~= key.subrange(0, "setting."@.len() as int));
            }
            assert(t.take(tab - a) =~= v@.subrange(a as int, tab as int));
        }
        return None;
    }
    proof {
        let key = v@.subrange(kc as int, kd as int);
        assert(v@.subrange(kc as int, kc + "setting."@.len()) =~= key.subrange(0, "setting."@.len() as int));
        assert("setting."@.is_prefix_of(key));
    }
    Some((string_of_range(v, kc, kd), string_of_range(v, vc, ve)))
}

/// The `setting.*` values of `videoconfig.txt` text, one pair per key.
pub fn parse_videoconfig_key_values(content: &str) -> (r: Vec<(String, String)>)
    ensures
        pairs_view(r@) == video_pairs(lines(content@)),
{
    let ls = lines_of(content);
    let ghost sv = ls@.map_values(|s: String| s@);
    let mut out: Vec<(String, String)> = Vec::new();
    let mut k: usize = 0;
    assert(sv.take(0) =~= Seq::<Seq<char>>::empty());
    assert(pairs_view(out@) =~= Seq::<(Seq<char>, Seq<char>)>::empty());
    while k < ls.len()
        invariant
            k <= ls@.len(),
            sv == ls@.map_values(|s: String| s@),
            sv == lines(content@),
            pairs_view(out@) == video_pairs(sv.take(k as int)),
        decreases ls@.len() - k,
    {
        let v = chars_of(ls[k].as_str());
        assert(v@ == sv[k as int]);
        assert(sv.take(k + 1).drop_last() =~= sv.take(k as int));
        assert(sv.take(k + 1).last() == sv[k as int]);
        match video_kv_at(&v) {
            Some((key, value)) => {
                insert_pair(&mut out, key, value);
            },
            None => {},
        }
        k = k + 1;
    }
    assert(sv.take(k as int) =~= sv);
    out
}

/// `"<key>"`.
pub open spec fn key_pattern(key: Seq<char>) -> Seq<char> {
    seq!['"'] + key + seq!['"']
}

/// `<TAB>"<key>"<TAB><TAB>"<value>"`.
pub open spec fn setting_line(key: Seq<char>, value: Seq<char>) -> Seq<char> {
    seq!['\t', '"'] + key + seq!['"', '\t', '\t', '"'] + value + seq!['"']
}

/// Every line followed by `'\n'`, a line whose trimmed text starts with
/// `pat` replaced by `rep`.
pub open spec fn replaced_lines(ls: Seq<Seq<char>>, pat: Seq<char>, rep: Seq<char>) -> Seq<char>
    decreases ls.len(),
{
    if ls.len() == 0 {
        seq![]
    } else {
        replaced_lines(ls.drop_last(), pat, rep) + (if pat.is_prefix_of(trim(ls.last())) {
            rep
        } else {
            ls.last()
        }) + seq!['\n']
    }
}

pub open spec fn some_line_starts(ls: Seq<Seq<char>>, pat: Seq<char>) -> bool {
    exists|i: int| 0 <= i < ls.len() && pat.is_prefix_of(trim(#[trigger] ls[i]))
}

/// Position of the last `c` in `s`, or `-1`.
pub open spec fn last_index_of(s: Seq<char>, c: char) -> int
    decreases s.len(),
{
    if s.len() == 0 {
        -1
    } else if s.last() == c {
        s.len() - 1
    } else {
        last_index_of(s.drop_last(), c)
    }
}

/// The text with the line of `key` set to `value`: each line whose trimmed
/// text starts with `"<key>"` becomes the setting line; when there is none,
/// the setting line goes in before the last `}` (or at the end).
pub open spec fn patched_text(content: Seq<char>, key: Seq<char>, value: Seq<char>) -> Seq<char> {
    let ls = lines(content);
    let rep = setting_line(key, value);
    let out = replaced_lines(ls, key_pattern(key), rep);
    if some_line_starts(ls, key_pattern(key)) {
        out
    } else {
        let p = last_index_of(out, '}');
        if p >= 0 {
            out.take(p) + rep + seq!['\n'] + out.skip(p)
        } else {
            out + rep + seq!['\n']
        }
    }
}

proof fn lemma_some_line_starts_push(ls: Seq<Seq<char>>, l: Seq<char>, pat: Seq<char>)
    ensures
        some_line_starts(ls.push(l), pat) == (some_line_starts(ls, pat) || pat.is_prefix_of(trim(l))),
{
    let s1 = ls.push(l);
    if some_line_starts(s1, pat) {
        let i = choose|i: int| 0 <= i < s1.len() && pat.is_prefix_of(trim(#[trigger] s1[i]));
        if i < ls.len() {
            assert(s1[i] == ls[i]);
        }
    }
    if some_line_starts(ls, pat) {
        let i = choose|i: int| 0 <= i < ls.len() && pat.is_prefix_of(trim(#[trigger] ls[i]));
        assert(s1[i] == ls[i]);
    }
    if pat.is_prefix_of(trim(l)) {
        assert(s1[ls.len() as int] == l);
    }
}

fn last_index_of_exec(v: &Vec<char>, c: char) -> (r: Option<usize>)
    ensures
        match r {
            Some(p) => last_index_of(v@, c) == p && p < v@.len(),
            None => last_index_of(v@, c) == -1,
        },
{
    let mut k = v.len();
    assert(v@.take(k as int) =~= v@);
    while k > 0
        invariant
            k <= v@.len(),
            last_index_of(v@, c) == last_index_of(v@.take(k as int), c),
        decreases k,
    {
        assert(v@.take(k as int).last() == v@[k - 1]);
        assert(v@.take(k as int).drop_last() =~= v@.take(k - 1));
        if v[k - 1] == c {
            return Some(k - 1);
        }
        k = k - 1;
    }
    None
}

/// `videoconfig.txt` text with the setting `key` set to `value`.
pub fn patch_videoconfig_line(content: &str, key: &str, value: &str) -> (r: String)
    ensures
        r@ == patched_text(content@, key@, value@),
{
    let mut pattern = String::new();
    push_char(&mut pattern, '"');
    push_str(&mut pattern, key);
    push_char(&mut pattern, '"');
    let mut rep = String::new();
    push_char(&mut rep, '\t');
    push_char(&mut rep, '"');
    push_str(&mut rep, key);
    push_char(&mut rep, '"');
    push_char(&mut rep, '\t');
    push_char(&mut rep, '\t');
    push_char(&mut rep, '"');
    push_str(&mut rep, value);
    push_char(&mut rep, '"');
    assert(pattern@ =~= key_pattern(key@));
    assert(rep@ =~= setting_line(key@, value@));
    let ls = lines_of(content);
    let ghost sv = ls@.map_values(|s: String| s@);
    let mut out = String::new();
    let mut replaced = false;
    let mut k: usize = 0;
    assert(sv.take(0) =~= Seq::<Seq<char>>::empty());
    while k < ls.len()
        invariant
            k <= ls@.len(),
            sv == ls@.map_values(|s: String| s@),
            sv == lines(content@),
            pattern@ == key_pattern(key@),
            rep@ == setting_line(key@, value@),
            out@ == replaced_lines(sv.take(k as int), pattern@, rep@),
            replaced == some_line_starts(sv.take(k as int), pattern@),
        decreases ls@.len() - k,
    {
        let v = chars_of(ls[k].as_str());
        assert(v@ == sv[k as int]);
        assert(sv.take(k + 1).drop_last() =~= sv.take(k as int));
        assert(sv.take(k + 1).last() == sv[k as int]);
        let (a, b) = trim_bounds(&v, 0, v.len());
        assert(v@.subrange(0, v@.len() as int) =~= v@);
        let hit = range_starts_with(&v, a, b, pattern.as_str());
        proof {
            let t = trim(v@);
            assert(t =~= v@.subrange(a as int, b as int));
            if pattern@.len() <= b - a {
                assert(v@.subrange(a as int, a + pattern@.len()) =~= t.subrange(0, pattern@.len() as int));
            }
            assert(hit == pattern@.is_prefix_of(t));
            assert(sv.take(k + 1) =~= sv.take(k as int).push(sv[k as int]));
            lemma_some_line_starts_push(sv.take(k as int), sv[k as int], pattern@);
        }
        if hit {
            push_str(&mut out, rep.as_str());
            replaced = true;
        } else {
            push_str(&mut out, ls[k].as_str());
        }
        push_char(&mut out, '\n');
        k = k + 1;
    }
    assert(sv.take(k as int) =~= sv);
    if replaced {
        return out;
    }
    let ov = chars_of(out.as_str());
    match last_index_of_exec(&ov, '}') {
        Some(p) => {
            let mut r = string_of_range(&ov, 0, p);
            push_str(&mut r, rep.as_str());
            push_char(&mut r, '\n');
            push_str(&mut r, string_of_range(&ov, p, ov.len()).as_str());
            assert(ov@.subrange(0, p as int) =~= out@.take(p as int));
            assert(ov@.subrange(p as int, ov@.len() as int) =~= out@.skip(p as int));
            r
        },
        None => {
            push_str(&mut out, rep.as_str());
            push_char(&mut out, '\n');
            out
        },
    }
}

} // verus!
