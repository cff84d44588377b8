//! EA Desktop: the `user_<id>.ini` files under
//! `%LOCALAPPDATA%\Electronic Arts\EA Desktop`, and the Apex launch options
//! they hold under `user.gamecommandline.origin.ofr.50.0002694` (the key is
//! matched without regard to ASCII case).

use crate::text::{chars_of, find_char_in, index_of_char, is_ws, lemma_index_of_char, lemma_index_of_char_bound, lemma_index_of_char_props, lemma_lines_concat, lemma_lines_no_break, lemma_lines_single, lemma_trim_ends, lemma_trim_fixed, lemma_trim_idempotent, lemma_trim_props, line_bounds, lines, push_str, string_of_range, trim, trim_bounds};
use crate::utils::string::all_ascii_digits;
use vstd::prelude::*;

pub use crate::game::ea_logs::EaDesktopUser;

verus! {

broadcast use vstd::string::group_string_axioms;

/// `char::to_ascii_lowercase`.
pub open spec fn ascii_lower(c: char) -> char {
    if 'A' <= c && c <= 'Z' {
        ((c as u32) + 32) as char
    } else {
        c
    }
}

/// `str::eq_ignore_ascii_case`.
pub open spec fn eq_ignore_ascii_case(a: Seq<char>, b: Seq<char>) -> bool {
    a.len() == b.len() && forall|i: int| 0 <= i < a.len() ==> ascii_lower(#[trigger] a[i]) == ascii_lower(b[i])
}

pub fn char_ascii_lower(c: char) -> (r: char)
    ensures
        r == ascii_lower(c),
{
    if 'A' <= c && c <= 'Z' {
        let n: u32 = c as u32;
        let b: u8 = c as u8;
        assert(b == n as u8);
        assert(b as u32 == n) by (bit_vector)
            requires
                n <= 90,
                b == n as u8,
        ;
        (b + 32) as char
    } else {
        c
    }
}

pub fn str_eq_ignore_ascii_case(a: &str, b: &str) -> (r: bool)
    ensures
        r == eq_ignore_ascii_case(a@, b@),
{
    let v = chars_of(a);
    let w = chars_of(b);
    if v.len() != w.len() {
        return false;
    }
    let mut i: usize = 0;
    while i < v.len()
        invariant
            v@ == a@,
            w@ == b@,
            v@.len() == w@.len(),
            i <= v@.len(),
            forall|j: int| 0 <= j < i ==> ascii_lower(#[trigger] v@[j]) == ascii_lower(w@[j]),
        decreases v@.len() - i,
    {
        if char_ascii_lower(v[i]) != char_ascii_lower(w[i]) {
            return false;
        }
        i = i + 1;
    }
    true
}

/// The `key=value` pair of one INI line: trimmed line, not blank, not a
/// `#` or `;` comment, split at its first `=`, both sides trimmed.
pub open spec fn ini_line(l: Seq<char>) -> Option<(Seq<char>, Seq<char>)> {
    let t = trim(l);
    if t.len() == 0 || t[0] == '#' || t[0] == ';' {
        None
    } else {
        let i = index_of_char(t, '=');
        if i >= t.len() {
            None
        } else {
            Some((trim(t.take(i as int)), trim(t.skip(i as int + 1))))
        }
    }
}

/// The pairs of the lines, in order.
pub open spec fn ini_pairs(ls: Seq<Seq<char>>) -> Seq<(Seq<char>, Seq<char>)>
    decreases ls.len(),
{
    if ls.len() == 0 {
        seq![]
    } else {
        let r = ini_pairs(ls.drop_last());
        match ini_line(ls.last()) {
            Some(p) => r.push(p),
            None => r,
        }
    }
}

pub open spec fn pairs_view(v: Seq<(String, String)>) -> Seq<(Seq<char>, Seq<char>)> {
    v.map_values(|p: (String, String)| (p.0@, p.1@))
}

fn ini_line_at(v: &Vec<char>, s: usize, e: usize) -> (r: Option<(String, String)>)
    requires
        s <= e <= v.len(),
    ensures
        match ini_line(v@.subrange(s as int, e as int)) {
            Some(p) => r matches Some(q) && q.0@ == p.0 && q.1@ == p.1,
            None => r is None,
        },
{
    let ghost l = v@.subrange(s as int, e as int);
    let (a, b) = trim_bounds(v, s, e);
    let ghost t = v@.subrange(a as int, b as int);
    if a == b || v[a] == '#' || v[a] == ';' {
        return None;
    }
    let q = find_char_in(v, a, b, '=');
    proof {
        lemma_index_of_char_bound(t, '=');
    }
    if q == b {
        return None;
    }
    let (ka, kb) = trim_bounds(v, a, q);
    let (va, vb) = trim_bounds(v, q + 1, b);
    proof {
        assert(t.take(q - a) =~= v@.subrange(a as int, q as int));
        assert(t.skip(q - a + 1) =~= v@.subrange(q + 1, b as int));
    }
    Some((string_of_range(v, ka, kb), string_of_range(v, va, vb)))
}

/// The `key=value` pairs of an INI text, in line order.
pub fn parse_ini_lines(content: &str) -> (r: Vec<(String, String)>)
    ensures
        pairs_view(r@) == ini_pairs(lines(content@)),
{
    let v = chars_of(content);
    let lb = line_bounds(&v);
    let ghost ls = lines(v@);
    let mut out: Vec<(String, String)> = Vec::new();
    let mut k: usize = 0;
    assert(ls.take(0) =~= Seq::<Seq<char>>::empty());
    assert(pairs_view(out@) =~= Seq::<(Seq<char>, Seq<char>)>::empty());
    while k < lb.len()
        invariant
            v@ == content@,
            ls == lines(v@),
            k <= lb@.len() == ls.len(),
            forall|j: int|
                0 <= j < lb@.len() ==> {
                    &&& (#[trigger] lb@[j]).0 <= lb@[j].1 <= v.len()
                    &&& v@.subrange(lb@[j].0 as int, lb@[j].1 as int) == ls[j]
                },
            pairs_view(out@) == ini_pairs(ls.take(k as int)),
        decreases lb@.len() - k,
    {
        let (s, e) = lb[k];
        assert(lb@[k as int] == (s, e));
        let ghost pre = ls.take(k + 1);
        assert(pre.drop_last() =~= ls.take(k as int));
        assert(pre.last() == ls[k as int]);
        match ini_line_at(&v, s, e) {
            Some(p) => {
                let ghost before = out@;
                out.push(p);
                assert(pairs_view(out@) =~= pairs_view(before).push((p.0@, p.1@)));
            },
            None => {},
        }
        k = k + 1;
    }
    assert(ls.take(ls.len() as int) =~= ls);
    out
}

/// The key of the Apex launch options.
pub open spec fn apex_cmd_key() -> Seq<char> {
    "user.gamecommandline.origin.ofr.50.0002694"@
}

/// Position of the first pair whose key is `key` up to ASCII case, or `-1`.
pub open spec fn key_index_ci(ps: Seq<(Seq<char>, Seq<char>)>, key: Seq<char>) -> int
    decreases ps.len(),
{
    if ps.len() == 0 {
        -1
    } else if eq_ignore_ascii_case(ps[0].0, key) {
        0
    } else {
        let r = key_index_ci(ps.drop_first(), key);
        if r < 0 {
            -1
        } else {
            r + 1
        }
    }
}

pub proof fn lemma_key_index_ci(ps: Seq<(Seq<char>, Seq<char>)>, key: Seq<char>, i: int)
    requires
        0 <= i <= ps.len(),
        forall|j: int| 0 <= j < i ==> !eq_ignore_ascii_case(#[trigger] ps[j].0, key),
        i == ps.len() || eq_ignore_ascii_case(ps[i].0, key),
    ensures
        key_index_ci(ps, key) == (if i == ps.len() { -1 } else { i }),
    decreases i,
{
    if i > 0 {
        let t = ps.drop_first();
        assert forall|j: int| 0 <= j < i - 1 implies !eq_ignore_ascii_case(#[trigger] t[j].0, key) by {
            assert(t[j] == ps[j + 1]);
        }
        if i < ps.len() {
            assert(t[i - 1] == ps[i]);
        }
        lemma_key_index_ci(t, key, i - 1);
    }
}

/// Index of the Apex launch-options line.
fn apex_cmd_line_index(lines: &Vec<(String, String)>) -> (r: Option<usize>)
    ensures
        match r {
            Some(i) => i < lines@.len() && key_index_ci(pairs_view(lines@), apex_cmd_key()) == i,
            None => key_index_ci(pairs_view(lines@), apex_cmd_key()) == -1,
        },
{
    let ghost pv = pairs_view(lines@);
    let mut i: usize = 0;
    while i < lines.len()
        invariant
            i <= lines@.len(),
            pv == pairs_view(lines@),
            forall|j: int| 0 <= j < i ==> !eq_ignore_ascii_case(#[trigger] pv[j].0, apex_cmd_key()),
        decreases lines@.len() - i,
    {
        assert(pv[i as int].0 == lines@[i as int].0@);
        if str_eq_ignore_ascii_case(lines[i].0.as_str(), "user.gamecommandline.origin.ofr.50.0002694") {
            proof {
                lemma_key_index_ci(pv, apex_cmd_key(), i as int);
            }
            return Some(i);
        }
        i = i + 1;
    }
    proof {
        lemma_key_index_ci(pv, apex_cmd_key(), pv.len() as int);
    }
    None
}

/// The Apex launch options an INI text holds, empty when it has none.
pub open spec fn apex_option_of(content: Seq<char>) -> Seq<char> {
    let ps = ini_pairs(lines(content));
    let i = key_index_ci(ps, apex_cmd_key());
    if i >= 0 {
        ps[i].1
    } else {
        seq![]
    }
}

/// The Apex launch options in the text of a user's INI file.
pub fn get_apex_launch_option_ea(ini_content: &str) -> (r: String)
    ensures
        r@ == apex_option_of(ini_content@),
{
    let lines = parse_ini_lines(ini_content);
    match apex_cmd_line_index(&lines) {
        Some(i) => lines[i].1.clone(),
        None => String::new(),
    }
}

/// The INI text of the pairs: `key=value` lines, each ended by `\n`.
pub open spec fn ini_text(ps: Seq<(Seq<char>, Seq<char>)>) -> Seq<char>
    decreases ps.len(),
{
    if ps.len() == 0 {
        seq![]
    } else {
        ini_text(ps.drop_last()) + ps.last().0 + seq!['='] + ps.last().1 + seq!['\n']
    }
}

/// The pairs with the Apex launch options set to `o`: the first matching
/// pair takes the value, or a new pair goes last.
pub open spec fn with_apex_option(ps: Seq<(Seq<char>, Seq<char>)>, o: Seq<char>) -> Seq<(Seq<char>, Seq<char>)> {
    let i = key_index_ci(ps, apex_cmd_key());
    if i >= 0 {
        ps.update(i, (ps[i].0, o))
    } else {
        ps.push((apex_cmd_key(), o))
    }
}

/// The text a user's INI file is rewritten to when the Apex launch options
/// become `launch_option`: every `key=value` pair of `ini_content` (blank and
/// comment lines are dropped) with the options set, one per line.
pub fn set_apex_launch_option_ea(ini_content: &str, launch_option: &str) -> (r: String)
    ensures
        r@ == ini_text(with_apex_option(ini_pairs(lines(ini_content@)), launch_option@)),
{
    let mut lines = parse_ini_lines(ini_content);
    let ghost before = pairs_view(lines@);
    match apex_cmd_line_index(&lines) {
        Some(i) => {
            let k = lines[i].0.clone();
            lines.set(i, (k, launch_option.to_string()));
            assert(pairs_view(lines@) =~= before.update(i as int, (before[i as int].0, launch_option@)));
        },
        None => {
            lines.push(("user.gamecommandline.origin.ofr.50.0002694".to_string(), launch_option.to_string()));
            assert(pairs_view(lines@) =~= before.push((apex_cmd_key(), launch_option@)));
        },
    }
    write_ini_text(&lines)
}

/// The INI text of the pairs.
pub fn write_ini_text(lines: &Vec<(String, String)>) -> (r: String)
    ensures
        r@ == ini_text(pairs_view(lines@)),
{
    let ghost pv = pairs_view(lines@);
    let mut out = String::new();
    let mut i: usize = 0;
    assert(pv.take(0) =~= Seq::<(Seq<char>, Seq<char>)>::empty());
    while i < lines.len()
        invariant
            i <= lines@.len(),
            pv == pairs_view(lines@),
            out@ == ini_text(pv.take(i as int)),
        decreases lines@.len() - i,
    {
        push_str(&mut out, lines[i].0.as_str());
        push_str(&mut out, "=");
        push_str(&mut out, lines[i].1.as_str());
        push_str(&mut out, "\n");
        assert(pv.take(i + 1).drop_last() =~= pv.take(i as int));
        proof {
            reveal_strlit("=");
            reveal_strlit("\n");
        }
        i = i + 1;
    }
    assert(pv.take(lines@.len() as int) =~= pv);
    out
}


/// A pair as the INI reader hands it out: both sides trimmed, no line
/// break, no `=` in the key, and a key that does not open a comment.
pub open spec fn wf_pair(p: (Seq<char>, Seq<char>)) -> bool {
    &&& trim(p.0) == p.0
    &&& trim(p.1) == p.1
    &&& forall|j: int| 0 <= j < p.0.len() ==> #[trigger] p.0[j] != '\n' && p.0[j] != '='
    &&& forall|j: int| 0 <= j < p.1.len() ==> #[trigger] p.1[j] != '\n'
    &&& p.0.len() > 0 ==> p.0[0] != '#' && p.0[0] != ';'
}

/// The line a pair is written as.
pub open spec fn pair_line(p: (Seq<char>, Seq<char>)) -> Seq<char> {
    p.0 + seq!['='] + p.1
}

proof fn lemma_pair_line_ends(k: Seq<char>, v: Seq<char>)
    requires
        trim(k) == k,
        trim(v) == v,
    ensures
        !is_ws((k + seq!['='] + v)[0]),
        !is_ws((k + seq!['='] + v).last()),
        (k + seq!['='] + v).last() != '\r',
        k.len() > 0 ==> (k + seq!['='] + v)[0] == k[0],
        k.len() == 0 ==> (k + seq!['='] + v)[0] == '=',
{
    let b = k + seq!['='] + v;
    lemma_trim_ends(k);
    lemma_trim_ends(v);
    assert(b[k.len() as int] == '=');
    if k.len() > 0 {
        assert(b[0] == k[0]);
    }
    if v.len() > 0 {
        assert(b.last() == v.last());
    } else {
        assert(b.last() == '=');
    }
}

proof fn lemma_pair_line_split(k: Seq<char>, v: Seq<char>)
    requires
        forall|j: int| 0 <= j < k.len() ==> #[trigger] k[j] != '=',
    ensures
        index_of_char(k + seq!['='] + v, '=') == k.len(),
        (k + seq!['='] + v).take(k.len() as int) == k,
        (k + seq!['='] + v).skip(k.len() as int + 1) == v,
{
    let b = k + seq!['='] + v;
    assert forall|j: int| 0 <= j < k.len() implies #[trigger] b[j] != '=' by {
        assert(b[j] == k[j]);
    }
    assert(b[k.len() as int] == '=');
    lemma_index_of_char(b, '=', k.len() as int);
    assert(b.take(k.len() as int) =~= k);
    assert(b.skip(k.len() as int + 1) =~= v);
}

proof fn lemma_pair_line_breaks(k: Seq<char>, v: Seq<char>)
    requires
        forall|j: int| 0 <= j < k.len() ==> #[trigger] k[j] != '\n',
        forall|j: int| 0 <= j < v.len() ==> #[trigger] v[j] != '\n',
    ensures
        forall|j: int| 0 <= j < (k + seq!['='] + v).len() ==> #[trigger] (k + seq!['='] + v)[j] != '\n',
{
    let b = k + seq!['='] + v;
    assert forall|j: int| 0 <= j < b.len() implies #[trigger] b[j] != '\n' by {
        if j < k.len() {
            assert(b[j] == k[j]);
        } else if j > k.len() {
            assert(b[j] == v[j - k.len() - 1]);
        } else {
            assert(b[j] == '=');
        }
    }
}

proof fn lemma_pair_line(p: (Seq<char>, Seq<char>))
    requires
        wf_pair(p),
    ensures
        ini_line(pair_line(p)) == Some(p),
        forall|j: int| 0 <= j < pair_line(p).len() ==> #[trigger] pair_line(p)[j] != '\n',
        pair_line(p).last() != '\r',
{
    let k = p.0;
    let v = p.1;
    assert forall|j: int| 0 <= j < k.len() implies #[trigger] k[j] != '=' && k[j] != '\n' by {
        assert(p.0[j] != '\n' && p.0[j] != '=');
    }
    lemma_pair_line_ends(k, v);
    lemma_pair_line_split(k, v);
    lemma_pair_line_breaks(k, v);
    let b = k + seq!['='] + v;
    lemma_trim_fixed(b);
    assert(trim(b) == b);
    assert(pair_line(p) == b);
}

proof fn lemma_ini_text_ends(ps: Seq<(Seq<char>, Seq<char>)>)
    ensures
        ini_text(ps).len() == 0 || ini_text(ps).last() == '\n',
{
}

/// Writing well-formed pairs and reading the text back gives the pairs.
pub proof fn lemma_ini_roundtrip(ps: Seq<(Seq<char>, Seq<char>)>)
    requires
        forall|j: int| 0 <= j < ps.len() ==> wf_pair(#[trigger] ps[j]),
    ensures
        ini_pairs(lines(ini_text(ps))) == ps,
    decreases ps.len(),
{
    if ps.len() == 0 {
        assert(lines(Seq::<char>::empty()) =~= Seq::<Seq<char>>::empty());
    } else {
        let q = ps.drop_last();
        let p = ps.last();
        assert(wf_pair(ps[ps.len() - 1]));
        lemma_ini_roundtrip(q);
        lemma_ini_text_ends(q);
        lemma_pair_line(p);
        let x = ini_text(q);
        let b = pair_line(p);
        assert(ini_text(ps) =~= x + (b + seq!['\n']));
        lemma_lines_concat(x, b + seq!['\n']);
        lemma_lines_single(b);
        let ls = lines(x) + seq![b];
        assert(ls.drop_last() =~= lines(x));
        assert(ps =~= q.push(p));
    }
}

proof fn lemma_sub_chars(s: Seq<char>, a: int, n: int, c: char)
    requires
        0 <= a,
        a + n <= s.len(),
        forall|j: int| 0 <= j < s.len() ==> #[trigger] s[j] != c,
    ensures
        forall|j: int| 0 <= j < n ==> #[trigger] s.subrange(a, a + n)[j] != c,
{
    assert forall|j: int| 0 <= j < n implies #[trigger] s.subrange(a, a + n)[j] != c by {
        assert(s.subrange(a, a + n)[j] == s[a + j]);
    }
}

proof fn lemma_trim_keeps_absence(s: Seq<char>, c: char)
    requires
        forall|j: int| 0 <= j < s.len() ==> #[trigger] s[j] != c,
    ensures
        forall|j: int| 0 <= j < trim(s).len() ==> #[trigger] trim(s)[j] != c,
{
    lemma_trim_props(s);
    let a = choose|a: int| 0 <= a && a + trim(s).len() <= s.len() && trim(s) == #[trigger] s.subrange(a, a + trim(s).len());
    lemma_sub_chars(s, a, trim(s).len() as int, c);
}

/// Every pair the INI reader hands out for a line without breaks is well formed.
proof fn lemma_ini_line_wf(l: Seq<char>)
    requires
        forall|j: int| 0 <= j < l.len() ==> #[trigger] l[j] != '\n',
    ensures
        ini_line(l) matches Some(p) ==> wf_pair(p),
{
    let t = trim(l);
    if t.len() > 0 && t[0] != '#' && t[0] != ';' {
        lemma_index_of_char_props(t, '=');
        let i = index_of_char(t, '=');
        if i < t.len() {
            lemma_trim_keeps_absence(l, '\n');
            lemma_trim_props(l);
            let kt = t.take(i as int);
            let vt = t.skip(i as int + 1);
            let k = trim(kt);
            let v = trim(vt);
            lemma_trim_idempotent(kt);
            lemma_trim_idempotent(vt);
            assert forall|j: int| 0 <= j < kt.len() implies #[trigger] kt[j] != '\n' && kt[j] != '=' by {
                assert(kt[j] == t[j]);
            }
            assert forall|j: int| 0 <= j < vt.len() implies #[trigger] vt[j] != '\n' by {
                assert(vt[j] == t[j + i + 1]);
            }
            lemma_trim_keeps_absence(kt, '\n');
            lemma_trim_keeps_absence(kt, '=');
            lemma_trim_keeps_absence(vt, '\n');
            lemma_trim_props(kt);
            if k.len() > 0 {
                assert(kt[0] == t[0]);
                assert(!is_ws(kt[0]));
                assert(crate::text::lead_ws(kt) == 0);
            }
        }
    }
}

proof fn lemma_ini_pairs_wf(ls: Seq<Seq<char>>)
    requires
        forall|k: int, j: int| 0 <= k < ls.len() && 0 <= j < ls[k].len() ==> #[trigger] ls[k][j] != '\n',
    ensures
        forall|q: int| 0 <= q < ini_pairs(ls).len() ==> wf_pair(#[trigger] ini_pairs(ls)[q]),
    decreases ls.len(),
{
    if ls.len() > 0 {
        let pre = ls.drop_last();
        assert forall|k: int, j: int| 0 <= k < pre.len() && 0 <= j < pre[k].len() implies #[trigger] pre[k][j] != '\n' by {
            assert(pre[k] == ls[k]);
        }
        lemma_ini_pairs_wf(pre);
        let l = ls.last();
        assert forall|j: int| 0 <= j < l.len() implies #[trigger] l[j] != '\n' by {
            assert(ls[ls.len() - 1][j] == l[j]);
        }
        lemma_ini_line_wf(l);
        let r = ini_pairs(pre);
        match ini_line(l) {
            Some(p) => {
                assert(ini_pairs(ls) == r.push(p));
                assert forall|q: int| 0 <= q < ini_pairs(ls).len() implies wf_pair(#[trigger] ini_pairs(ls)[q]) by {
                    if q < r.len() {
                        assert(ini_pairs(ls)[q] == r[q]);
                    }
                }
            },
            None => {
                assert(ini_pairs(ls) == r);
            },
        }
    }
}

proof fn lemma_key_index_ci_props(ps: Seq<(Seq<char>, Seq<char>)>, key: Seq<char>)
    ensures
        -1 <= key_index_ci(ps, key) < ps.len(),
        key_index_ci(ps, key) >= 0 ==> eq_ignore_ascii_case(ps[key_index_ci(ps, key)].0, key),
        forall|j: int| 0 <= j < ps.len() && (key_index_ci(ps, key) < 0 || j < key_index_ci(ps, key)) ==> !eq_ignore_ascii_case(#[trigger] ps[j].0, key),
    decreases ps.len(),
{
    if ps.len() > 0 && !eq_ignore_ascii_case(ps[0].0, key) {
        let t = ps.drop_first();
        lemma_key_index_ci_props(t, key);
        assert forall|j: int| 0 <= j < ps.len() && (key_index_ci(ps, key) < 0 || j < key_index_ci(ps, key)) implies !eq_ignore_ascii_case(#[trigger] ps[j].0, key) by {
            if j > 0 {
                assert(ps[j] == t[j - 1]);
            }
        }
    }
}

/// Reading the Apex launch options back from the text written by
/// [`set_apex_launch_option_ea`] gives the options written, when they are
/// one trimmed line (the file format can hold nothing else).
pub proof fn law_apex_option_roundtrip(content: Seq<char>, o: Seq<char>)
    requires
        trim(o) == o,
        forall|j: int| 0 <= j < o.len() ==> #[trigger] o[j] != '\n',
    ensures
        apex_option_of(ini_text(with_apex_option(ini_pairs(lines(content)), o))) == o,
{
    let ps = ini_pairs(lines(content));
    lemma_lines_no_break(content);
    lemma_ini_pairs_wf(lines(content));
    lemma_key_index_ci_props(ps, apex_cmd_key());
    let i = key_index_ci(ps, apex_cmd_key());
    let qs = with_apex_option(ps, o);
    if i >= 0 {
        assert(wf_pair(ps[i]));
    } else {
        reveal_strlit("user.gamecommandline.origin.ofr.50.0002694");
        lemma_trim_fixed(apex_cmd_key());
        assert(wf_pair((apex_cmd_key(), o)));
    }
    assert forall|j: int| 0 <= j < qs.len() implies wf_pair(#[trigger] qs[j]) by {
        if j < ps.len() && j != i {
            assert(qs[j] == ps[j]);
        }
    }
    lemma_ini_roundtrip(qs);
    if i >= 0 {
        assert forall|j: int| 0 <= j < i implies !eq_ignore_ascii_case(#[trigger] qs[j].0, apex_cmd_key()) by {
            assert(qs[j] == ps[j]);
        }
        lemma_key_index_ci(qs, apex_cmd_key(), i);
    } else {
        assert forall|j: int| 0 <= j < ps.len() implies !eq_ignore_ascii_case(#[trigger] qs[j].0, apex_cmd_key()) by {
            assert(qs[j] == ps[j]);
        }
        assert(eq_ignore_ascii_case(apex_cmd_key(), apex_cmd_key()));
        lemma_key_index_ci(qs, apex_cmd_key(), ps.len() as int);
    }
}

/// The file name of an EA user's INI file, for ids made of ASCII digits
/// (the empty id included, as every character is tested and there are none).
pub open spec fn user_ini_name(id: Seq<char>) -> Option<Seq<char>> {
    if forall|i: int| 0 <= i < id.len() ==> crate::text::is_digit(#[trigger] id[i]) {
        Some("user_"@ + id + ".ini"@)
    } else {
        None
    }
}

/// `user_<id>.ini`; an id that is not all ASCII digits is refused.
pub fn user_ini_file_name(ea_user_id: &str) -> (r: Result<String, String>)
    ensures
        match user_ini_name(ea_user_id@) {
            Some(n) => r is Ok && r.unwrap()@ == n,
            None => r is Err && r->Err_0@ == "无效的 EA 用户 id"@,
        },
{
    let v = chars_of(ea_user_id);
    if !crate::numeric::range_all_digits(&v, 0, v.len()) {
        assert(v@.subrange(0, v@.len() as int) =~= v@);
        return Err("无效的 EA 用户 id".to_string());
    }
    assert(v@.subrange(0, v@.len() as int) =~= v@);
    let mut m = "user_".to_string();
    push_str(&mut m, ea_user_id);
    push_str(&mut m, ".ini");
    Ok(m)
}

} // verus!
