//! Key-based reading and editing of an Apex configuration document.

use crate::game::apex::config::value::{
    get_matches, get_value, last_match, lemma_last_match, lines_view, ApexCfgDocument, ApexCfgLine,
    CfgLine,
};
use crate::text::{
    chars_of, lead_count, lemma_lead_count, lemma_trail_count, push_char, push_str, trail_count, trim,
    trim_bounds, trim_char, trim_char_bounds,
};
use vstd::prelude::*;

verus! {

broadcast use vstd::string::group_string_axioms;

/// The key as written into a new line: quoted unless it opens with a quote.
pub open spec fn normalize_key(k: Seq<char>) -> Seq<char> {
    if k.len() > 0 && k[0] == '"' {
        k
    } else {
        seq!['"'] + k + seq!['"']
    }
}

/// Keys compare without their surrounding quotes.
pub open spec fn keys_equal(a: Seq<char>, b: Seq<char>) -> bool {
    trim_char(a, '"') == trim_char(b, '"')
}

/// Whether `set`/`remove` with the normalized key `nk` touch line `l`.
pub open spec fn set_matches(l: CfgLine, nk: Seq<char>) -> bool {
    match l {
        CfgLine::KeyValue { key, .. } => keys_equal(key, nk),
        CfgLine::Raw(_) => false,
    }
}

/// Index of the first line `set` touches, or `-1`.
pub open spec fn first_set_match(ls: Seq<CfgLine>, nk: Seq<char>) -> int
    decreases ls.len(),
{
    if ls.len() == 0 {
        -1
    } else if set_matches(ls[0], nk) {
        0
    } else {
        let r = first_set_match(ls.drop_first(), nk);
        if r < 0 {
            -1
        } else {
            r + 1
        }
    }
}

pub proof fn lemma_first_set_match(ls: Seq<CfgLine>, nk: Seq<char>, i: int)
    requires
        0 <= i <= ls.len(),
        forall|j: int| 0 <= j < i ==> !set_matches(#[trigger] ls[j], nk),
        i == ls.len() || set_matches(ls[i], nk),
    ensures
        first_set_match(ls, nk) == if i == ls.len() {
            -1
        } else {
            i
        },
    decreases i,
{
    if i > 0 {
        let t = ls.drop_first();
        assert forall|j: int| 0 <= j < i - 1 implies !set_matches(#[trigger] t[j], nk) by {
            assert(t[j] == ls[j + 1]);
        }
        if i < ls.len() {
            assert(t[i - 1] == ls[i]);
        }
        lemma_first_set_match(t, nk, i - 1);
    }
}

/// Whether line `l` is a raw closing brace.
pub open spec fn is_close_brace(l: CfgLine) -> bool {
    match l {
        CfgLine::Raw(s) => trim(s) == seq!['}'],
        CfgLine::KeyValue { .. } => false,
    }
}

/// Index of the last raw closing-brace line, or `-1`.
pub open spec fn last_close_brace(ls: Seq<CfgLine>) -> int
    decreases ls.len(),
{
    if ls.len() == 0 {
        -1
    } else if is_close_brace(ls.last()) {
        ls.len() - 1
    } else {
        last_close_brace(ls.drop_last())
    }
}

pub proof fn lemma_last_close_brace(ls: Seq<CfgLine>, i: int)
    requires
        -1 <= i < ls.len(),
        forall|j: int| i < j < ls.len() ==> !is_close_brace(#[trigger] ls[j]),
        i == -1 || is_close_brace(ls[i]),
    ensures
        last_close_brace(ls) == i,
    decreases ls.len(),
{
    if ls.len() > 0 && i < ls.len() - 1 {
        let t = ls.drop_last();
        assert(!is_close_brace(ls[ls.len() - 1]));
        assert forall|j: int| i < j < t.len() implies !is_close_brace(#[trigger] t[j]) by {
            assert(t[j] == ls[j]);
        }
        if i >= 0 {
            assert(t[i] == ls[i]);
        }
        lemma_last_close_brace(t, i);
    }
}

/// The line a new key is written as.
pub open spec fn new_kv_line(nk: Seq<char>, v: Seq<char>) -> CfgLine {
    CfgLine::KeyValue { key: nk, value: v, prefix: seq!['\t'], separator: seq!['\t', '\t'] }
}

/// A new key/value line placed before the last closing brace, or last.
pub open spec fn insert_before_close(ls: Seq<CfgLine>, nk: Seq<char>, v: Seq<char>) -> Seq<CfgLine> {
    let p = last_close_brace(ls);
    if p >= 0 {
        ls.insert(p, new_kv_line(nk, v))
    } else {
        ls.push(new_kv_line(nk, v))
    }
}

pub open spec fn with_value(l: CfgLine, v: Seq<char>) -> CfgLine {
    match l {
        CfgLine::KeyValue { key, prefix, separator, .. } => CfgLine::KeyValue {
            key,
            value: v,
            prefix,
            separator,
        },
        CfgLine::Raw(s) => CfgLine::Raw(s),
    }
}

/// Every line that `set`/`remove` with `nk` touch takes the value `v`.
pub open spec fn set_value_where(ls: Seq<CfgLine>, nk: Seq<char>, v: Seq<char>) -> Seq<CfgLine> {
    ls.map_values(|l: CfgLine| if set_matches(l, nk) { with_value(l, v) } else { l })
}

/// The lines after `set(key, v)`: every matching line takes the value, or,
/// when none matches, a new line goes before the last closing brace.
pub open spec fn set_lines(ls: Seq<CfgLine>, key: Seq<char>, v: Seq<char>) -> Seq<CfgLine> {
    let nk = normalize_key(key);
    if first_set_match(ls, nk) >= 0 {
        set_value_where(ls, nk, v)
    } else {
        insert_before_close(ls, nk, v)
    }
}

/// The lines that `remove(key)` keeps.
pub open spec fn remove_lines(ls: Seq<CfgLine>, key: Seq<char>) -> Seq<CfgLine>
    decreases ls.len(),
{
    if ls.len() == 0 {
        seq![]
    } else if set_matches(ls.last(), normalize_key(key)) {
        remove_lines(ls.drop_last(), key)
    } else {
        remove_lines(ls.drop_last(), key).push(ls.last())
    }
}

/// The lines after `insert(key, v)`.
pub open spec fn insert_lines(ls: Seq<CfgLine>, key: Seq<char>, v: Seq<char>) -> Seq<CfgLine> {
    if get_value(ls, key) is Some {
        set_lines(ls, key, v)
    } else {
        insert_before_close(ls, normalize_key(key), v)
    }
}

/// `trim_matches('"')` of `a` equals that of `b`.
fn keys_equal_exec(a: &str, b: &str) -> (r: bool)
    ensures
        r == keys_equal(a@, b@),
{
    let av = chars_of(a);
    let bv = chars_of(b);
    let (a0, a1) = trim_char_bounds(&av, 0, av.len(), '"');
    let (b0, b1) = trim_char_bounds(&bv, 0, bv.len(), '"');
    assert(av@.subrange(0, av@.len() as int) =~= av@);
    assert(bv@.subrange(0, bv@.len() as int) =~= bv@);
    if a1 - a0 != b1 - b0 {
        proof {
            assert(av@.subrange(a0 as int, a1 as int).len() != bv@.subrange(b0 as int, b1 as int).len());
        }
        return false;
    }
    let ghost sa = av@.subrange(a0 as int, a1 as int);
    let ghost sb = bv@.subrange(b0 as int, b1 as int);
    let mut i: usize = 0;
    while i < a1 - a0
        invariant
            a0 <= a1 <= av.len(),
            b0 <= b1 <= bv.len(),
            a1 - a0 == b1 - b0,
            i <= a1 - a0,
            sa == av@.subrange(a0 as int, a1 as int),
            sb == bv@.subrange(b0 as int, b1 as int),
            sa == trim_char(a@, '"'),
            sb == trim_char(b@, '"'),
            forall|j: int| 0 <= j < i ==> #[trigger] sa[j] == sb[j],
        decreases a1 - a0 - i,
    {
        proof {
            assert(sa[i as int] == av@[a0 + i]);
            assert(sb[i as int] == bv@[b0 + i]);
        }
        if av[a0 + i] != bv[b0 + i] {
            proof {
                assert(sa[i as int] != sb[i as int]);
            }
            return false;
        }
        i = i + 1;
    }
    assert(av@.subrange(a0 as int, a1 as int) =~= bv@.subrange(b0 as int, b1 as int));
    true
}

fn normalize_key_exec(key: &str) -> (r: String)
    ensures
        r@ == normalize_key(key@),
{
    let kv = chars_of(key);
    if kv.len() > 0 && kv[0] == '"' {
        key.to_string()
    } else {
        let mut out = String::new();
        push_char(&mut out, '"');
        push_str(&mut out, key);
        push_char(&mut out, '"');
        assert(out@ =~= normalize_key(key@));
        out
    }
}

fn line_get_matches(l: &ApexCfgLine, key: &str) -> (r: bool)
    ensures
        r == get_matches(l@, key@),
{
    match l {
        ApexCfgLine::KeyValue { key: k, .. } => {
            if crate::text::str_eq(k.as_str(), key) {
                return true;
            }
            let kv = chars_of(k.as_str());
            let (a, b) = trim_char_bounds(&kv, 0, kv.len(), '"');
            assert(kv@.subrange(0, kv@.len() as int) =~= kv@);
            crate::text::range_eq(&kv, a, b, key)
        },
        ApexCfgLine::Raw(_) => false,
    }
}

fn line_set_matches(l: &ApexCfgLine, nk: &str) -> (r: bool)
    ensures
        r == set_matches(l@, nk@),
{
    match l {
        ApexCfgLine::KeyValue { key: k, .. } => keys_equal_exec(k.as_str(), nk),
        ApexCfgLine::Raw(_) => false,
    }
}

fn line_is_close_brace(l: &ApexCfgLine) -> (r: bool)
    ensures
        r == is_close_brace(l@),
{
    match l {
        ApexCfgLine::Raw(s) => {
            let v = chars_of(s.as_str());
            let (a, b) = trim_bounds(&v, 0, v.len());
            assert(v@.subrange(0, v@.len() as int) =~= v@);
            let r = crate::text::range_eq(&v, a, b, "}");
            proof {
                reveal_strlit("}");
                assert(seq!['}'] =~= "}"@);
            }
            r
        },
        ApexCfgLine::KeyValue { .. } => false,
    }
}

impl ApexCfgDocument {
    /// The value of the last key/value line whose key is `key` (with or
    /// without its quotes).
    pub fn get(&self, key: &str) -> (r: Option<&str>)
        ensures
            match get_value(lines_view(self.lines@), key@) {
                Some(v) => r is Some && r.unwrap()@ == v,
                None => r is None,
            },
    {
        let ghost ls = lines_view(self.lines@);
        let mut i = self.lines.len();
        while i > 0
            invariant
                i <= self.lines.len(),
                ls == lines_view(self.lines@),
                forall|j: int| i <= j < ls.len() ==> !get_matches(#[trigger] ls[j], key@),
            decreases i,
        {
            if line_get_matches(&self.lines[i - 1], key) {
                proof {
                    lemma_last_match(ls, key@, i - 1);
                }
                return self.lines[i - 1].value();
            }
            i = i - 1;
        }
        proof {
            lemma_last_match(ls, key@, -1);
        }
        None
    }

    /// Whether `get(key)` finds a value.
    pub fn path_exists(&self, key: &str) -> (r: bool)
        ensures
            r == (get_value(lines_view(self.lines@), key@) is Some),
    {
        self.get(key).is_some()
    }

    fn insert_before_close_brace(&mut self, key: String, value: String) -> (r: Result<(), String>)
        ensures
            r is Ok,
            lines_view(final(self).lines@) == insert_before_close(lines_view(old(self).lines@), key@, value@),
            final(self).root_name == old(self).root_name,
            final(self).encoding == old(self).encoding,
    {
        let ghost ls = lines_view(self.lines@);
        let new_line = ApexCfgLine::KeyValue {
            key,
            value,
            prefix: "\t".to_string(),
            separator: "\t\t".to_string(),
        };
        proof {
            reveal_strlit("\t");
            reveal_strlit("\t\t");
            assert("\t"@ =~= seq!['\t']);
            assert("\t\t"@ =~= seq!['\t', '\t']);
            assert(new_line@ == new_kv_line(key@, value@));
        }
        let mut i = self.lines.len();
        while i > 0
            invariant
                i <= self.lines.len(),
                ls == lines_view(self.lines@),
                ls == lines_view(old(self).lines@),
                self.root_name == old(self).root_name,
                self.encoding == old(self).encoding,
                new_line@ == new_kv_line(key@, value@),
                forall|j: int| i <= j < ls.len() ==> !is_close_brace(#[trigger] ls[j]),
            decreases i,
        {
            if line_is_close_brace(&self.lines[i - 1]) {
                proof {
                    lemma_last_close_brace(ls, i - 1);
                }
                self.lines.insert(i - 1, new_line);
                proof {
                    assert(lines_view(self.lines@) =~= ls.insert(i - 1, new_kv_line(key@, value@)));
                }
                return Ok(());
            }
            i = i - 1;
        }
        proof {
            lemma_last_close_brace(ls, -1);
        }
        self.lines.push(new_line);
        proof {
            assert(lines_view(self.lines@) =~= ls.push(new_kv_line(key@, value@)));
        }
        Ok(())
    }

    /// Sets the value of every line whose key equals `key` (quotes aside),
    /// or, when there is none, adds `"key"\t\t"value"` before the last
    /// closing brace.
    pub fn set(&mut self, key: &str, value: &str) -> (r: Result<(), String>)
        ensures
            r is Ok,
            lines_view(final(self).lines@) == set_lines(lines_view(old(self).lines@), key@, value@),
            final(self).root_name == old(self).root_name,
            final(self).encoding == old(self).encoding,
    {
        let ghost ls = lines_view(self.lines@);
        let ghost f = |l: CfgLine| if set_matches(l, normalize_key(key@)) { with_value(l, value@) } else { l };
        let nk = normalize_key_exec(key);
        let mut found = false;
        let mut i: usize = 0;
        while i < self.lines.len()
            invariant
                i <= self.lines.len(),
                ls == lines_view(old(self).lines@),
                lines_view(self.lines@).len() == ls.len(),
                f == (|l: CfgLine| if set_matches(l, normalize_key(key@)) { with_value(l, value@) } else { l }),
                forall|j: int| 0 <= j < i ==> #[trigger] lines_view(self.lines@)[j] == f(ls[j]),
                forall|j: int| i <= j < ls.len() ==> #[trigger] lines_view(self.lines@)[j] == ls[j],
                found == (exists|j: int| 0 <= j < i && set_matches(#[trigger] ls[j], nk@)),
                self.root_name == old(self).root_name,
                self.encoding == old(self).encoding,
                nk@ == normalize_key(key@),
            decreases self.lines.len() - i,
        {
            assert(lines_view(self.lines@)[i as int] == self.lines@[i as int]@);
            if line_set_matches(&self.lines[i], nk.as_str()) {
                let ghost before = self.lines@;
                let old_line = self.lines.remove(i);
                let updated = match old_line {
                    ApexCfgLine::KeyValue { key: k, prefix, separator, .. } => ApexCfgLine::KeyValue {
                        key: k,
                        value: value.to_string(),
                        prefix,
                        separator,
                    },
                    ApexCfgLine::Raw(s) => ApexCfgLine::Raw(s),
                };
                self.lines.insert(i, updated);
                proof {
                    assert(self.lines@ =~= before.update(i as int, updated));
                    assert(updated@ == f(ls[i as int]));
                    assert forall|j: int| 0 <= j < self.lines@.len() implies #[trigger] lines_view(self.lines@)[j]
                        == (if j == i { f(ls[i as int]) } else { lines_view(before)[j] }) by {
                    }
                }
                found = true;
            } else {
                assert(f(ls[i as int]) == ls[i as int]);
            }
            i = i + 1;
        }
        if found {
            proof {
                let w = choose|j: int| 0 <= j < ls.len() && set_matches(#[trigger] ls[j], nk@);
                lemma_first_set_match_props(ls, nk@);
                assert(lines_view(self.lines@) =~= set_value_where(ls, nk@, value@));
            }
            return Ok(());
        }
        proof {
            lemma_first_set_match(ls, nk@, ls.len() as int);
            assert forall|j: int| 0 <= j < ls.len() implies #[trigger] lines_view(self.lines@)[j] == ls[j] by {
                assert(!set_matches(ls[j], nk@));
            }
            assert(lines_view(self.lines@) =~= ls);
        }
        self.insert_before_close_brace(nk, value.to_string())
    }

    /// Sets each pair in turn.
    pub fn set_many(&mut self, updates: &[(String, String)]) -> (r: Result<(), String>)
        ensures
            r is Ok,
            lines_view(final(self).lines@) == set_all(lines_view(old(self).lines@), updates@),
            final(self).root_name == old(self).root_name,
            final(self).encoding == old(self).encoding,
    {
        let mut i: usize = 0;
        let ghost start = lines_view(self.lines@);
        assert(updates@.take(0) =~= Seq::<(String, String)>::empty());
        while i < updates.len()
            invariant
                i <= updates.len(),
                lines_view(self.lines@) == set_all(start, updates@.take(i as int)),
                start == lines_view(old(self).lines@),
                self.root_name == old(self).root_name,
                self.encoding == old(self).encoding,
            decreases updates.len() - i,
        {
            let _ = self.set(updates[i].0.as_str(), updates[i].1.as_str());
            proof {
                assert(updates@.take(i + 1).drop_last() =~= updates@.take(i as int));
            }
            i = i + 1;
        }
        assert(updates@.take(updates.len() as int) =~= updates@);
        Ok(())
    }

    /// Drops every line `set(key, ..)` would touch; tells whether any went.
    pub fn remove(&mut self, key: &str) -> (r: Result<bool, String>)
        ensures
            lines_view(final(self).lines@) == remove_lines(lines_view(old(self).lines@), key@),
            r == Ok::<bool, String>(remove_lines(lines_view(old(self).lines@), key@).len() < old(self).lines@.len()),
            final(self).root_name == old(self).root_name,
            final(self).encoding == old(self).encoding,
    {
        let ghost ls = lines_view(self.lines@);
        let nk = normalize_key_exec(key);
        let before = self.lines.len();
        let mut kept: Vec<ApexCfgLine> = Vec::new();
        let mut old_lines: Vec<ApexCfgLine> = Vec::new();
        std::mem::swap(&mut old_lines, &mut self.lines);
        assert(ls == lines_view(old_lines@));
        let mut i: usize = 0;
        assert(ls.take(0) =~= Seq::<CfgLine>::empty());
        assert(lines_view(old_lines@) =~= ls.skip(0));
        while old_lines.len() > 0
            invariant
                i <= before,
                ls.len() == before,
                lines_view(old_lines@) == ls.skip(i as int),
                nk@ == normalize_key(key@),
                lines_view(kept@) == remove_lines(ls.take(i as int), key@),
            decreases old_lines.len(),
        {
            let ghost prev = old_lines@;
            proof {
                assert(lines_view(prev).len() == prev.len());
                assert(i < before);
            }
            let l = old_lines.remove(0);
            proof {
                assert(lines_view(prev)[0] == prev[0]@);
                assert(l@ == ls.skip(i as int)[0]);
                assert(ls.skip(i as int)[0] == ls[i as int]);
                assert forall|j: int| 0 <= j < old_lines@.len() implies #[trigger] lines_view(old_lines@)[j] == ls.skip(i + 1)[j] by {
                    assert(old_lines@[j] == prev[j + 1]);
                    assert(lines_view(prev)[j + 1] == prev[j + 1]@);
                    assert(ls.skip(i as int)[j + 1] == ls.skip(i + 1)[j]);
                }
                assert(lines_view(old_lines@) =~= ls.skip(i + 1));
                assert(ls.take(i + 1).drop_last() =~= ls.take(i as int));
                assert(ls.take(i + 1).last() == ls[i as int]);
            }
            let keep = !line_set_matches(&l, nk.as_str());
            if keep {
                kept.push(l);
                proof {
                    assert(lines_view(kept@) =~= remove_lines(ls.take(i as int), key@).push(ls[i as int]));
                }
            }
            i = i + 1;
        }
        proof {
            assert(ls.take(before as int) =~= ls);
        }
        self.lines = kept;
        Ok(self.lines.len() < before)
    }

    /// `set` when `get(key)` finds a value, else a new line before the last
    /// closing brace.
    pub fn insert(&mut self, key: &str, value: &str) -> (r: Result<(), String>)
        ensures
            r is Ok,
            lines_view(final(self).lines@) == insert_lines(lines_view(old(self).lines@), key@, value@),
            final(self).root_name == old(self).root_name,
            final(self).encoding == old(self).encoding,
    {
        let nk = normalize_key_exec(key);
        if self.path_exists(key) {
            return self.set(key, value);
        }
        self.insert_before_close_brace(nk, value.to_string())
    }
}

/// The lines after setting each pair of `updates` in turn.
pub open spec fn set_all(ls: Seq<CfgLine>, updates: Seq<(String, String)>) -> Seq<CfgLine>
    decreases updates.len(),
{
    if updates.len() == 0 {
        ls
    } else {
        set_lines(set_all(ls, updates.drop_last()), updates.last().0@, updates.last().1@)
    }
}

pub proof fn lemma_first_set_match_props(ls: Seq<CfgLine>, nk: Seq<char>)
    ensures
        -1 <= first_set_match(ls, nk) < ls.len(),
        first_set_match(ls, nk) >= 0 ==> set_matches(ls[first_set_match(ls, nk)], nk),
        forall|j: int|
            0 <= j < ls.len() && (first_set_match(ls, nk) < 0 || j < first_set_match(ls, nk))
                ==> !set_matches(#[trigger] ls[j], nk),
    decreases ls.len(),
{
    if ls.len() > 0 && !set_matches(ls[0], nk) {
        let t = ls.drop_first();
        lemma_first_set_match_props(t, nk);
        assert forall|j: int|
            0 <= j < ls.len() && (first_set_match(ls, nk) < 0 || j < first_set_match(ls, nk))
                implies !set_matches(#[trigger] ls[j], nk) by {
            if j > 0 {
                assert(ls[j] == t[j - 1]);
            }
        }
    }
}

/// A key `get` and `set` agree on: no quote at either end.
pub open spec fn plain_key(key: Seq<char>) -> bool {
    trim_char(key, '"') == key
}

proof fn lemma_trim_normalize(key: Seq<char>)
    ensures
        trim_char(normalize_key(key), '"') == trim_char(key, '"'),
{
    if !(key.len() > 0 && key[0] == '"') {
        let nk = seq!['"'] + key + seq!['"'];
        if key.len() == 0 {
            lemma_lead_count(nk, '"', 2);
            lemma_lead_count(key, '"', 0);
            assert(nk.skip(2) =~= Seq::<char>::empty());
            assert(key.skip(0) =~= Seq::<char>::empty());
        } else {
            lemma_lead_count(nk, '"', 1);
            lemma_lead_count(key, '"', 0);
            let t = nk.skip(1);
            assert(t =~= key + seq!['"']);
            assert(key.skip(0) =~= key);
            let m = trail_count(key, '"');
            // trailing quotes of key, plus the added one
            assert forall|j: int| t.len() - (m + 1) <= j < t.len() implies #[trigger] t[j] == '"' by {
                if j < t.len() - 1 {
                    lemma_trail_quotes(key);
                    assert(t[j] == key[j]);
                }
            }
            lemma_trail_quotes(key);
            if m + 1 < t.len() {
                assert(t[t.len() - (m + 1) - 1] == key[key.len() - m - 1]);
            }
            lemma_trail_count(t, '"', (m + 1) as int);
            assert(t.take(t.len() - (m + 1)) =~= key.take(key.len() - m));
        }
    }
}

proof fn lemma_trail_quotes(s: Seq<char>)
    ensures
        trail_count(s, '"') <= s.len(),
        forall|j: int| s.len() - trail_count(s, '"') <= j < s.len() ==> #[trigger] s[j] == '"',
        trail_count(s, '"') == s.len() || s[s.len() - trail_count(s, '"') - 1] != '"',
    decreases s.len(),
{
    if s.len() > 0 && s.last() == '"' {
        let t = s.drop_last();
        lemma_trail_quotes(t);
        assert forall|j: int| s.len() - trail_count(s, '"') <= j < s.len() implies #[trigger] s[j] == '"' by {
            if j < s.len() - 1 {
                assert(s[j] == t[j]);
            }
        }
        if trail_count(s, '"') < s.len() {
            assert(s[s.len() - trail_count(s, '"') - 1] == t[t.len() - trail_count(t, '"') - 1]);
        }
    }
}

proof fn lemma_plain_matches(l: CfgLine, key: Seq<char>)
    requires
        plain_key(key),
    ensures
        set_matches(l, normalize_key(key)) == get_matches(l, key),
{
    lemma_trim_normalize(key);
}

proof fn lemma_last_match_props(ls: Seq<CfgLine>, key: Seq<char>)
    ensures
        -1 <= last_match(ls, key) < ls.len(),
        last_match(ls, key) >= 0 ==> get_matches(ls[last_match(ls, key)], key),
        forall|j: int| last_match(ls, key) < j < ls.len() ==> !get_matches(#[trigger] ls[j], key),
    decreases ls.len(),
{
    if ls.len() > 0 && !get_matches(ls.last(), key) {
        let t = ls.drop_last();
        lemma_last_match_props(t, key);
        assert forall|j: int| last_match(ls, key) < j < ls.len() implies !get_matches(#[trigger] ls[j], key) by {
            if j < ls.len() - 1 {
                assert(ls[j] == t[j]);
            }
        }
    }
}

/// Setting a key no quote surrounds makes `get` return exactly the value set.
pub proof fn law_get_after_set(ls: Seq<CfgLine>, key: Seq<char>, v: Seq<char>)
    requires
        plain_key(key),
    ensures
        get_value(set_lines(ls, key, v), key) == Some(v),
{
    let nk = normalize_key(key);
    lemma_first_set_match_props(ls, nk);
    lemma_trim_normalize(key);
    let i = first_set_match(ls, nk);
    let ls2 = set_lines(ls, key, v);
    if i >= 0 {
        assert forall|j: int| 0 <= j < ls.len() implies get_matches(#[trigger] ls2[j], key) == get_matches(ls[j], key)
            && (get_matches(ls[j], key) ==> ls2[j] == with_value(ls[j], v)) by {
            lemma_plain_matches(ls[j], key);
        }
        lemma_plain_matches(ls[i], key);
        lemma_last_match_props(ls, key);
        let m = last_match(ls, key);
        assert(m >= i) by {
            if m < i {
                assert(get_matches(ls[i], key));
            }
        }
        assert forall|j: int| m < j < ls2.len() implies !get_matches(#[trigger] ls2[j], key) by {
            assert(!get_matches(ls[j], key));
        }
        assert(get_matches(ls2[m], key));
        lemma_last_match(ls2, key, m);
    } else {
        assert forall|j: int| 0 <= j < ls.len() implies !get_matches(#[trigger] ls[j], key) by {
            lemma_plain_matches(ls[j], key);
        }
        let p = last_close_brace(ls);
        lemma_last_close_brace_props(ls);
        let nl = new_kv_line(nk, v);
        assert(get_matches(nl, key));
        if p >= 0 {
            assert(ls2[p] == nl);
            assert forall|j: int| p < j < ls2.len() implies !get_matches(#[trigger] ls2[j], key) by {
                assert(ls2[j] == ls[j - 1]);
            }
            lemma_last_match(ls2, key, p);
        } else {
            assert(ls2[ls.len() as int] == nl);
            lemma_last_match(ls2, key, ls.len() as int);
        }
    }
}

/// For a key no quote surrounds, `insert` does exactly what `set` does.
pub proof fn law_insert_is_set(ls: Seq<CfgLine>, key: Seq<char>, v: Seq<char>)
    requires
        plain_key(key),
    ensures
        insert_lines(ls, key, v) == set_lines(ls, key, v),
{
    let nk = normalize_key(key);
    lemma_last_match_props(ls, key);
    lemma_first_set_match_props(ls, nk);
    if get_value(ls, key) is None {
        if first_set_match(ls, nk) >= 0 {
            let i = first_set_match(ls, nk);
            lemma_plain_matches(ls[i], key);
            assert(last_match(ls, key) >= i);
        }
    }
}

proof fn lemma_last_close_brace_props(ls: Seq<CfgLine>)
    ensures
        -1 <= last_close_brace(ls) < ls.len(),
    decreases ls.len(),
{
    if ls.len() > 0 && !is_close_brace(ls.last()) {
        lemma_last_close_brace_props(ls.drop_last());
    }
}

proof fn lemma_remove_none_match(ls: Seq<CfgLine>, key: Seq<char>)
    ensures
        forall|j: int| 0 <= j < remove_lines(ls, key).len() ==> !set_matches(
            #[trigger] remove_lines(ls, key)[j],
            normalize_key(key),
        ),
    decreases ls.len(),
{
    if ls.len() > 0 {
        let r = remove_lines(ls.drop_last(), key);
        lemma_remove_none_match(ls.drop_last(), key);
        if !set_matches(ls.last(), normalize_key(key)) {
            assert forall|j: int| 0 <= j < r.push(ls.last()).len() implies !set_matches(
                #[trigger] r.push(ls.last())[j],
                normalize_key(key),
            ) by {
                if j < r.len() {
                    assert(r.push(ls.last())[j] == r[j]);
                }
            }
        }
    }
}

/// After removing a key no quote surrounds, `get` finds no value for it.
pub proof fn law_get_after_remove(ls: Seq<CfgLine>, key: Seq<char>)
    requires
        plain_key(key),
    ensures
        get_value(remove_lines(ls, key), key) is None,
{
    let r = remove_lines(ls, key);
    lemma_remove_none_match(ls, key);
    assert forall|j: int| -1 < j < r.len() implies !get_matches(#[trigger] r[j], key) by {
        lemma_plain_matches(r[j], key);
    }
    lemma_last_match(r, key, -1);
}

} // verus!
