//! Reading the text of an Apex configuration file into a document.

use crate::game::apex::config::encoding::ApexFileEncoding;
use crate::game::apex::config::value::{doc_text, join_lines, line_text, lines_view, ApexCfgDocument, ApexCfgLine, CfgLine};
use crate::text::{
    chars_of, find_char_in, opt_view, index_of_char, lead_ws, lemma_index_of_char_props, line_bounds, lines, range_eq, strip_cr,
    trail_ws, trim_end_from, is_ws, lemma_index_of_char, lemma_lead_ws, lemma_trail_ws,
    range_starts_with, skip_ws_from, string_of_range, trim, trim_bounds, trim_char,
    trim_char_bounds,
};
use vstd::prelude::*;

verus! {

broadcast use vstd::string::group_string_axioms;

pub open spec fn starts_with(s: Seq<char>, w: Seq<char>) -> bool {
    w.len() <= s.len() && s.take(w.len() as int) == w
}

/// A trimmed line such as `"VideoConfig"`: one quoted word, longer than
/// two characters, without a tab (a line of two quoted words, such as
/// `"key" "value"`, is a key/value line).
pub open spec fn is_root_name_line(t: Seq<char>) -> bool {
    &&& t.len() > 2
    &&& t[0] == '"'
    &&& t.last() == '"'
    &&& index_of_char(t, '\t') == t.len()
    &&& index_of_char(t.subrange(1, t.len() - 1), '"') == t.len() - 2
}

/// The key/value reading of a line: after its leading whitespace (the
/// prefix), either two quoted segments (a quoted key, the value, and what
/// lies between them as separator), or a bare key before a single quoted
/// value (the whitespace between them as separator).
pub open spec fn kv_line(line: Seq<char>) -> Option<CfgLine> {
    let n = lead_ws(line);
    let prefix = line.take(n as int);
    let rest = line.skip(n as int);
    let o0: int = index_of_char(rest, '"') as int;
    if o0 >= rest.len() {
        None
    } else {
        let c0: int = o0 + 1 + index_of_char(rest.skip(o0 + 1), '"');
        if c0 >= rest.len() {
            None
        } else {
            let o1: int = c0 + 1 + index_of_char(rest.skip(c0 + 1), '"');
            let c1: int = if o1 < rest.len() {
                o1 + 1 + index_of_char(rest.skip(o1 + 1), '"')
            } else {
                rest.len() as int
            };
            if c1 < rest.len() {
                Some(
                    CfgLine::KeyValue {
                        key: seq!['"'] + rest.subrange(o0 + 1, c0) + seq!['"'],
                        value: rest.subrange(o1 + 1, c1),
                        prefix,
                        separator: rest.subrange(c0 + 1, o1),
                    },
                )
            } else {
                let kp = rest.take(o0);
                let key = trim(kp);
                if key.len() == 0 {
                    None
                } else {
                    Some(
                        CfgLine::KeyValue {
                            key,
                            value: rest.subrange(o0 + 1, c0),
                            prefix,
                            separator: kp.skip(kp.len() - trail_ws(kp)),
                        },
                    )
                }
            }
        }
    }
}

/// The root name already found, or else the first one in `ls`.
pub open spec fn root_then(found: Option<Seq<char>>, ls: Seq<Seq<char>>) -> Option<Seq<char>> {
    match found {
        Some(n) => Some(n),
        None => root_name_of(ls),
    }
}

/// How one line of the file is kept.
pub open spec fn classify(line: Seq<char>) -> CfgLine {
    let t = trim(line);
    if t.len() == 0 || t == seq!['{'] || t == seq!['}'] || is_root_name_line(t) || starts_with(
        t,
        seq!['b', 'i', 'n', 'd'],
    ) {
        CfgLine::Raw(line)
    } else {
        match kv_line(line) {
            Some(l) => l,
            None => CfgLine::Raw(line),
        }
    }
}

/// The name of the first root-name line, without its quotes.
pub open spec fn root_name_of(ls: Seq<Seq<char>>) -> Option<Seq<char>>
    decreases ls.len(),
{
    if ls.len() == 0 {
        None
    } else if is_root_name_line(trim(ls[0])) {
        Some(trim_char(trim(ls[0]), '"'))
    } else {
        root_name_of(ls.drop_first())
    }
}

fn classify_line(v: &Vec<char>, s: usize, e: usize) -> (r: (ApexCfgLine, Option<String>))
    requires
        s <= e <= v.len(),
    ensures
        r.0@ == classify(v@.subrange(s as int, e as int)),
        is_root_name_line(trim(v@.subrange(s as int, e as int))) ==> (r.1 matches Some(n) && n@
            == trim_char(trim(v@.subrange(s as int, e as int)), '"')),
        !is_root_name_line(trim(v@.subrange(s as int, e as int))) ==> r.1 is None,
{
    let ghost line = v@.subrange(s as int, e as int);
    let (a, b) = trim_bounds(v, s, e);
    let ghost t = v@.subrange(a as int, b as int);
    let raw = ApexCfgLine::Raw(string_of_range(v, s, e));
    if a == b {
        return (raw, None);
    }
    let tab = find_char_in(v, a, b, '\t');
    let is_root = b - a > 2 && v[a] == '"' && v[b - 1] == '"' && tab == b && find_char_in(v, a + 1, b - 1, '"') == b - 1;
    proof {
        assert(t[0] == v@[a as int]);
        assert(t.last() == v@[b - 1]);
        if b - a > 2 {
            assert(t.subrange(1, t.len() - 1) =~= v@.subrange(a + 1, b - 1));
        }
    }
    if is_root {
        let (x, y) = trim_char_bounds(v, a, b, '"');
        return (raw, Some(string_of_range(v, x, y)));
    }
    if range_eq(v, a, b, "{") || range_eq(v, a, b, "}") || range_starts_with(v, a, b, "bind") {
        proof {
            reveal_strlit("{");
            reveal_strlit("}");
            reveal_strlit("bind");
            assert(seq!['{'] =~= "{"@);
            assert(seq!['}'] =~= "}"@);
            assert(seq!['b', 'i', 'n', 'd'] =~= "bind"@);
            if 4 <= t.len() {
                assert(t.take(4) =~= v@.subrange(a as int, a + 4));
            }
        }
        return (raw, None);
    }
    proof {
        reveal_strlit("{");
        reveal_strlit("}");
        reveal_strlit("bind");
        assert(seq!['{'] =~= "{"@);
        assert(seq!['}'] =~= "}"@);
        assert(seq!['b', 'i', 'n', 'd'] =~= "bind"@);
        if 4 <= t.len() {
            assert(t.take(4) =~= v@.subrange(a as int, a + 4));
        }
    }
    match kv_line_at(v, s, e) {
        Some(l) => (l, None),
        None => (raw, None),
    }
}

fn kv_line_at(v: &Vec<char>, s: usize, e: usize) -> (r: Option<ApexCfgLine>)
    requires
        s <= e <= v.len(),
    ensures
        match kv_line(v@.subrange(s as int, e as int)) {
            Some(l) => r matches Some(x) && x@ == l,
            None => r is None,
        },
{
    let ghost line = v@.subrange(s as int, e as int);
    let n = skip_ws_from(v, s, e);
    let ghost rest = v@.subrange(n as int, e as int);
    proof {
        assert(line.take((n - s) as int) =~= v@.subrange(s as int, n as int));
        assert(line.skip((n - s) as int) =~= rest);
    }
    let o0 = find_char_in(v, n, e, '"');
    if o0 == e {
        return None;
    }
    proof {
        assert(rest.skip(o0 - n + 1) =~= v@.subrange(o0 + 1, e as int));
    }
    let c0 = find_char_in(v, o0 + 1, e, '"');
    if c0 == e {
        return None;
    }
    proof {
        assert(rest.skip(c0 - n + 1) =~= v@.subrange(c0 + 1, e as int));
    }
    let o1 = find_char_in(v, c0 + 1, e, '"');
    let c1 = if o1 < e {
        proof {
            assert(rest.skip(o1 - n + 1) =~= v@.subrange(o1 + 1, e as int));
        }
        find_char_in(v, o1 + 1, e, '"')
    } else {
        e
    };
    if c1 < e {
        let mut key = String::new();
        crate::text::push_char(&mut key, '"');
        let inner = string_of_range(v, o0 + 1, c0);
        crate::text::push_str(&mut key, inner.as_str());
        crate::text::push_char(&mut key, '"');
        let l = ApexCfgLine::KeyValue {
            key,
            value: string_of_range(v, o1 + 1, c1),
            prefix: string_of_range(v, s, n),
            separator: string_of_range(v, c0 + 1, o1),
        };
        proof {
            assert(rest.subrange(o0 - n + 1, c0 - n) =~= v@.subrange(o0 + 1, c0 as int));
            assert(rest.subrange(o1 - n + 1, c1 - n) =~= v@.subrange(o1 + 1, c1 as int));
            assert(rest.subrange(c0 - n + 1, o1 - n) =~= v@.subrange(c0 + 1, o1 as int));
            let so0 = index_of_char(rest, '"') as int;
            assert(so0 == o0 - n);
            let sc0 = so0 + 1 + index_of_char(rest.skip(so0 + 1), '"');
            assert(sc0 == c0 - n);
            let so1 = sc0 + 1 + index_of_char(rest.skip(sc0 + 1), '"');
            assert(so1 == o1 - n);
            let sc1: int = if so1 < rest.len() {
                so1 + 1 + index_of_char(rest.skip(so1 + 1), '"')
            } else {
                rest.len() as int
            };
            assert(sc1 == c1 - n);
            assert(key@ =~= seq!['"'] + rest.subrange(so0 + 1, sc0) + seq!['"']);
            assert(l@ == kv_line(line)->Some_0);
        }
        Some(l)
    } else {
        let (ka, kb) = trim_bounds(v, n, o0);
        proof {
            assert(rest.take(o0 - n) =~= v@.subrange(n as int, o0 as int));
            let so0 = index_of_char(rest, '"') as int;
            assert(so0 == o0 - n);
            let sc0 = so0 + 1 + index_of_char(rest.skip(so0 + 1), '"');
            assert(sc0 == c0 - n);
            let so1 = sc0 + 1 + index_of_char(rest.skip(sc0 + 1), '"');
            assert(so1 == o1 - n);
            let sc1: int = if so1 < rest.len() {
                so1 + 1 + index_of_char(rest.skip(so1 + 1), '"')
            } else {
                rest.len() as int
            };
            assert(sc1 == rest.len());
        }
        if ka == kb {
            return None;
        }
        let ke = trim_end_from(v, n, o0);
        let l = ApexCfgLine::KeyValue {
            key: string_of_range(v, ka, kb),
            value: string_of_range(v, o0 + 1, c0),
            prefix: string_of_range(v, s, n),
            separator: string_of_range(v, ke, o0),
        };
        proof {
            assert(rest.subrange(o0 - n + 1, c0 - n) =~= v@.subrange(o0 + 1, c0 as int));
            let kp = rest.take(o0 - n);
            assert(kp =~= v@.subrange(n as int, o0 as int));
            assert(kp.skip(kp.len() - trail_ws(kp)) =~= v@.subrange(ke as int, o0 as int));
            assert(l@ == kv_line(line)->Some_0);
        }
        Some(l)
    }
}

/// Parses configuration text line by line (never fails).
pub fn parse_content(content: &str, encoding: ApexFileEncoding) -> (r: Result<ApexCfgDocument, String>)
    ensures
        r matches Ok(d) && lines_view(d.lines@) == lines(content@).map_values(|l: Seq<char>| classify(l))
            && opt_view(d.root_name) == root_name_of(lines(content@)) && d.encoding == encoding,
{
    let v = chars_of(content);
    let bounds = line_bounds(&v);
    let ghost ls = lines(v@);
    let mut doc = ApexCfgDocument::new();
    doc.encoding = encoding;
    let ghost mut done: Seq<CfgLine> = seq![];
    assert(ls.skip(0) =~= ls);
    assert(lines_view(doc.lines@) =~= done);
    let mut k: usize = 0;
    while k < bounds.len()
        invariant
            k <= bounds.len(),
            ls == lines(v@),
            v@ == content@,
            bounds@.len() == ls.len(),
            forall|j: int|
                0 <= j < bounds@.len() ==> {
                    &&& (#[trigger] bounds@[j]).0 <= bounds@[j].1 <= v.len()
                    &&& v@.subrange(bounds@[j].0 as int, bounds@[j].1 as int) == ls[j]
                },
            lines_view(doc.lines@) == done,
            done.len() == k,
            forall|j: int| 0 <= j < k ==> #[trigger] done[j] == classify(ls[j]),
            doc.encoding == encoding,
            root_name_of(ls) == root_then(opt_view(doc.root_name), ls.skip(k as int)),
        decreases bounds.len() - k,
    {
        let (s, e) = bounds[k];
        let (line, root) = classify_line(&v, s, e);
        proof {
            assert(ls.skip(k as int)[0] == ls[k as int]);
            assert(ls.skip(k as int).drop_first() =~= ls.skip(k + 1));
        }
        if doc.root_name.is_none() {
            doc.root_name = root;
        }
        proof {
            done = done.push(line@);
        }
        doc.lines.push(line);
        proof {
            assert(lines_view(doc.lines@) =~= done);
        }
        k = k + 1;
    }
    proof {
        assert(done =~= ls.map_values(|l: Seq<char>| classify(l)));
        assert(ls.skip(bounds.len() as int) =~= Seq::<Seq<char>>::empty());
    }
    Ok(doc)
}

impl ApexCfgDocument {
    /// Parses configuration text (see [`parse_content`]).
    pub fn from_content(content: &str, encoding: ApexFileEncoding) -> (r: Result<Self, String>)
        ensures
            r matches Ok(d) && lines_view(d.lines@) == lines(content@).map_values(
                |l: Seq<char>| classify(l),
            ) && opt_view(d.root_name) == root_name_of(lines(content@)) && d.encoding
                == encoding,
    {
        parse_content(content, encoding)
    }
}

proof fn lemma_join_cons(a: Seq<char>, rest: Seq<Seq<char>>)
    requires
        rest.len() > 0,
    ensures
        join_lines(seq![a] + rest) == a + seq!['\n'] + join_lines(rest),
    decreases rest.len(),
{
    let s = seq![a] + rest;
    assert(s.len() >= 2);
    assert(join_lines(s) == join_lines(s.drop_last()) + seq!['\n'] + s.last());
    if rest.len() == 1 {
        assert(s.drop_last() =~= seq![a]);
        assert(join_lines(seq![a]) == a);
        assert(s.last() == rest[0]);
        assert(join_lines(rest) == rest[0]);
    } else {
        assert(s.drop_last() =~= seq![a] + rest.drop_last());
        assert(s.last() == rest.last());
        lemma_join_cons(a, rest.drop_last());
        assert(join_lines(rest) == join_lines(rest.drop_last()) + seq!['\n'] + rest.last());
        assert(join_lines(s) =~= a + seq!['\n'] + join_lines(rest));
    }
}

/// Text without `'\r'`, cut into lines and joined again by `'\n'`, is the
/// text without its final line break.
proof fn lemma_join_lines_of(s: Seq<char>)
    requires
        forall|j: int| 0 <= j < s.len() ==> #[trigger] s[j] != '\r',
    ensures
        join_lines(lines(s)) == (if s.len() > 0 && s.last() == '\n' {
            s.drop_last()
        } else {
            s
        }),
    decreases s.len(),
{
    if s.len() > 0 {
        lemma_index_of_char_props(s, '\n');
        let i = index_of_char(s, '\n');
        if i >= s.len() {
            assert(lines(s) == seq![s]);
            assert(s[s.len() - 1] != '\n');
        } else {
            let first = s.take(i as int);
            let t = s.skip(i as int + 1);
            if first.len() > 0 {
                assert(first.last() == s[i - 1]);
            }
            assert(strip_cr(first) == first);
            assert(lines(s) == seq![first] + lines(t));
            assert forall|j: int| 0 <= j < t.len() implies #[trigger] t[j] != '\r' by {
                assert(t[j] == s[i + 1 + j]);
            }
            lemma_join_lines_of(t);
            if t.len() == 0 {
                assert(lines(t) =~= Seq::<Seq<char>>::empty());
                assert(seq![first] + lines(t) =~= seq![first]);
                assert(s.drop_last() =~= first);
            } else {
                lemma_index_of_char_props(t, '\n');
                assert(lines(t).len() > 0);
                lemma_join_cons(first, lines(t));
                assert(s.last() == t.last());
                if t.last() == '\n' {
                    assert(s.drop_last() =~= first + seq!['\n'] + t.drop_last());
                } else {
                    assert(s =~= first + seq!['\n'] + t);
                }
            }
        }
    }
}

/// Writing back a parsed file gives its text again (with a final line
/// break), when every line is kept as it was written, the text holds no
/// `'\r'`, and it does not end in an empty line.
pub proof fn law_write_back_keeps_text(content: Seq<char>)
    requires
        forall|k: int| 0 <= k < lines(content).len() ==> line_text(classify(#[trigger] lines(content)[k])) == lines(
            content,
        )[k],
        forall|j: int| 0 <= j < content.len() ==> #[trigger] content[j] != '\r',
        !(content.len() > 0 && content.last() == '\n' && (content.len() == 1 || content[content.len() - 2] == '\n')),
    ensures
        doc_text(lines(content).map_values(|l: Seq<char>| classify(l))) == (if content.len() > 0 && content.last()
            != '\n' {
            content.push('\n')
        } else {
            content
        }),
{
    let ls = lines(content);
    let cl = ls.map_values(|l: Seq<char>| classify(l));
    assert(cl.map_values(|l: CfgLine| line_text(l)) =~= ls);
    lemma_join_lines_of(content);
    let j = join_lines(ls);
    if content.len() > 0 && content.last() == '\n' {
        assert(j.len() == content.len() - 1);
        assert(j.last() == content[content.len() - 2]);
        assert(j.push('\n') =~= content);
    }
}

/// Every character is white space.
pub open spec fn all_ws(s: Seq<char>) -> bool {
    forall|j: int| 0 <= j < s.len() ==> is_ws(#[trigger] s[j])
}

/// No character is a `"`.
pub open spec fn no_quote(s: Seq<char>) -> bool {
    forall|j: int| 0 <= j < s.len() ==> #[trigger] s[j] != '"'
}

/// `<prefix>"<k>"<sep>"<v>"` with white-space prefix and separator.
pub open spec fn quoted_kv_text(p: Seq<char>, k: Seq<char>, sep: Seq<char>, v: Seq<char>) -> Seq<char> {
    p + seq!['"'] + k + seq!['"'] + sep + seq!['"'] + v + seq!['"']
}

/// `<prefix><k><sep>"<v>"` with white-space prefix and separator.
pub open spec fn bare_kv_text(p: Seq<char>, k: Seq<char>, sep: Seq<char>, v: Seq<char>) -> Seq<char> {
    p + k + sep + seq!['"'] + v + seq!['"']
}

/// A key/value line in one of the two forms the writer reproduces: a quoted
/// key, or a bare key (no white space at its ends, not opening with `bind`),
/// then white space and the quoted value; keys and values without quotes.
pub open spec fn kv_shaped(l: Seq<char>) -> bool {
    ||| exists|p: Seq<char>, k: Seq<char>, sep: Seq<char>, v: Seq<char>|
        all_ws(p) && all_ws(sep) && no_quote(k) && no_quote(v) && l == #[trigger] quoted_kv_text(p, k, sep, v)
    ||| exists|p: Seq<char>, k: Seq<char>, sep: Seq<char>, v: Seq<char>|
        all_ws(p) && all_ws(sep) && no_quote(k) && no_quote(v) && k.len() > 0 && !is_ws(k[0]) && !is_ws(k.last())
            && !starts_with(k + sep + seq!['"'] + v + seq!['"'], seq!['b', 'i', 'n', 'd'])
            && l == #[trigger] bare_kv_text(p, k, sep, v)
}

proof fn lemma_ws_not_quote(s: Seq<char>)
    requires
        all_ws(s),
    ensures
        no_quote(s),
        forall|j: int| 0 <= j < s.len() ==> #[trigger] s[j] != '{' && s[j] != '}',
{
}

#[verifier::rlimit(60)]
proof fn lemma_quoted_kv_kept(p: Seq<char>, k: Seq<char>, sep: Seq<char>, v: Seq<char>)
    requires
        all_ws(p),
        all_ws(sep),
        no_quote(k),
        no_quote(v),
    ensures
        line_text(classify(quoted_kv_text(p, k, sep, v))) == quoted_kv_text(p, k, sep, v),
{
    lemma_ws_not_quote(sep);
    let l = quoted_kv_text(p, k, sep, v);
    let rest = seq!['"'] + k + seq!['"'] + sep + seq!['"'] + v + seq!['"'];
    assert(l =~= p + rest);
    assert forall|j: int| 0 <= j < p.len() implies is_ws(#[trigger] l[j]) by {
        assert(l[j] == p[j]);
    }
    assert(l[p.len() as int] == '"');
    lemma_lead_ws(l, p.len() as int);
    assert(l.skip(p.len() as int) =~= rest);
    assert(l.take(p.len() as int) =~= p);
    // trim gives `rest`
    assert(trail_ws(rest) == 0);
    let t = trim(l);
    assert(t =~= rest);
    // not a root-name line: the inner text holds a quote after `k`
    let inner = t.subrange(1, t.len() - 1);
    assert forall|j: int| 0 <= j < k.len() implies #[trigger] inner[j] != '"' by {
        assert(inner[j] == k[j]);
    }
    assert(inner[k.len() as int] == '"');
    lemma_index_of_char(inner, '"', k.len() as int);
    assert(!is_root_name_line(t));
    assert(t[0] == '"');
    assert(!starts_with(t, seq!['b', 'i', 'n', 'd']));
    assert(t != seq!['{'] && t != seq!['}']) by {
        assert(t.len() >= 4);
    }
    // the quotes of `rest`
    lemma_index_of_char(rest, '"', 0);
    let c0: int = 1 + k.len() as int;
    let r1 = rest.skip(1);
    assert forall|j: int| 0 <= j < k.len() implies #[trigger] r1[j] != '"' by {
        assert(r1[j] == k[j]);
    }
    assert(r1[k.len() as int] == '"');
    lemma_index_of_char(r1, '"', k.len() as int);
    let r2 = rest.skip(c0 + 1);
    assert forall|j: int| 0 <= j < sep.len() implies #[trigger] r2[j] != '"' by {
        assert(r2[j] == sep[j]);
    }
    assert(r2[sep.len() as int] == '"');
    lemma_index_of_char(r2, '"', sep.len() as int);
    let o1: int = c0 + 1 + sep.len();
    let r3 = rest.skip(o1 + 1);
    assert forall|j: int| 0 <= j < v.len() implies #[trigger] r3[j] != '"' by {
        assert(r3[j] == v[j]);
    }
    assert(r3[v.len() as int] == '"');
    lemma_index_of_char(r3, '"', v.len() as int);
    assert(rest.subrange(1, c0) =~= k);
    assert(rest.subrange(c0 + 1, o1) =~= sep);
    assert(rest.subrange(o1 + 1, o1 + 1 + v.len()) =~= v);
    let kl = kv_line(l)->Some_0;
    assert(kl == CfgLine::KeyValue { key: seq!['"'] + k + seq!['"'], value: v, prefix: p, separator: sep });
    assert(line_text(kl) =~= l);
}

proof fn lemma_bare_kv_kept(p: Seq<char>, k: Seq<char>, sep: Seq<char>, v: Seq<char>)
    requires
        all_ws(p),
        all_ws(sep),
        no_quote(k),
        no_quote(v),
        k.len() > 0,
        !is_ws(k[0]),
        !is_ws(k.last()),
        !starts_with(k + sep + seq!['"'] + v + seq!['"'], seq!['b', 'i', 'n', 'd']),
    ensures
        line_text(classify(bare_kv_text(p, k, sep, v))) == bare_kv_text(p, k, sep, v),
{
    lemma_ws_not_quote(sep);
    let l = bare_kv_text(p, k, sep, v);
    let rest = k + sep + seq!['"'] + v + seq!['"'];
    assert(l =~= p + rest);
    assert forall|j: int| 0 <= j < p.len() implies is_ws(#[trigger] l[j]) by {
        assert(l[j] == p[j]);
    }
    assert(l[p.len() as int] == k[0]);
    lemma_lead_ws(l, p.len() as int);
    assert(l.skip(p.len() as int) =~= rest);
    assert(l.take(p.len() as int) =~= p);
    assert(trail_ws(rest) == 0);
    let t = trim(l);
    assert(t =~= rest);
    assert(t[0] == k[0]);
    assert(k[0] != '"');
    assert(!is_root_name_line(t));
    assert(t != seq!['{'] && t != seq!['}']) by {
        assert(t.len() >= 3);
    }
    let o0: int = (k.len() + sep.len()) as int;
    assert forall|j: int| 0 <= j < o0 implies #[trigger] rest[j] != '"' by {
        if j < k.len() {
            assert(rest[j] == k[j]);
        } else {
            assert(rest[j] == sep[j - k.len()]);
        }
    }
    assert(rest[o0 as int] == '"');
    lemma_index_of_char(rest, '"', o0 as int);
    let r1 = rest.skip(o0 + 1);
    assert forall|j: int| 0 <= j < v.len() implies #[trigger] r1[j] != '"' by {
        assert(r1[j] == v[j]);
    }
    assert(r1[v.len() as int] == '"');
    lemma_index_of_char(r1, '"', v.len() as int);
    let c0: int = o0 + 1 + v.len();
    let r2 = rest.skip(c0 + 1);
    assert(r2.len() == 0);
    lemma_index_of_char(r2, '"', 0);
    let kp = rest.take(o0 as int);
    assert(kp =~= k + sep);
    assert forall|j: int| kp.len() - sep.len() <= j < kp.len() implies is_ws(#[trigger] kp[j]) by {
        assert(kp[j] == sep[j - k.len()]);
    }
    assert(kp[kp.len() - sep.len() - 1] == k.last());
    lemma_trail_ws(kp, sep.len() as int);
    assert(kp[0] == k[0]);
    lemma_lead_ws(kp, 0);
    assert(kp.skip(0) =~= kp);
    assert(trim(kp) =~= k);
    assert(kp.skip(kp.len() - trail_ws(kp)) =~= sep);
    assert(rest.subrange(o0 + 1, c0) =~= v);
    let kl = kv_line(l)->Some_0;
    assert(kl == CfgLine::KeyValue { key: k, value: v, prefix: p, separator: sep });
    assert(line_text(kl) =~= l);
}

/// Writing back a parsed file gives its text again (with a final line
/// break), when every line read as a key/value line has one of the forms
/// of `kv_shaped`, the text holds no `'\r'`, and it does not end in an
/// empty line.
pub proof fn law_write_back_keeps_shaped_text(content: Seq<char>)
    requires
        forall|k: int| 0 <= k < lines(content).len() ==> (classify(#[trigger] lines(content)[k]) is KeyValue
            ==> kv_shaped(lines(content)[k])),
        forall|j: int| 0 <= j < content.len() ==> #[trigger] content[j] != '\r',
        !(content.len() > 0 && content.last() == '\n' && (content.len() == 1 || content[content.len() - 2] == '\n')),
    ensures
        doc_text(lines(content).map_values(|l: Seq<char>| classify(l))) == (if content.len() > 0 && content.last()
            != '\n' {
            content.push('\n')
        } else {
            content
        }),
{
    let ls = lines(content);
    assert forall|k: int| 0 <= k < ls.len() implies line_text(classify(#[trigger] ls[k])) == ls[k] by {
        let l = ls[k];
        if classify(l) is KeyValue {
            assert(kv_shaped(l));
            if exists|p: Seq<char>, kk: Seq<char>, sep: Seq<char>, v: Seq<char>|
                all_ws(p) && all_ws(sep) && no_quote(kk) && no_quote(v) && l == #[trigger] quoted_kv_text(p, kk, sep, v) {
                let (p, kk, sep, v) = choose|p: Seq<char>, kk: Seq<char>, sep: Seq<char>, v: Seq<char>|
                    all_ws(p) && all_ws(sep) && no_quote(kk) && no_quote(v) && l == #[trigger] quoted_kv_text(p, kk, sep, v);
                lemma_quoted_kv_kept(p, kk, sep, v);
            } else {
                let (p, kk, sep, v) = choose|p: Seq<char>, kk: Seq<char>, sep: Seq<char>, v: Seq<char>|
                    all_ws(p) && all_ws(sep) && no_quote(kk) && no_quote(v) && kk.len() > 0 && !is_ws(kk[0]) && !is_ws(kk.last())
                        && !starts_with(kk + sep + seq!['"'] + v + seq!['"'], seq!['b', 'i', 'n', 'd'])
                        && l == #[trigger] bare_kv_text(p, kk, sep, v);
                lemma_bare_kv_kept(p, kk, sep, v);
            }
        }
    }
    law_write_back_keeps_text(content);
}

/// An unedited document is written back byte for byte: text with no `\r`,
/// empty or ending in one `\n` (not a blank last line), in which every line
/// read as a key/value line is `<prefix>"<key>"<sep>"<value>"` (white-space
/// prefix and separator, key and value without quotes), is the text of the
/// lines `parse_content` reads from it.
pub proof fn law_unedited_document_written_back(content: Seq<char>)
    requires
        forall|k: int| 0 <= k < lines(content).len() ==> (classify(#[trigger] lines(content)[k]) is KeyValue
            ==> exists|p: Seq<char>, key: Seq<char>, sep: Seq<char>, v: Seq<char>|
                all_ws(p) && all_ws(sep) && no_quote(key) && no_quote(v) && lines(content)[k]
                    == #[trigger] quoted_kv_text(p, key, sep, v)),
        forall|j: int| 0 <= j < content.len() ==> #[trigger] content[j] != '\r',
        content.len() == 0 || content.last() == '\n',
        content != seq!['\n'],
        !(content.len() >= 2 && content[content.len() - 2] == '\n'),
    ensures
        doc_text(lines(content).map_values(|l: Seq<char>| classify(l))) == content,
{
    assert forall|k: int| 0 <= k < lines(content).len() implies (classify(#[trigger] lines(content)[k]) is KeyValue
        ==> kv_shaped(lines(content)[k])) by {}
    if content.len() == 1 && content.last() == '\n' {
        assert(content =~= seq!['\n']);
    }
    law_write_back_keeps_shaped_text(content);
}

} // verus!
