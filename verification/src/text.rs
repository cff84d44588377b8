//! Character-level text primitives shared by every parser of the crate:
//! whitespace as `char::is_whitespace` defines it, trimming, line splitting
//! as `str::lines` does it, and decimal rendering of integers.

use vstd::prelude::*;

verus! {

broadcast use vstd::string::group_string_axioms;

/// `char::is_whitespace`: the Unicode `White_Space` property.
pub open spec fn is_ws(c: char) -> bool {
    ||| ('\u{9}' <= c && c <= '\u{d}')
    ||| c == ' '
    ||| c == '\u{85}'
    ||| c == '\u{a0}'
    ||| c == '\u{1680}'
    ||| ('\u{2000}' <= c && c <= '\u{200a}')
    ||| c == '\u{2028}'
    ||| c == '\u{2029}'
    ||| c == '\u{202f}'
    ||| c == '\u{205f}'
    ||| c == '\u{3000}'
}

/// `char::is_control`: the general category `Cc`.
pub open spec fn is_control(c: char) -> bool {
    c <= '\u{1f}' || ('\u{7f}' <= c && c <= '\u{9f}')
}

/// `char::is_alphabetic`.
pub uninterp spec fn unicode_alphabetic(c: char) -> bool;

/// `char::is_numeric`.
pub uninterp spec fn unicode_numeric(c: char) -> bool;

/// `char::is_alphabetic` (Unicode `Alphabetic` property).
#[verifier::external_body]
pub(crate) fn char_is_alphabetic(c: char) -> (b: bool)
    ensures
        b == unicode_alphabetic(c),
{
    c.is_alphabetic()
}

/// `char::is_numeric` (Unicode general categories `Nd`, `Nl`, `No`).
#[verifier::external_body]
pub(crate) fn char_is_numeric(c: char) -> (b: bool)
    ensures
        b == unicode_numeric(c),
{
    c.is_numeric()
}

pub open spec fn is_digit(c: char) -> bool {
    '0' <= c && c <= '9'
}

pub fn char_is_ws(c: char) -> (b: bool)
    ensures
        b == is_ws(c),
{
    ('\u{9}' <= c && c <= '\u{d}') || c == ' ' || c == '\u{85}' || c == '\u{a0}' || c
        == '\u{1680}' || ('\u{2000}' <= c && c <= '\u{200a}') || c == '\u{2028}' || c
        == '\u{2029}' || c == '\u{202f}' || c == '\u{205f}' || c == '\u{3000}'
}

pub fn char_is_control(c: char) -> (b: bool)
    ensures
        b == is_control(c),
{
    c <= '\u{1f}' || ('\u{7f}' <= c && c <= '\u{9f}')
}

/// Number of whitespace characters that open `s`.
pub open spec fn lead_ws(s: Seq<char>) -> nat
    decreases s.len(),
{
    if s.len() == 0 {
        0
    } else if is_ws(s[0]) {
        1 + lead_ws(s.drop_first())
    } else {
        0
    }
}

/// Number of whitespace characters that close `s`.
pub open spec fn trail_ws(s: Seq<char>) -> nat
    decreases s.len(),
{
    if s.len() == 0 {
        0
    } else if is_ws(s.last()) {
        1 + trail_ws(s.drop_last())
    } else {
        0
    }
}

pub open spec fn trim_start(s: Seq<char>) -> Seq<char> {
    s.skip(lead_ws(s) as int)
}

pub open spec fn trim_end(s: Seq<char>) -> Seq<char> {
    s.take(s.len() - trail_ws(s))
}

/// `str::trim`.
pub open spec fn trim(s: Seq<char>) -> Seq<char> {
    trim_end(trim_start(s))
}

pub proof fn lemma_lead_ws(s: Seq<char>, i: int)
    requires
        0 <= i <= s.len(),
        forall|j: int| 0 <= j < i ==> is_ws(#[trigger] s[j]),
        i == s.len() || !is_ws(s[i]),
    ensures
        lead_ws(s) == i,
    decreases i,
{
    if i > 0 {
        let t = s.drop_first();
        assert forall|j: int| 0 <= j < i - 1 implies is_ws(#[trigger] t[j]) by {
            assert(t[j] == s[j + 1]);
        }
        if i < s.len() {
            assert(t[i - 1] == s[i]);
        }
        lemma_lead_ws(t, i - 1);
    }
}

pub proof fn lemma_lead_ws_bound(s: Seq<char>)
    ensures
        lead_ws(s) <= s.len(),
        forall|j: int| 0 <= j < lead_ws(s) ==> is_ws(#[trigger] s[j]),
        lead_ws(s) == s.len() || !is_ws(s[lead_ws(s) as int]),
    decreases s.len(),
{
    if s.len() > 0 && is_ws(s[0]) {
        let t = s.drop_first();
        lemma_lead_ws_bound(t);
        assert forall|j: int| 0 <= j < lead_ws(s) implies is_ws(#[trigger] s[j]) by {
            if j > 0 {
                assert(s[j] == t[j - 1]);
            }
        }
        if lead_ws(s) < s.len() {
            assert(s[lead_ws(s) as int] == t[lead_ws(t) as int]);
        }
    }
}

pub proof fn lemma_trail_ws(s: Seq<char>, i: int)
    requires
        0 <= i <= s.len(),
        forall|j: int| s.len() - i <= j < s.len() ==> is_ws(#[trigger] s[j]),
        i == s.len() || !is_ws(s[s.len() - i - 1]),
    ensures
        trail_ws(s) == i,
    decreases i,
{
    if i > 0 {
        let t = s.drop_last();
        assert forall|j: int| t.len() - (i - 1) <= j < t.len() implies is_ws(#[trigger] t[j]) by {
            assert(t[j] == s[j]);
        }
        if i < s.len() {
            assert(t[t.len() - (i - 1) - 1] == s[s.len() - i - 1]);
        }
        lemma_trail_ws(t, i - 1);
    }
}

/// Number of non-whitespace characters that open `s`.
pub open spec fn lead_word(s: Seq<char>) -> nat
    decreases s.len(),
{
    if s.len() == 0 {
        0
    } else if !is_ws(s[0]) {
        1 + lead_word(s.drop_first())
    } else {
        0
    }
}

pub proof fn lemma_lead_word(s: Seq<char>, i: int)
    requires
        0 <= i <= s.len(),
        forall|j: int| 0 <= j < i ==> !is_ws(#[trigger] s[j]),
        i == s.len() || is_ws(s[i]),
    ensures
        lead_word(s) == i,
    decreases i,
{
    if i > 0 {
        let t = s.drop_first();
        assert forall|j: int| 0 <= j < i - 1 implies !is_ws(#[trigger] t[j]) by {
            assert(t[j] == s[j + 1]);
        }
        if i < s.len() {
            assert(t[i - 1] == s[i]);
        }
        lemma_lead_word(t, i - 1);
    }
}

pub proof fn lemma_lead_word_bound(s: Seq<char>)
    ensures
        lead_word(s) <= s.len(),
        s.len() > 0 && !is_ws(s[0]) ==> lead_word(s) >= 1,
    decreases s.len(),
{
    if s.len() > 0 && !is_ws(s[0]) {
        lemma_lead_word_bound(s.drop_first());
    }
}

/// `str::split_whitespace`: the maximal runs of non-whitespace characters.
pub open spec fn words(s: Seq<char>) -> Seq<Seq<char>>
    decreases s.len(),
{
    proof {
        lemma_lead_ws_bound(s);
    }
    if lead_ws(s) >= s.len() {
        seq![]
    } else {
        let t = s.skip(lead_ws(s) as int);
        proof {
            lemma_lead_word_bound(t);
            assert(t[0] == s[lead_ws(s) as int]);
        }
        let n = lead_word(t);
        seq![t.take(n as int)] + words(t.skip(n as int))
    }
}

/// Bounds of the whitespace-separated words of `v[start..end]`.
pub fn word_bounds(v: &Vec<char>, start: usize, end: usize) -> (r: Vec<(usize, usize)>)
    requires
        start <= end <= v.len(),
    ensures
        r@.len() == words(v@.subrange(start as int, end as int)).len(),
        forall|k: int|
            0 <= k < r@.len() ==> {
                &&& start <= (#[trigger] r@[k]).0 <= r@[k].1 <= end
                &&& v@.subrange(r@[k].0 as int, r@[k].1 as int) == words(v@.subrange(start as int, end as int))[k]
            },
{
    let ghost ws = words(v@.subrange(start as int, end as int));
    let ghost mut done: Seq<Seq<char>> = seq![];
    let mut r: Vec<(usize, usize)> = Vec::new();
    let mut i = start;
    assert(done + ws =~= ws);
    while i < end
        invariant
            start <= i <= end <= v.len(),
            ws == words(v@.subrange(start as int, end as int)),
            ws == done + words(v@.subrange(i as int, end as int)),
            r@.len() == done.len(),
            forall|k: int|
                0 <= k < r@.len() ==> {
                    &&& start <= (#[trigger] r@[k]).0 <= r@[k].1 <= end
                    &&& v@.subrange(r@[k].0 as int, r@[k].1 as int) == done[k]
                },
        ensures
            i == end,
            ws == done + words(v@.subrange(i as int, end as int)),
            r@.len() == done.len(),
            forall|k: int|
                0 <= k < r@.len() ==> {
                    &&& start <= (#[trigger] r@[k]).0 <= r@[k].1 <= end
                    &&& v@.subrange(r@[k].0 as int, r@[k].1 as int) == done[k]
                },
        decreases end - i,
    {
        let a = skip_ws_from(v, i, end);
        let ghost s = v@.subrange(i as int, end as int);
        proof {
            lemma_lead_ws_bound(s);
        }
        if a == end {
            assert(words(s) =~= Seq::<Seq<char>>::empty());
            assert(ws =~= done);
            i = end;
            assert(v@.subrange(i as int, end as int) =~= Seq::<char>::empty());
            assert(words(v@.subrange(i as int, end as int)) =~= Seq::<Seq<char>>::empty());
            break;
        }
        let mut b = a;
        while b < end && !char_is_ws(v[b])
            invariant
                a <= b <= end <= v.len(),
                forall|j: int| a <= j < b ==> !is_ws(#[trigger] v@[j]),
            decreases end - b,
        {
            b = b + 1;
        }
        proof {
            let t = s.skip(lead_ws(s) as int);
            assert(t =~= v@.subrange(a as int, end as int));
            assert forall|j: int| 0 <= j < b - a implies !is_ws(#[trigger] t[j]) by {
                assert(t[j] == v@[a + j]);
            }
            if b < end {
                assert(t[b - a] == v@[b as int]);
            }
            lemma_lead_word(t, b - a);
            assert(t.take(b - a) =~= v@.subrange(a as int, b as int));
            assert(t.skip(b - a) =~= v@.subrange(b as int, end as int));
            done = done.push(v@.subrange(a as int, b as int));
            assert(ws =~= done + words(v@.subrange(b as int, end as int)));
        }
        r.push((a, b));
        i = b;
    }
    proof {
        assert(v@.subrange(end as int, end as int) =~= Seq::<char>::empty());
        assert(words(v@.subrange(end as int, end as int)) =~= Seq::<Seq<char>>::empty());
        assert(ws =~= done);
    }
    r
}

/// Index of the first non-whitespace character of `v[start..end]`.
pub fn skip_ws_from(v: &Vec<char>, start: usize, end: usize) -> (r: usize)
    requires
        start <= end <= v.len(),
    ensures
        start <= r <= end,
        r - start == lead_ws(v@.subrange(start as int, end as int)),
{
    let mut i = start;
    while i < end && char_is_ws(v[i])
        invariant
            start <= i <= end <= v.len(),
            forall|j: int| start <= j < i ==> is_ws(#[trigger] v@[j]),
        decreases end - i,
    {
        i = i + 1;
    }
    proof {
        let s = v@.subrange(start as int, end as int);
        assert forall|j: int| 0 <= j < i - start implies is_ws(#[trigger] s[j]) by {
            assert(s[j] == v@[start + j]);
        }
        if i < end {
            assert(s[i - start] == v@[i as int]);
        }
        lemma_lead_ws(s, i - start);
    }
    i
}

/// End index (exclusive) of `v[start..end]` once its trailing whitespace is dropped.
pub fn trim_end_from(v: &Vec<char>, start: usize, end: usize) -> (r: usize)
    requires
        start <= end <= v.len(),
    ensures
        start <= r <= end,
        end - r == trail_ws(v@.subrange(start as int, end as int)),
{
    let mut i = end;
    while i > start && char_is_ws(v[i - 1])
        invariant
            start <= i <= end <= v.len(),
            forall|j: int| i <= j < end ==> is_ws(#[trigger] v@[j]),
        decreases i - start,
    {
        i = i - 1;
    }
    proof {
        let s = v@.subrange(start as int, end as int);
        assert forall|j: int| s.len() - (end - i) <= j < s.len() implies is_ws(#[trigger] s[j]) by {
            assert(s[j] == v@[start + j]);
        }
        if i > start {
            assert(s[s.len() - (end - i) - 1] == v@[i - 1]);
        }
        lemma_trail_ws(s, (end - i) as int);
    }
    i
}

/// Bounds `(a, b)` such that `v[a..b]` is `trim(v[start..end])`.
pub fn trim_bounds(v: &Vec<char>, start: usize, end: usize) -> (r: (usize, usize))
    requires
        start <= end <= v.len(),
    ensures
        start <= r.0 <= r.1 <= end,
        v@.subrange(r.0 as int, r.1 as int) == trim(v@.subrange(start as int, end as int)),
{
    let a = skip_ws_from(v, start, end);
    let b = trim_end_from(v, a, end);
    proof {
        let s = v@.subrange(start as int, end as int);
        assert(trim_start(s) =~= v@.subrange(a as int, end as int));
        assert(v@.subrange(a as int, b as int) =~= trim_end(v@.subrange(a as int, end as int)));
    }
    (a, b)
}

/// The characters of `s`, in order.
pub fn chars_of(s: &str) -> (v: Vec<char>)
    ensures
        v@ == s@,
{
    let mut v: Vec<char> = Vec::new();
    for c in it: s.chars()
        invariant
            v@ == it.seq().take(it.index() as int),
            it.seq() == s@,
    {
        v.push(c);
    }
    assert(v@ =~= s@);
    v
}

/// `String::push`.
#[verifier::external_body]
pub(crate) fn push_char(s: &mut String, c: char)
    ensures
        final(s)@ == old(s)@.push(c),
{
    s.push(c);
}

/// `String::push_str`.
#[verifier::external_body]
pub(crate) fn push_str(s: &mut String, t: &str)
    ensures
        final(s)@ == old(s)@ + t@,
{
    s.push_str(t);
}

/// A `String` holding `v[start..end]`.
pub fn string_of_range(v: &Vec<char>, start: usize, end: usize) -> (s: String)
    requires
        start <= end <= v.len(),
    ensures
        s@ == v@.subrange(start as int, end as int),
{
    let mut s = String::new();
    let mut i = start;
    while i < end
        invariant
            start <= i <= end <= v.len(),
            s@ == v@.subrange(start as int, i as int),
        decreases end - i,
    {
        push_char(&mut s, v[i]);
        i = i + 1;
        assert(s@ =~= v@.subrange(start as int, i as int));
    }
    s
}


/// Index of the first `c` in `s`, or `s.len()` when there is none.
pub open spec fn index_of_char(s: Seq<char>, c: char) -> nat
    decreases s.len(),
{
    if s.len() == 0 {
        0
    } else if s[0] == c {
        0
    } else {
        1 + index_of_char(s.drop_first(), c)
    }
}

pub proof fn lemma_index_of_char(s: Seq<char>, c: char, i: int)
    requires
        0 <= i <= s.len(),
        forall|j: int| 0 <= j < i ==> #[trigger] s[j] != c,
        i == s.len() || s[i] == c,
    ensures
        index_of_char(s, c) == i,
    decreases i,
{
    if i > 0 {
        let t = s.drop_first();
        assert forall|j: int| 0 <= j < i - 1 implies #[trigger] t[j] != c by {
            assert(t[j] == s[j + 1]);
        }
        if i < s.len() {
            assert(t[i - 1] == s[i]);
        }
        lemma_index_of_char(t, c, i - 1);
    }
}

pub proof fn lemma_index_of_char_bound(s: Seq<char>, c: char)
    ensures
        index_of_char(s, c) <= s.len(),
    decreases s.len(),
{
    if s.len() > 0 && s[0] != c {
        lemma_index_of_char_bound(s.drop_first(), c);
    }
}

pub proof fn lemma_index_of_char_props(s: Seq<char>, c: char)
    ensures
        index_of_char(s, c) <= s.len(),
        forall|j: int| 0 <= j < index_of_char(s, c) ==> #[trigger] s[j] != c,
        index_of_char(s, c) < s.len() ==> s[index_of_char(s, c) as int] == c,
    decreases s.len(),
{
    if s.len() > 0 && s[0] != c {
        let t = s.drop_first();
        lemma_index_of_char_props(t, c);
        assert forall|j: int| 0 <= j < index_of_char(s, c) implies #[trigger] s[j] != c by {
            if j > 0 {
                assert(s[j] == t[j - 1]);
            }
        }
        if index_of_char(s, c) < s.len() {
            assert(s[index_of_char(s, c) as int] == t[index_of_char(t, c) as int]);
        }
    }
}

/// A line without its final `'\r'`, as `str::lines` hands out a line that ended in `"\r\n"`.
pub open spec fn strip_cr(l: Seq<char>) -> Seq<char> {
    if l.len() > 0 && l.last() == '\r' {
        l.drop_last()
    } else {
        l
    }
}

/// `str::lines`: the pieces between `'\n'` characters, each without a final `'\r'`
/// when a `'\n'` closed it; a final `'\n'` opens no further line.
pub open spec fn lines(s: Seq<char>) -> Seq<Seq<char>>
    decreases s.len(),
{
    if s.len() == 0 {
        seq![]
    } else {
        let i = index_of_char(s, '\n');
        if i >= s.len() {
            seq![s]
        } else {
            seq![strip_cr(s.take(i as int))] + lines(s.skip(i as int + 1))
        }
    }
}

/// Lines of text that ends with a line break (or is empty) followed by more
/// text are the lines of each part.
pub proof fn lemma_lines_concat(x: Seq<char>, y: Seq<char>)
    requires
        x.len() == 0 || x.last() == '\n',
    ensures
        lines(x + y) == lines(x) + lines(y),
    decreases x.len(),
{
    if x.len() == 0 {
        assert(x + y =~= y);
        assert(lines(x) =~= Seq::<Seq<char>>::empty());
        assert(lines(x) + lines(y) =~= lines(y));
    } else {
        lemma_index_of_char_props(x, '\n');
        let i = index_of_char(x, '\n');
        let s = x + y;
        assert forall|j: int| 0 <= j < i implies #[trigger] s[j] != '\n' by {
            assert(s[j] == x[j]);
        }
        assert(s[i as int] == x[i as int]);
        lemma_index_of_char(s, '\n', i as int);
        assert(s.take(i as int) =~= x.take(i as int));
        assert(s.skip(i as int + 1) =~= x.skip(i as int + 1) + y);
        let x2 = x.skip(i as int + 1);
        if x2.len() > 0 {
            assert(x2.last() == x.last());
        }
        lemma_lines_concat(x2, y);
        assert(lines(s) =~= lines(x) + lines(y));
    }
}

/// A line without breaks and not ending in `'\r'`, followed by a break, is
/// one line.
pub proof fn lemma_lines_single(b: Seq<char>)
    requires
        forall|j: int| 0 <= j < b.len() ==> #[trigger] b[j] != '\n',
        b.len() == 0 || b.last() != '\r',
    ensures
        lines(b + seq!['\n']) == seq![b],
{
    let s = b + seq!['\n'];
    assert forall|j: int| 0 <= j < b.len() implies #[trigger] s[j] != '\n' by {
        assert(s[j] == b[j]);
    }
    lemma_index_of_char(s, '\n', b.len() as int);
    assert(s.take(b.len() as int) =~= b);
    assert(s.skip(b.len() as int + 1) =~= Seq::<char>::empty());
    assert(strip_cr(b) == b);
    assert(lines(Seq::<char>::empty()) =~= Seq::<Seq<char>>::empty());
    assert(lines(s) == seq![strip_cr(s.take(b.len() as int))] + lines(s.skip(b.len() as int + 1)));
    assert(lines(s) =~= seq![b]);
}

/// No line that `lines` gives holds a line break.
pub proof fn lemma_lines_no_break(s: Seq<char>)
    ensures
        forall|k: int, j: int| 0 <= k < lines(s).len() && 0 <= j < lines(s)[k].len() ==> #[trigger] lines(s)[k][j] != '\n',
    decreases s.len(),
{
    if s.len() > 0 {
        lemma_index_of_char_props(s, '\n');
        let i = index_of_char(s, '\n');
        if i < s.len() {
            let rest = s.skip(i as int + 1);
            lemma_lines_no_break(rest);
            let first = strip_cr(s.take(i as int));
            assert forall|k: int, j: int| 0 <= k < lines(s).len() && 0 <= j < lines(s)[k].len() implies #[trigger] lines(s)[k][j] != '\n' by {
                if k == 0 {
                    assert(lines(s)[0] == first);
                    assert(first[j] == s[j]);
                } else {
                    assert(lines(s)[k] == lines(rest)[k - 1]);
                }
            }
        }
    }
}

/// `trim` leaves text alone whose ends are not whitespace.
pub proof fn lemma_trim_fixed(s: Seq<char>)
    requires
        s.len() == 0 || (!is_ws(s[0]) && !is_ws(s.last())),
    ensures
        trim(s) == s,
{
    if s.len() > 0 {
        assert(lead_ws(s) == 0);
        assert(trim_start(s) =~= s);
        assert(trail_ws(s) == 0);
        assert(trim_end(s) =~= s);
    } else {
        assert(trim(s) =~= s);
    }
}

/// What `trim` keeps: a middle part of the text whose ends are not whitespace.
pub proof fn lemma_trim_props(s: Seq<char>)
    ensures
        trim(s).len() == 0 || (!is_ws(trim(s)[0]) && !is_ws(trim(s).last())),
        exists|a: int| 0 <= a && a + trim(s).len() <= s.len() && trim(s) == #[trigger] s.subrange(a, a + trim(s).len()),
        trim(s).len() > 0 ==> trim(s)[0] == s[lead_ws(s) as int],
{
    lemma_lead_ws_bound(s);
    let a = lead_ws(s) as int;
    let u = trim_start(s);
    assert(u =~= s.subrange(a, s.len() as int));
    let tb = trail_ws(u);
    lemma_trail_ws_bound(u);
    let t = trim(s);
    assert(t =~= s.subrange(a, a + (u.len() - tb)));
    if t.len() > 0 {
        assert(t[0] == u[0]);
        assert(t.last() == u[u.len() - tb - 1]);
    }
}

/// The ends of trimmed text are not whitespace.
pub proof fn lemma_trim_ends(s: Seq<char>)
    ensures
        trim(s).len() == 0 || (!is_ws(trim(s)[0]) && !is_ws(trim(s).last())),
        trim(s).len() > 0 ==> trim(s)[0] == s[lead_ws(s) as int],
{
    lemma_trim_props(s);
}

/// `trim` of trimmed text changes nothing.
pub proof fn lemma_trim_idempotent(s: Seq<char>)
    ensures
        trim(trim(s)) == trim(s),
{
    lemma_trim_props(s);
    lemma_trim_fixed(trim(s));
}

pub proof fn lemma_trail_ws_bound(s: Seq<char>)
    ensures
        trail_ws(s) <= s.len(),
        forall|j: int| s.len() - trail_ws(s) <= j < s.len() ==> is_ws(#[trigger] s[j]),
        trail_ws(s) == s.len() || !is_ws(s[s.len() - trail_ws(s) - 1]),
    decreases s.len(),
{
    if s.len() > 0 && is_ws(s.last()) {
        let t = s.drop_last();
        lemma_trail_ws_bound(t);
        assert forall|j: int| s.len() - trail_ws(s) <= j < s.len() implies is_ws(#[trigger] s[j]) by {
            if j < s.len() - 1 {
                assert(s[j] == t[j]);
            }
        }
        if trail_ws(s) < s.len() {
            assert(s[s.len() - trail_ws(s) - 1] == t[t.len() - trail_ws(t) - 1]);
        }
    }
}

/// `str::lines` on `v[start..]`, as a list of `(start, end)` bounds into `v`.
pub fn line_bounds(v: &Vec<char>) -> (r: Vec<(usize, usize)>)
    ensures
        r@.len() == lines(v@).len(),
        forall|k: int|
            0 <= k < r@.len() ==> {
                &&& (#[trigger] r@[k]).0 <= r@[k].1 <= v.len()
                &&& v@.subrange(r@[k].0 as int, r@[k].1 as int) == lines(v@)[k]
            },
{
    let mut r: Vec<(usize, usize)> = Vec::new();
    let mut start: usize = 0;
    let mut i: usize = 0;
    let ghost mut done: Seq<Seq<char>> = seq![];
    assert(v@.skip(0) =~= v@);
    assert(done + lines(v@) =~= lines(v@));
    while i < v.len()
        invariant
            start <= i <= v.len(),
            forall|j: int| start <= j < i ==> #[trigger] v@[j] != '\n',
            lines(v@) == done + lines(v@.skip(start as int)),
            r@.len() == done.len(),
            forall|k: int|
                0 <= k < r@.len() ==> {
                    &&& (#[trigger] r@[k]).0 <= r@[k].1 <= v.len()
                    &&& v@.subrange(r@[k].0 as int, r@[k].1 as int) == done[k]
                },
        decreases v.len() - i,
    {
        if v[i] == '\n' {
            let ghost rest = v@.skip(start as int);
            proof {
                assert forall|j: int| 0 <= j < i - start implies #[trigger] rest[j] != '\n' by {
                    assert(rest[j] == v@[start + j]);
                }
                assert(rest[i - start] == v@[i as int]);
                lemma_index_of_char(rest, '\n', i - start);
                assert(rest.skip(i - start + 1) =~= v@.skip(i + 1));
                assert(rest.take(i - start) =~= v@.subrange(start as int, i as int));
            }
            let e = if i > start && v[i - 1] == '\r' {
                i - 1
            } else {
                i
            };
            proof {
                let l = v@.subrange(start as int, i as int);
                if i > start && v@[i - 1] == '\r' {
                    assert(strip_cr(l) =~= v@.subrange(start as int, e as int));
                } else {
                    assert(strip_cr(l) =~= v@.subrange(start as int, e as int));
                }
                done = done.push(strip_cr(l));
                assert(lines(rest) == seq![strip_cr(l)] + lines(v@.skip(i + 1)));
                assert(lines(v@) =~= done + lines(v@.skip(i + 1)));
            }
            r.push((start, e));
            start = i + 1;
        }
        i = i + 1;
    }
    if start < v.len() {
        proof {
            let rest = v@.skip(start as int);
            assert forall|j: int| 0 <= j < rest.len() implies #[trigger] rest[j] != '\n' by {
                assert(rest[j] == v@[start + j]);
            }
            lemma_index_of_char(rest, '\n', rest.len() as int);
            assert(rest =~= v@.subrange(start as int, v.len() as int));
            done = done.push(rest);
            assert(lines(v@) =~= done);
        }
        r.push((start, v.len()));
    } else {
        proof {
            assert(v@.skip(start as int) =~= Seq::<char>::empty());
            assert(lines(v@) =~= done);
        }
    }
    r
}

/// `<str as PartialEq>::eq`.
#[verifier::external_body]
pub(crate) fn str_eq(a: &str, b: &str) -> (r: bool)
    ensures
        r == (a@ == b@),
{
    a == b
}

/// The characters of every piece of a path, in order.
pub open spec fn strs_view(p: Seq<&str>) -> Seq<Seq<char>> {
    p.map_values(|s: &str| s@)
}

/// Index (from `start`) of the first `c` in `v[start..end]`, or `end`.
pub fn find_char_in(v: &Vec<char>, start: usize, end: usize, c: char) -> (r: usize)
    requires
        start <= end <= v.len(),
    ensures
        start <= r <= end,
        r - start == index_of_char(v@.subrange(start as int, end as int), c),
{
    let mut j = start;
    while j < end && v[j] != c
        invariant
            start <= j <= end <= v.len(),
            forall|k: int| start <= k < j ==> #[trigger] v@[k] != c,
        decreases end - j,
    {
        j = j + 1;
    }
    proof {
        let s = v@.subrange(start as int, end as int);
        assert forall|k: int| 0 <= k < j - start implies #[trigger] s[k] != c by {
            assert(s[k] == v@[start + k]);
        }
        if j < end {
            assert(s[j - start] == v@[j as int]);
        }
        lemma_index_of_char(s, c, j - start);
    }
    j
}

/// Number of `c` characters that open `s`.
pub open spec fn lead_count(s: Seq<char>, c: char) -> nat
    decreases s.len(),
{
    if s.len() == 0 || s[0] != c {
        0
    } else {
        1 + lead_count(s.drop_first(), c)
    }
}

/// Number of `c` characters that close `s`.
pub open spec fn trail_count(s: Seq<char>, c: char) -> nat
    decreases s.len(),
{
    if s.len() == 0 || s.last() != c {
        0
    } else {
        1 + trail_count(s.drop_last(), c)
    }
}

/// `str::trim_matches(c)`: every leading and trailing `c` removed.
pub open spec fn trim_char(s: Seq<char>, c: char) -> Seq<char> {
    let t = s.skip(lead_count(s, c) as int);
    t.take(t.len() - trail_count(t, c))
}

pub proof fn lemma_lead_count(s: Seq<char>, c: char, i: int)
    requires
        0 <= i <= s.len(),
        forall|j: int| 0 <= j < i ==> #[trigger] s[j] == c,
        i == s.len() || s[i] != c,
    ensures
        lead_count(s, c) == i,
    decreases i,
{
    if i > 0 {
        let t = s.drop_first();
        assert forall|j: int| 0 <= j < i - 1 implies #[trigger] t[j] == c by {
            assert(t[j] == s[j + 1]);
        }
        if i < s.len() {
            assert(t[i - 1] == s[i]);
        }
        lemma_lead_count(t, c, i - 1);
    }
}

pub proof fn lemma_trail_count(s: Seq<char>, c: char, i: int)
    requires
        0 <= i <= s.len(),
        forall|j: int| s.len() - i <= j < s.len() ==> #[trigger] s[j] == c,
        i == s.len() || s[s.len() - i - 1] != c,
    ensures
        trail_count(s, c) == i,
    decreases i,
{
    if i > 0 {
        let t = s.drop_last();
        assert forall|j: int| t.len() - (i - 1) <= j < t.len() implies #[trigger] t[j] == c by {
            assert(t[j] == s[j]);
        }
        if i < s.len() {
            assert(t[t.len() - (i - 1) - 1] == s[s.len() - i - 1]);
        }
        lemma_trail_count(t, c, i - 1);
    }
}

/// Bounds `(a, b)` such that `v[a..b]` is `trim_char(v[start..end], c)`.
pub fn trim_char_bounds(v: &Vec<char>, start: usize, end: usize, c: char) -> (r: (usize, usize))
    requires
        start <= end <= v.len(),
    ensures
        start <= r.0 <= r.1 <= end,
        v@.subrange(r.0 as int, r.1 as int) == trim_char(v@.subrange(start as int, end as int), c),
{
    let mut a = start;
    while a < end && v[a] == c
        invariant
            start <= a <= end <= v.len(),
            forall|j: int| start <= j < a ==> #[trigger] v@[j] == c,
        decreases end - a,
    {
        a = a + 1;
    }
    let mut b = end;
    while b > a && v[b - 1] == c
        invariant
            start <= a <= b <= end <= v.len(),
            forall|j: int| b <= j < end ==> #[trigger] v@[j] == c,
        decreases b - a,
    {
        b = b - 1;
    }
    proof {
        let s = v@.subrange(start as int, end as int);
        assert forall|j: int| 0 <= j < a - start implies #[trigger] s[j] == c by {
            assert(s[j] == v@[start + j]);
        }
        if a < end {
            assert(s[a - start] == v@[a as int]);
        }
        lemma_lead_count(s, c, a - start);
        let t = s.skip(a - start);
        assert(t =~= v@.subrange(a as int, end as int));
        assert forall|j: int| t.len() - (end - b) <= j < t.len() implies #[trigger] t[j] == c by {
            assert(t[j] == v@[a + j]);
        }
        if b > a {
            assert(t[t.len() - (end - b) - 1] == v@[b - 1]);
        }
        lemma_trail_count(t, c, (end - b) as int);
        assert(t.take(t.len() - (end - b)) =~= v@.subrange(a as int, b as int));
    }
    (a, b)
}

/// Whether `v[start..end]` spells `w`.
pub fn range_eq(v: &Vec<char>, start: usize, end: usize, w: &str) -> (r: bool)
    requires
        start <= end <= v.len(),
    ensures
        r == (v@.subrange(start as int, end as int) == w@),
{
    let wv = chars_of(w);
    if end - start != wv.len() {
        return false;
    }
    let mut i: usize = 0;
    while i < wv.len()
        invariant
            i <= wv.len(),
            end - start == wv.len(),
            start <= end <= v.len(),
            wv@ == w@,
            forall|j: int| 0 <= j < i ==> v@[start + j] == #[trigger] wv@[j],
        decreases wv.len() - i,
    {
        if v[start + i] != wv[i] {
            proof {
                assert(v@.subrange(start as int, end as int)[i as int] != w@[i as int]);
            }
            return false;
        }
        i = i + 1;
    }
    assert(v@.subrange(start as int, end as int) =~= w@);
    true
}

/// Whether `v[start..end]` begins with `w`.
pub fn range_starts_with(v: &Vec<char>, start: usize, end: usize, w: &str) -> (r: bool)
    requires
        start <= end <= v.len(),
    ensures
        r == (w@.len() <= end - start && v@.subrange(start as int, start + w@.len()) == w@),
{
    let wv = chars_of(w);
    if end - start < wv.len() {
        return false;
    }
    range_eq(v, start, start + wv.len(), w)
}

pub open spec fn opt_view(o: Option<String>) -> Option<Seq<char>> {
    match o {
        Some(s) => Some(s@),
        None => None,
    }
}

/// Index of the first `c` in `s`, or `s.len()`.
pub open spec fn first_index<T>(s: Seq<T>, c: T) -> nat
    decreases s.len(),
{
    if s.len() == 0 {
        0
    } else if s[0] == c {
        0
    } else {
        1 + first_index(s.drop_first(), c)
    }
}

pub proof fn lemma_first_index<T>(s: Seq<T>, c: T, i: int)
    requires
        0 <= i <= s.len(),
        forall|j: int| 0 <= j < i ==> #[trigger] s[j] != c,
        i == s.len() || s[i] == c,
    ensures
        first_index(s, c) == i,
    decreases i,
{
    if i > 0 {
        let t = s.drop_first();
        assert forall|j: int| 0 <= j < i - 1 implies #[trigger] t[j] != c by {
            assert(t[j] == s[j + 1]);
        }
        if i < s.len() {
            assert(t[i - 1] == s[i]);
        }
        lemma_first_index(t, c, i - 1);
    }
}

pub proof fn lemma_first_index_bound<T>(s: Seq<T>, c: T)
    ensures
        first_index(s, c) <= s.len(),
    decreases s.len(),
{
    if s.len() > 0 && s[0] != c {
        lemma_first_index_bound(s.drop_first(), c);
    }
}

/// `split(c)`: the pieces between the `c`s, always at least one.
pub open spec fn split_on<T>(s: Seq<T>, c: T) -> Seq<Seq<T>>
    decreases s.len(),
{
    let i = first_index(s, c);
    if i >= s.len() {
        seq![s]
    } else {
        proof {
            lemma_first_index_bound(s, c);
        }
        seq![s.take(i as int)] + split_on(s.skip(i as int + 1), c)
    }
}

/// `(start, end)` bounds of the pieces of `v` between `c`s.
pub fn split_bounds_u8(v: &[u8], c: u8) -> (r: Vec<(usize, usize)>)
    ensures
        r@.len() == split_on(v@, c).len(),
        forall|k: int|
            0 <= k < r@.len() ==> {
                &&& (#[trigger] r@[k]).0 <= r@[k].1 <= v@.len()
                &&& v@.subrange(r@[k].0 as int, r@[k].1 as int) == split_on(v@, c)[k]
            },
{
    let mut r: Vec<(usize, usize)> = Vec::new();
    let mut start: usize = 0;
    let mut i: usize = 0;
    let ghost mut done: Seq<Seq<u8>> = seq![];
    assert(v@.skip(0) =~= v@);
    assert(done + split_on(v@, c) =~= split_on(v@, c));
    while i < v.len()
        invariant
            start <= i <= v@.len(),
            forall|j: int| start <= j < i ==> #[trigger] v@[j] != c,
            split_on(v@, c) == done + split_on(v@.skip(start as int), c),
            r@.len() == done.len(),
            forall|k: int|
                0 <= k < r@.len() ==> {
                    &&& (#[trigger] r@[k]).0 <= r@[k].1 <= v@.len()
                    &&& v@.subrange(r@[k].0 as int, r@[k].1 as int) == done[k]
                },
        decreases v@.len() - i,
    {
        if v[i] == c {
            let ghost rest = v@.skip(start as int);
            proof {
                assert forall|j: int| 0 <= j < i - start implies #[trigger] rest[j] != c by {
                    assert(rest[j] == v@[start + j]);
                }
                assert(rest[i - start] == v@[i as int]);
                lemma_first_index(rest, c, i - start);
                assert(rest.skip(i - start + 1) =~= v@.skip(i + 1));
                assert(rest.take(i - start) =~= v@.subrange(start as int, i as int));
                done = done.push(v@.subrange(start as int, i as int));
                assert(split_on(v@, c) =~= done + split_on(v@.skip(i + 1), c));
            }
            r.push((start, i));
            start = i + 1;
        } else {
            proof {
                assert(v@[i as int] != c);
            }
        }
        i = i + 1;
    }
    proof {
        let rest = v@.skip(start as int);
        assert forall|j: int| 0 <= j < rest.len() implies #[trigger] rest[j] != c by {
            assert(rest[j] == v@[start + j]);
        }
        lemma_first_index(rest, c, rest.len() as int);
        assert(rest =~= v@.subrange(start as int, v@.len() as int));
        done = done.push(rest);
        assert(split_on(v@, c) =~= done);
    }
    r.push((start, v.len()));
    r
}

/// `(start, end)` bounds of the pieces of `v` between `c`s.
pub fn split_bounds_char(v: &[char], c: char) -> (r: Vec<(usize, usize)>)
    ensures
        r@.len() == split_on(v@, c).len(),
        forall|k: int|
            0 <= k < r@.len() ==> {
                &&& (#[trigger] r@[k]).0 <= r@[k].1 <= v@.len()
                &&& v@.subrange(r@[k].0 as int, r@[k].1 as int) == split_on(v@, c)[k]
            },
{
    let mut r: Vec<(usize, usize)> = Vec::new();
    let mut start: usize = 0;
    let mut i: usize = 0;
    let ghost mut done: Seq<Seq<char>> = seq![];
    assert(v@.skip(0) =~= v@);
    assert(done + split_on(v@, c) =~= split_on(v@, c));
    while i < v.len()
        invariant
            start <= i <= v@.len(),
            forall|j: int| start <= j < i ==> #[trigger] v@[j] != c,
            split_on(v@, c) == done + split_on(v@.skip(start as int), c),
            r@.len() == done.len(),
            forall|k: int|
                0 <= k < r@.len() ==> {
                    &&& (#[trigger] r@[k]).0 <= r@[k].1 <= v@.len()
                    &&& v@.subrange(r@[k].0 as int, r@[k].1 as int) == done[k]
                },
        decreases v@.len() - i,
    {
        if v[i] == c {
            let ghost rest = v@.skip(start as int);
            proof {
                assert forall|j: int| 0 <= j < i - start implies #[trigger] rest[j] != c by {
                    assert(rest[j] == v@[start + j]);
                }
                assert(rest[i - start] == v@[i as int]);
                lemma_first_index(rest, c, i - start);
                assert(rest.skip(i - start + 1) =~= v@.skip(i + 1));
                assert(rest.take(i - start) =~= v@.subrange(start as int, i as int));
                done = done.push(v@.subrange(start as int, i as int));
                assert(split_on(v@, c) =~= done + split_on(v@.skip(i + 1), c));
            }
            r.push((start, i));
            start = i + 1;
        } else {
            proof {
                assert(v@[i as int] != c);
            }
        }
        i = i + 1;
    }
    proof {
        let rest = v@.skip(start as int);
        assert forall|j: int| 0 <= j < rest.len() implies #[trigger] rest[j] != c by {
            assert(rest[j] == v@[start + j]);
        }
        lemma_first_index(rest, c, rest.len() as int);
        assert(rest =~= v@.subrange(start as int, v@.len() as int));
        done = done.push(rest);
        assert(split_on(v@, c) =~= done);
    }
    r.push((start, v.len()));
    r
}

pub open spec fn digit_value(c: char) -> nat {
    (c as u32 - '0' as u32) as nat
}

/// The number a run of decimal digits spells.
pub open spec fn digits_value(s: Seq<char>) -> nat
    decreases s.len(),
{
    if s.len() == 0 {
        0
    } else {
        digits_value(s.drop_last()) * 10 + digit_value(s.last())
    }
}

pub open spec fn all_digits(s: Seq<char>) -> bool {
    forall|i: int| 0 <= i < s.len() ==> is_digit(#[trigger] s[i])
}

pub open spec fn dec_digit(n: nat) -> char {
    (('0' as u32) + n) as char
}

/// Decimal spelling of `n`, as `to_string` writes it.
pub open spec fn nat_to_dec(n: nat) -> Seq<char>
    decreases n,
{
    if n < 10 {
        seq![dec_digit(n)]
    } else {
        nat_to_dec(n / 10).push(dec_digit(n % 10))
    }
}

/// Every character of a decimal spelling is a digit.
pub proof fn lemma_nat_to_dec_digits(n: nat)
    ensures
        nat_to_dec(n).len() >= 1,
        forall|i: int| 0 <= i < nat_to_dec(n).len() ==> is_digit(#[trigger] nat_to_dec(n)[i]),
    decreases n,
{
    if n >= 10 {
        lemma_nat_to_dec_digits(n / 10);
        let p = nat_to_dec(n / 10);
        assert forall|i: int| 0 <= i < nat_to_dec(n).len() implies is_digit(#[trigger] nat_to_dec(n)[i]) by {
            if i < p.len() {
                assert(nat_to_dec(n)[i] == p[i]);
            }
        }
    }
}

/// `u64::to_string`.
pub fn u64_to_string(n: u64) -> (r: String)
    ensures
        r@ == nat_to_dec(n as nat),
    decreases n,
{
    let c = char_of_digit((n % 10) as u32);
    if n < 10 {
        let mut out = String::new();
        push_char(&mut out, c);
        out
    } else {
        let mut out = u64_to_string(n / 10);
        push_char(&mut out, c);
        out
    }
}

pub(crate) fn char_of_digit(d: u32) -> (c: char)
    requires
        d < 10,
    ensures
        c == dec_digit(d as nat),
{
    if d == 0 { '0' } else if d == 1 { '1' } else if d == 2 { '2' } else if d == 3 { '3' } else if d == 4 { '4' }
    else if d == 5 { '5' } else if d == 6 { '6' } else if d == 7 { '7' } else if d == 8 { '8' } else { '9' }
}

/// The pieces of `text` that `str::lines` gives.
pub fn lines_of(text: &str) -> (r: Vec<String>)
    ensures
        r@.map_values(|s: String| s@) == lines(text@),
{
    let v = chars_of(text);
    let b = line_bounds(&v);
    let mut out: Vec<String> = Vec::new();
    let mut k: usize = 0;
    while k < b.len()
        invariant
            k <= b@.len(),
            v@ == text@,
            b@.len() == lines(v@).len(),
            forall|j: int|
                0 <= j < b@.len() ==> {
                    &&& (#[trigger] b@[j]).0 <= b@[j].1 <= v.len()
                    &&& v@.subrange(b@[j].0 as int, b@[j].1 as int) == lines(v@)[j]
                },
            out@.map_values(|s: String| s@) == lines(v@).take(k as int),
        decreases b@.len() - k,
    {
        let (x, y) = b[k];
        assert(b@[k as int] == (x, y));
        let piece = string_of_range(&v, x, y);
        assert(piece@ == lines(v@)[k as int]);
        let ghost before = out@;
        out.push(piece);
        assert(out@ == before.push(piece));
        assert(out@.map_values(|s: String| s@) =~= before.map_values(|s: String| s@).push(piece@));
        k = k + 1;
        assert(out@.map_values(|s: String| s@) =~= lines(v@).take(k as int));
    }
    assert(lines(v@).take(k as int) =~= lines(v@));
    out
}

/// Whether `p` occurs in `s` at `i`.
pub open spec fn occurs_at(s: Seq<char>, p: Seq<char>, i: int) -> bool {
    0 <= i && i + p.len() <= s.len() && s.subrange(i, i + p.len()) == p
}

/// Position of the first occurrence of `p` in `s` at or after `i`, or `-1`
/// (`str::find` on `s[i..]`, counted in characters).
pub open spec fn find_from(s: Seq<char>, p: Seq<char>, i: int) -> int
    decreases s.len() + 1 - i,
{
    if i < 0 || i + p.len() > s.len() {
        -1
    } else if occurs_at(s, p, i) {
        i
    } else {
        find_from(s, p, i + 1)
    }
}

/// Whether `p` occurs in `s` (`str::contains`).
pub open spec fn contains_seq(s: Seq<char>, p: Seq<char>) -> bool {
    find_from(s, p, 0) >= 0
}

pub proof fn lemma_find_from(s: Seq<char>, p: Seq<char>, i: int)
    requires
        0 <= i,
    ensures
        find_from(s, p, i) == -1 || (i <= find_from(s, p, i) && occurs_at(s, p, find_from(s, p, i))),
        forall|j: int| i <= j && (find_from(s, p, i) == -1 || j < find_from(s, p, i)) ==> !#[trigger] occurs_at(s, p, j),
    decreases s.len() + 1 - i,
{
    if i + p.len() <= s.len() && !occurs_at(s, p, i) {
        lemma_find_from(s, p, i + 1);
        assert forall|j: int| i <= j && (find_from(s, p, i) == -1 || j < find_from(s, p, i)) implies !#[trigger] occurs_at(s, p, j) by {
            if j > i {
            }
        }
    }
}

pub proof fn lemma_find_from_is(s: Seq<char>, p: Seq<char>, i: int, k: int)
    requires
        0 <= i <= k,
        forall|j: int| i <= j < k ==> !#[trigger] occurs_at(s, p, j),
        occurs_at(s, p, k) || k + p.len() > s.len(),
    ensures
        find_from(s, p, i) == (if occurs_at(s, p, k) { k } else { -1 }),
    decreases k - i,
{
    if i < k {
        assert(!occurs_at(s, p, i));
        lemma_find_from_is(s, p, i + 1, k);
    }
}

/// Whether `w` occurs in `v` at `i`.
pub fn occurs_at_exec(v: &Vec<char>, w: &Vec<char>, i: usize) -> (r: bool)
    ensures
        r == occurs_at(v@, w@, i as int),
{
    if i > v.len() || w.len() > v.len() - i {
        return false;
    }
    let mut k: usize = 0;
    while k < w.len()
        invariant
            i + w@.len() <= v@.len(),
            v@.len() == v.len(),
            w@.len() == w.len(),
            k <= w@.len(),
            forall|j: int| 0 <= j < k ==> v@[i + j] == w@[j],
        decreases w@.len() - k,
    {
        if v[i + k] != w[k] {
            assert(v@.subrange(i as int, i + w@.len())[k as int] == v@[i + k]);
            return false;
        }
        k = k + 1;
    }
    assert(v@.subrange(i as int, i + w@.len()) =~= w@);
    true
}

/// `find_from` on vectors of characters.
pub fn find_seq_from(v: &Vec<char>, w: &Vec<char>, from: usize) -> (r: Option<usize>)
    ensures
        match r {
            Some(i) => find_from(v@, w@, from as int) == i,
            None => find_from(v@, w@, from as int) == -1,
        },
{
    if w.len() == 0 {
        if from <= v.len() {
            assert(v@.subrange(from as int, from as int) =~= w@);
            proof {
                lemma_find_from_is(v@, w@, from as int, from as int);
            }
            return Some(from);
        }
        return None;
    }
    let mut i = from;
    while i <= v.len() && w.len() <= v.len() - i
        invariant
            from <= i,
            w@.len() >= 1,
            forall|j: int| from <= j < i ==> !#[trigger] occurs_at(v@, w@, j),
        decreases v@.len() + 1 - i,
    {
        if occurs_at_exec(v, w, i) {
            proof {
                lemma_find_from_is(v@, w@, from as int, i as int);
            }
            return Some(i);
        }
        i = i + 1;
    }
    proof {
        lemma_find_from_is(v@, w@, from as int, i as int);
    }
    None
}

/// Decimal spelling of a signed integer, with a leading `-` when negative.
pub open spec fn int_to_dec(n: int) -> Seq<char> {
    if n < 0 {
        seq!['-'] + nat_to_dec((-n) as nat)
    } else {
        nat_to_dec(n as nat)
    }
}

/// `i64::to_string`.
pub fn i64_to_string(n: i64) -> (r: String)
    ensures
        r@ == int_to_dec(n as int),
{
    if n < 0 {
        let mag: u64 = if n == i64::MIN {
            9223372036854775808u64
        } else {
            (-n) as u64
        };
        let digits = u64_to_string(mag);
        let mut out = String::new();
        push_char(&mut out, '-');
        push_str(&mut out, digits.as_str());
        assert(out@ =~= seq!['-'] + nat_to_dec((-n) as nat));
        out
    } else {
        u64_to_string(n as u64)
    }
}

} // verus!
