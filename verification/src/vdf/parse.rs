//! Reading VDF text into a [`VdfValue`] tree.
//!
//! The grammar is the lenient one Steam's files need: quoted or bare keys,
//! quoted or bare values, nested objects between braces, `//` comments, and
//! the escapes `\n`, `\t`, `\r`, `\"`, `\\` inside quoted strings (any other
//! escaped character stands for itself). A later entry with a key already
//! present replaces that entry's value in place.

use crate::text::{char_is_alphabetic, char_is_numeric, unicode_alphabetic, unicode_numeric, 
    char_is_control, char_is_ws, chars_of, index_of_char, is_control, is_ws, lead_ws,
    lemma_index_of_char, lemma_index_of_char_bound, lemma_lead_ws, lemma_lead_ws_bound,
    char_of_digit, push_char, push_str, skip_ws_from,
};
use crate::vdf::crud::entries_insert;
use crate::vdf::value::{vdf_map_entries, Vdf, VdfMap, VdfValue};
use vstd::prelude::*;

verus! {

broadcast use vstd::string::group_string_axioms;

/// What stopped the parser.
#[derive(Debug, Clone, Copy, PartialEq, Eq)]
pub enum VdfSyntaxError {
    ExpectedOpeningQuote,
    UnterminatedString,
    ExpectedUnquotedString,
    UnexpectedCharacter(char),
}

pub open spec fn skip_ws(s: Seq<char>) -> Seq<char> {
    s.skip(lead_ws(s) as int)
}

/// The rest of a line, its `'\n'` kept.
pub open spec fn skip_line(s: Seq<char>) -> Seq<char> {
    s.skip(index_of_char(s, '\n') as int)
}

pub open spec fn starts_comment(s: Seq<char>) -> bool {
    s.len() >= 2 && s[0] == '/' && s[1] == '/'
}

/// Whitespace and `//` comments skipped.
pub open spec fn skip_wsc(s: Seq<char>) -> Seq<char>
    decreases s.len(),
{
    let t = skip_ws(s);
    if starts_comment(t) {
        proof {
            lemma_lead_ws_bound(s);
            lemma_index_of_char_bound(t.skip(2), '\n');
        }
        skip_wsc(skip_line(t.skip(2)))
    } else {
        t
    }
}

/// One character taken (a `'/'`), and with a second `'/'` the rest of the line.
pub open spec fn skip_comment(s: Seq<char>) -> Seq<char> {
    let t = s.drop_first();
    if s.len() > 0 && s[0] == '/' && t.len() > 0 && t[0] == '/' {
        skip_line(t.drop_first())
    } else {
        t
    }
}

pub open spec fn unescape(c: char) -> char {
    if c == 'n' {
        '\n'
    } else if c == 't' {
        '\t'
    } else if c == 'r' {
        '\r'
    } else {
        c
    }
}

/// The body of a quoted string up to its closing quote, and what follows it.
pub open spec fn str_body(s: Seq<char>) -> Result<(Seq<char>, Seq<char>), VdfSyntaxError>
    decreases s.len(),
{
    if s.len() == 0 {
        Err(VdfSyntaxError::UnterminatedString)
    } else if s[0] == '\\' {
        if s.len() < 2 {
            Err(VdfSyntaxError::UnterminatedString)
        } else {
            match str_body(s.skip(2)) {
                Ok((b, r)) => Ok((seq![unescape(s[1])] + b, r)),
                Err(e) => Err(e),
            }
        }
    } else if s[0] == '"' {
        Ok((seq![], s.drop_first()))
    } else {
        match str_body(s.drop_first()) {
            Ok((b, r)) => Ok((seq![s[0]] + b, r)),
            Err(e) => Err(e),
        }
    }
}

/// A quoted string after optional whitespace.
pub open spec fn quoted_string(s: Seq<char>) -> Result<(Seq<char>, Seq<char>), VdfSyntaxError> {
    let t = skip_ws(s);
    if t.len() > 0 && t[0] == '"' {
        str_body(t.drop_first())
    } else {
        Err(VdfSyntaxError::ExpectedOpeningQuote)
    }
}

pub open spec fn ends_unquoted(c: char) -> bool {
    is_ws(c) || c == '{' || c == '}'
}

pub open spec fn unquoted_len(s: Seq<char>) -> nat
    decreases s.len(),
{
    if s.len() == 0 || ends_unquoted(s[0]) {
        0
    } else {
        1 + unquoted_len(s.drop_first())
    }
}

/// A bare word: the characters up to whitespace or a brace, at least one.
pub open spec fn unquoted(s: Seq<char>) -> Result<(Seq<char>, Seq<char>), VdfSyntaxError> {
    let n = unquoted_len(s);
    if n == 0 {
        Err(VdfSyntaxError::ExpectedUnquotedString)
    } else {
        Ok((s.take(n as int), s.skip(n as int)))
    }
}

pub open spec fn starts_bare_key(c: char) -> bool {
    unicode_alphabetic(c) || unicode_numeric(c) || c == '_'
}

pub open spec fn is_suffix(r: Seq<char>, s: Seq<char>) -> bool {
    r.len() <= s.len() && r == s.skip(s.len() - r.len())
}

pub proof fn lemma_suffix_trans(a: Seq<char>, b: Seq<char>, c: Seq<char>)
    requires
        is_suffix(a, b),
        is_suffix(b, c),
    ensures
        is_suffix(a, c),
{
    assert(a =~= c.skip(c.len() - a.len()));
}

pub proof fn lemma_skip_wsc_suffix(s: Seq<char>)
    ensures
        is_suffix(skip_wsc(s), s),
    decreases s.len(),
{
    lemma_lead_ws_bound(s);
    let t = skip_ws(s);
    if starts_comment(t) {
        lemma_index_of_char_bound(t.skip(2), '\n');
        let u = skip_line(t.skip(2));
        lemma_skip_wsc_suffix(u);
        lemma_suffix_trans(u, t.skip(2), t);
        lemma_suffix_trans(u, t, s);
        lemma_suffix_trans(skip_wsc(u), u, s);
    }
}

pub proof fn lemma_skip_comment_suffix(s: Seq<char>)
    requires
        s.len() > 0,
    ensures
        is_suffix(skip_comment(s), s),
        skip_comment(s).len() < s.len(),
{
    let t = s.drop_first();
    if s[0] == '/' && t.len() > 0 && t[0] == '/' {
        lemma_index_of_char_bound(t.drop_first(), '\n');
        lemma_suffix_trans(skip_line(t.drop_first()), t.drop_first(), t);
        lemma_suffix_trans(skip_line(t.drop_first()), t, s);
    }
}

pub proof fn lemma_str_body_suffix(s: Seq<char>)
    ensures
        str_body(s) matches Ok((_, r)) ==> is_suffix(r, s) && r.len() < s.len(),
    decreases s.len(),
{
    if s.len() > 0 {
        if s[0] == '\\' {
            if s.len() >= 2 {
                lemma_str_body_suffix(s.skip(2));
                if let Ok((_, r)) = str_body(s.skip(2)) {
                    lemma_suffix_trans(r, s.skip(2), s);
                }
            }
        } else if s[0] != '"' {
            lemma_str_body_suffix(s.drop_first());
            if let Ok((_, r)) = str_body(s.drop_first()) {
                lemma_suffix_trans(r, s.drop_first(), s);
            }
        }
    }
}

pub proof fn lemma_quoted_string_suffix(s: Seq<char>)
    ensures
        quoted_string(s) matches Ok((_, r)) ==> is_suffix(r, s) && r.len() < s.len(),
{
    lemma_lead_ws_bound(s);
    let t = skip_ws(s);
    if t.len() > 0 && t[0] == '"' {
        lemma_str_body_suffix(t.drop_first());
        if let Ok((_, r)) = str_body(t.drop_first()) {
            lemma_suffix_trans(r, t.drop_first(), t);
            lemma_suffix_trans(r, t, s);
        }
    }
}

pub proof fn lemma_unquoted_len_bound(s: Seq<char>)
    ensures
        unquoted_len(s) <= s.len(),
    decreases s.len(),
{
    if s.len() > 0 && !ends_unquoted(s[0]) {
        lemma_unquoted_len_bound(s.drop_first());
    }
}

pub proof fn lemma_unquoted_suffix(s: Seq<char>)
    ensures
        unquoted(s) matches Ok((_, r)) ==> is_suffix(r, s) && r.len() < s.len(),
{
    lemma_unquoted_len_bound(s);
}

/// The value that follows a key: an object between braces, a quoted string
/// (after a quoted key only), or a bare word.
pub open spec fn value_after_key(s: Seq<char>, quoted_key: bool) -> Result<(Vdf, Seq<char>), VdfSyntaxError>
    decreases s.len(), 2int,
{
    if s.len() > 0 && s[0] == '{' {
        match object(s.drop_first()) {
            Ok((es, r)) => Ok((Vdf::Obj(es), r)),
            Err(e) => Err(e),
        }
    } else if quoted_key && s.len() > 0 && s[0] == '"' {
        match quoted_string(s) {
            Ok((v, r)) => Ok((Vdf::Str(v), r)),
            Err(e) => Err(e),
        }
    } else {
        match unquoted(s) {
            Ok((v, r)) => Ok((Vdf::Str(v), r)),
            Err(e) => Err(e),
        }
    }
}

/// The entries of an object from `s` (whitespace and comments already
/// skipped) up to its closing brace or the end of the text, added to `acc`.
pub open spec fn members(s: Seq<char>, acc: Seq<(Seq<char>, Vdf)>) -> Result<(Seq<(Seq<char>, Vdf)>, Seq<char>), VdfSyntaxError>
    decreases s.len(), 0int,
{
    if s.len() == 0 {
        Ok((acc, s))
    } else if s[0] == '}' {
        Ok((acc, s.drop_first()))
    } else if s[0] == '"' || (s[0] != '/' && starts_bare_key(s[0])) {
        let q = s[0] == '"';
        let key = if q {
            quoted_string(s)
        } else {
            unquoted(s)
        };
        match key {
            Ok((k, r1)) => {
                proof {
                    lemma_quoted_string_suffix(s);
                    lemma_unquoted_suffix(s);
                    lemma_skip_wsc_suffix(r1);
                }
                let r2 = skip_wsc(r1);
                match value_after_key(r2, q) {
                    Ok((v, r3)) => {
                        proof {
                            lemma_skip_wsc_suffix(r3);
                        }
                        // always true (`lemma_value_after_key_suffix`); it
                        // spells out for the termination check that text was used
                        if r3.len() < r2.len() {
                            members(skip_wsc(r3), entries_insert(acc, k, v))
                        } else {
                            Err(VdfSyntaxError::UnterminatedString)
                        }
                    },
                    Err(e) => Err(e),
                }
            },
            Err(e) => Err(e),
        }
    } else if s[0] == '/' {
        proof {
            lemma_skip_comment_suffix(s);
            lemma_skip_wsc_suffix(skip_comment(s));
        }
        members(skip_wsc(skip_comment(s)), acc)
    } else {
        Err(VdfSyntaxError::UnexpectedCharacter(s[0]))
    }
}

/// The entries of an object whose opening brace is already consumed, and
/// the text after its closing brace.
pub open spec fn object(s: Seq<char>) -> Result<(Seq<(Seq<char>, Vdf)>, Seq<char>), VdfSyntaxError>
    decreases s.len(), 1int,
{
    proof {
        lemma_skip_wsc_suffix(s);
    }
    members(skip_wsc(s), seq![])
}

pub proof fn lemma_value_after_key_suffix(s: Seq<char>, q: bool)
    ensures
        value_after_key(s, q) matches Ok((_, r)) ==> is_suffix(r, s) && r.len() < s.len(),
    decreases s.len(), 2int,
{
    if s.len() > 0 && s[0] == '{' {
        lemma_object_suffix(s.drop_first());
        if let Ok((_, r)) = object(s.drop_first()) {
            lemma_suffix_trans(r, s.drop_first(), s);
        }
    } else if q && s.len() > 0 && s[0] == '"' {
        lemma_quoted_string_suffix(s);
    } else {
        lemma_unquoted_suffix(s);
    }
}

pub proof fn lemma_members_suffix(s: Seq<char>, acc: Seq<(Seq<char>, Vdf)>)
    ensures
        members(s, acc) matches Ok((_, r)) ==> is_suffix(r, s),
    decreases s.len(), 0int,
{
    if s.len() == 0 {
        assert(s =~= s.skip(0));
    } else if s[0] == '}' {
        assert(s.drop_first() =~= s.skip(1));
    } else if s[0] == '"' || (s[0] != '/' && starts_bare_key(s[0])) {
        let q = s[0] == '"';
        let key = if q {
            quoted_string(s)
        } else {
            unquoted(s)
        };
        lemma_quoted_string_suffix(s);
        lemma_unquoted_suffix(s);
        if let Ok((k, r1)) = key {
            lemma_skip_wsc_suffix(r1);
            let r2 = skip_wsc(r1);
            lemma_value_after_key_suffix(r2, q);
            if let Ok((v, r3)) = value_after_key(r2, q) {
                lemma_skip_wsc_suffix(r3);
                lemma_members_suffix(skip_wsc(r3), entries_insert(acc, k, v));
                if let Ok((_, r)) = members(skip_wsc(r3), entries_insert(acc, k, v)) {
                    lemma_suffix_trans(r2, r1, s);
                    lemma_suffix_trans(r3, r2, s);
                    lemma_suffix_trans(skip_wsc(r3), r3, s);
                    lemma_suffix_trans(r, skip_wsc(r3), s);
                }
            }
        }
    } else if s[0] == '/' {
        lemma_skip_comment_suffix(s);
        lemma_skip_wsc_suffix(skip_comment(s));
        lemma_members_suffix(skip_wsc(skip_comment(s)), acc);
        if let Ok((_, r)) = members(skip_wsc(skip_comment(s)), acc) {
            lemma_suffix_trans(skip_wsc(skip_comment(s)), skip_comment(s), s);
            lemma_suffix_trans(r, skip_wsc(skip_comment(s)), s);
        }
    }
}

pub proof fn lemma_object_suffix(s: Seq<char>)
    ensures
        object(s) matches Ok((_, r)) ==> is_suffix(r, s),
    decreases s.len(), 1int,
{
    lemma_skip_wsc_suffix(s);
    lemma_members_suffix(skip_wsc(s), seq![]);
    if let Ok((_, r)) = object(s) {
        lemma_suffix_trans(r, skip_wsc(s), s);
    }
}

/// What `parse_vdf_string` reads from a whole text: the entries of the
/// top-level object (text after a stray closing brace is ignored).
pub open spec fn parse(s: Seq<char>) -> Result<Vdf, VdfSyntaxError> {
    match object(s) {
        Ok((es, _)) => Ok(Vdf::Obj(es)),
        Err(e) => Err(e),
    }
}

fn skip_ws_at(v: &Vec<char>, i: usize) -> (r: usize)
    requires
        i <= v.len(),
    ensures
        i <= r <= v.len(),
        v@.skip(r as int) == skip_ws(v@.skip(i as int)),
{
    let r = skip_ws_from(v, i, v.len());
    assert(v@.subrange(i as int, v.len() as int) =~= v@.skip(i as int));
    assert(v@.skip(r as int) =~= v@.skip(i as int).skip(r - i));
    r
}

fn find_char_at(v: &Vec<char>, i: usize, c: char) -> (r: usize)
    requires
        i <= v.len(),
    ensures
        i <= r <= v.len(),
        v@.skip(r as int) == skip_line_from(v@.skip(i as int), c),
{
    let mut j = i;
    while j < v.len() && v[j] != c
        invariant
            i <= j <= v.len(),
            forall|k: int| i <= k < j ==> #[trigger] v@[k] != c,
        decreases v.len() - j,
    {
        j = j + 1;
    }
    proof {
        let s = v@.skip(i as int);
        assert forall|k: int| 0 <= k < j - i implies #[trigger] s[k] != c by {
            assert(s[k] == v@[i + k]);
        }
        if j < v.len() {
            assert(s[j - i] == v@[j as int]);
        }
        lemma_index_of_char(s, c, j - i);
        assert(v@.skip(j as int) =~= s.skip(j - i));
    }
    j
}

/// `s` from its first `c` on.
pub open spec fn skip_line_from(s: Seq<char>, c: char) -> Seq<char> {
    s.skip(index_of_char(s, c) as int)
}

fn skip_wsc_at(v: &Vec<char>, i: usize) -> (r: usize)
    requires
        i <= v.len(),
    ensures
        i <= r <= v.len(),
        v@.skip(r as int) == skip_wsc(v@.skip(i as int)),
{
    let mut j = i;
    loop
        invariant
            i <= j <= v.len(),
            skip_wsc(v@.skip(i as int)) == skip_wsc(v@.skip(j as int)),
        decreases v.len() - j,
    {
        let t = skip_ws_at(v, j);
        if v.len() - t >= 2 && v[t] == '/' && v[t + 1] == '/' {
            let u = find_char_at(v, t + 2, '\n');
            proof {
                let st = v@.skip(t as int);
                assert(st[0] == '/' && st[1] == '/');
                assert(st.skip(2) =~= v@.skip(t + 2));
            }
            j = u;
        } else {
            proof {
                let st = v@.skip(t as int);
                if st.len() >= 2 {
                    assert(st[0] == v@[t as int] && st[1] == v@[t + 1]);
                }
            }
            return t;
        }
    }
}

fn skip_comment_at(v: &Vec<char>, i: usize) -> (r: usize)
    requires
        i < v.len(),
    ensures
        i < r <= v.len(),
        v@.skip(r as int) == skip_comment(v@.skip(i as int)),
{
    let ghost s = v@.skip(i as int);
    proof {
        assert(s.drop_first() =~= v@.skip(i + 1));
        assert(s[0] == v@[i as int]);
    }
    if v[i] == '/' && i + 1 < v.len() && v[i + 1] == '/' {
        proof {
            assert(s.drop_first()[0] == v@[i + 1]);
            assert(s.drop_first().drop_first() =~= v@.skip(i + 2));
        }
        find_char_at(v, i + 2, '\n')
    } else {
        proof {
            if i + 1 < v.len() {
                assert(s.drop_first()[0] == v@[i + 1]);
            }
        }
        i + 1
    }
}

pub open spec fn prepend(acc: Seq<char>, r: Result<(Seq<char>, Seq<char>), VdfSyntaxError>) -> Result<(Seq<char>, Seq<char>), VdfSyntaxError> {
    match r {
        Ok((b, rest)) => Ok((acc + b, rest)),
        Err(e) => Err(e),
    }
}

fn parse_quoted(v: &Vec<char>, i: usize) -> (r: Result<(String, usize), VdfSyntaxError>)
    requires
        i <= v.len(),
    ensures
        match quoted_string(v@.skip(i as int)) {
            Ok((b, rest)) => r matches Ok((x, j)) && x@ == b && i < j <= v.len() && v@.skip(j as int) == rest,
            Err(e) => r == Err::<(String, usize), VdfSyntaxError>(e),
        },
{
    let t = skip_ws_at(v, i);
    if t >= v.len() || v[t] != '"' {
        proof {
            if t < v.len() {
                assert(v@.skip(t as int)[0] == v@[t as int]);
            }
        }
        return Err(VdfSyntaxError::ExpectedOpeningQuote);
    }
    let ghost body = v@.skip(t + 1);
    proof {
        assert(v@.skip(t as int)[0] == v@[t as int]);
        assert(v@.skip(t as int).drop_first() =~= body);
        assert(quoted_string(v@.skip(i as int)) == str_body(body));
        assert(str_body(body) == prepend(seq![], str_body(body))) by {
            match str_body(body) {
                Ok((b, rest)) => {
                    assert(Seq::<char>::empty() + b =~= b);
                },
                Err(_) => {},
            }
        }
    }
    let mut out = String::new();
    let mut j = t + 1;
    while j < v.len()
        invariant
            i <= t < j <= v.len(),
            body == v@.skip(t + 1),
            quoted_string(v@.skip(i as int)) == str_body(body),
            str_body(body) == prepend(out@, str_body(v@.skip(j as int))),
        decreases v.len() - j,
    {
        let ghost sj = v@.skip(j as int);
        proof {
            assert(sj[0] == v@[j as int]);
            assert(sj.drop_first() =~= v@.skip(j + 1));
        }
        let c = v[j];
        if c == '\\' {
            if j + 1 >= v.len() {
                proof {
                    assert(str_body(sj) == Err::<(Seq<char>, Seq<char>), VdfSyntaxError>(VdfSyntaxError::UnterminatedString));
                }
                return Err(VdfSyntaxError::UnterminatedString);
            }
            let d = v[j + 1];
            let e = if d == 'n' {
                '\n'
            } else if d == 't' {
                '\t'
            } else if d == 'r' {
                '\r'
            } else {
                d
            };
            proof {
                assert(sj[1] == d);
                assert(sj.skip(2) =~= v@.skip(j + 2));
                match str_body(v@.skip(j + 2)) {
                    Ok((b, rest)) => {
                        assert(out@.push(e) + b =~= out@ + (seq![e] + b));
                    },
                    Err(_) => {},
                }
            }
            push_char(&mut out, e);
            j = j + 2;
        } else if c == '"' {
            proof {
                assert(out@ + Seq::<char>::empty() =~= out@);
                assert(str_body(sj) == Ok::<(Seq<char>, Seq<char>), VdfSyntaxError>((seq![], sj.drop_first())));
            }
            return Ok((out, j + 1));
        } else {
            proof {
                match str_body(v@.skip(j + 1)) {
                    Ok((b, rest)) => {
                        assert(out@.push(c) + b =~= out@ + (seq![c] + b));
                    },
                    Err(_) => {},
                }
            }
            push_char(&mut out, c);
            j = j + 1;
        }
    }
    proof {
        assert(v@.skip(j as int).len() == 0);
    }
    Err(VdfSyntaxError::UnterminatedString)
}

pub proof fn lemma_unquoted_len(s: Seq<char>, n: int)
    requires
        0 <= n <= s.len(),
        forall|k: int| 0 <= k < n ==> !ends_unquoted(#[trigger] s[k]),
        n == s.len() || ends_unquoted(s[n]),
    ensures
        unquoted_len(s) == n,
    decreases n,
{
    if n > 0 {
        let t = s.drop_first();
        assert forall|k: int| 0 <= k < n - 1 implies !ends_unquoted(#[trigger] t[k]) by {
            assert(t[k] == s[k + 1]);
        }
        if n < s.len() {
            assert(t[n - 1] == s[n]);
        }
        lemma_unquoted_len(t, n - 1);
    }
}

fn parse_unquoted(v: &Vec<char>, i: usize) -> (r: Result<(String, usize), VdfSyntaxError>)
    requires
        i <= v.len(),
    ensures
        match unquoted(v@.skip(i as int)) {
            Ok((b, rest)) => r matches Ok((x, j)) && x@ == b && i < j <= v.len() && v@.skip(j as int) == rest,
            Err(e) => r == Err::<(String, usize), VdfSyntaxError>(e),
        },
{
    let mut out = String::new();
    let mut j = i;
    while j < v.len() && !(char_is_ws(v[j]) || v[j] == '{' || v[j] == '}')
        invariant
            i <= j <= v.len(),
            forall|k: int| i <= k < j ==> !ends_unquoted(#[trigger] v@[k]),
            out@ == v@.subrange(i as int, j as int),
        decreases v.len() - j,
    {
        push_char(&mut out, v[j]);
        j = j + 1;
        assert(out@ =~= v@.subrange(i as int, j as int));
    }
    proof {
        let s = v@.skip(i as int);
        assert forall|k: int| 0 <= k < j - i implies !ends_unquoted(#[trigger] s[k]) by {
            assert(s[k] == v@[i + k]);
        }
        if j < v.len() {
            assert(s[j - i] == v@[j as int]);
        }
        lemma_unquoted_len(s, j - i);
        assert(s.take(j - i) =~= out@);
        assert(s.skip(j - i) =~= v@.skip(j as int));
    }
    if j == i {
        Err(VdfSyntaxError::ExpectedUnquotedString)
    } else {
        Ok((out, j))
    }
}

fn parse_object(v: &Vec<char>, i: usize) -> (r: Result<(VdfMap, usize), VdfSyntaxError>)
    requires
        i <= v.len(),
    ensures
        match object(v@.skip(i as int)) {
            Ok((es, rest)) => r matches Ok((x, j)) && vdf_map_entries(x) == es && i <= j <= v.len()
                && v@.skip(j as int) == rest,
            Err(e) => r matches Err(e2) && e2 == e,
        },
    decreases v.len() - i,
{
    let mut acc = VdfMap::new();
    let mut j = skip_wsc_at(v, i);
    loop
        invariant
            i <= j <= v.len(),
            object(v@.skip(i as int)) == members(v@.skip(j as int), vdf_map_entries(acc)),
        decreases v.len() - j,
    {
        let ghost s = v@.skip(j as int);
        if j == v.len() {
            proof {
                assert(s.len() == 0);
            }
            return Ok((acc, j));
        }
        proof {
            assert(s[0] == v@[j as int]);
        }
        let c = v[j];
        if c == '}' {
            proof {
                assert(s.drop_first() =~= v@.skip(j + 1));
            }
            return Ok((acc, j + 1));
        }
        let bare = c != '/' && (char_is_alphabetic(c) || char_is_numeric(c) || c == '_');
        if c == '"' || bare {
            let q = c == '"';
            let key = if q {
                parse_quoted(v, j)
            } else {
                parse_unquoted(v, j)
            };
            let (k, r1) = match key {
                Ok(x) => x,
                Err(e) => {
                    return Err(e);
                },
            };
            let r2 = skip_wsc_at(v, r1);
            let ghost s2 = v@.skip(r2 as int);
            proof {
                lemma_value_after_key_suffix(s2, q);
                if r2 < v.len() {
                    assert(s2[0] == v@[r2 as int]);
                    assert(s2.drop_first() =~= v@.skip(r2 + 1));
                }
            }
            let (value, r3) = if r2 < v.len() && v[r2] == '{' {
                match parse_object(v, r2 + 1) {
                    Ok((es, r3)) => (VdfValue::Object(es), r3),
                    Err(e) => {
                        return Err(e);
                    },
                }
            } else if q && r2 < v.len() && v[r2] == '"' {
                match parse_quoted(v, r2) {
                    Ok((x, r3)) => (VdfValue::String(x), r3),
                    Err(e) => {
                        return Err(e);
                    },
                }
            } else {
                match parse_unquoted(v, r2) {
                    Ok((x, r3)) => (VdfValue::String(x), r3),
                    Err(e) => {
                        return Err(e);
                    },
                }
            };
            proof {
                assert(value_after_key(s2, q) == Ok::<(Vdf, Seq<char>), VdfSyntaxError>((value@, v@.skip(r3 as int))));
            }
            acc.insert(k, value);
            j = skip_wsc_at(v, r3);
        } else if c == '/' {
            let t = skip_comment_at(v, j);
            j = skip_wsc_at(v, t);
        } else {
            return Err(VdfSyntaxError::UnexpectedCharacter(c));
        }
    }
}

/// `c as u8`: the low byte of the code point.
pub open spec fn low_byte(c: char) -> nat {
    (c as u32 as nat) % 256
}

pub open spec fn hex_digit(n: nat) -> char {
    if n < 10 {
        (('0' as u32) + n) as char
    } else {
        (('a' as u32) + n - 10) as char
    }
}

/// Two lowercase hex digits, as `{:02x}` writes a byte.
pub open spec fn hex2(b: nat) -> Seq<char> {
    seq![hex_digit(b / 16), hex_digit(b % 16)]
}

/// The message `parse_vdf_string` returns for a syntax error.
pub open spec fn syntax_error_text(e: VdfSyntaxError) -> Seq<char> {
    match e {
        VdfSyntaxError::ExpectedOpeningQuote => "Expected opening quote"@,
        VdfSyntaxError::UnterminatedString => "Unterminated string"@,
        VdfSyntaxError::ExpectedUnquotedString => "Expected unquoted string"@,
        VdfSyntaxError::UnexpectedCharacter(c) => "Unexpected character: '"@ + (if is_control(c) {
            "\\x"@ + hex2(low_byte(c))
        } else {
            seq![c]
        }) + "' (0x"@ + hex2(low_byte(c)) + ")"@,
    }
}

fn hex_digit_char(n: u32) -> (c: char)
    requires
        n < 16,
    ensures
        c == hex_digit(n as nat),
{
    if n < 10 {
        char_of_digit(n)
    } else if n == 10 {
        'a'
    } else if n == 11 {
        'b'
    } else if n == 12 {
        'c'
    } else if n == 13 {
        'd'
    } else if n == 14 {
        'e'
    } else {
        'f'
    }
}

fn push_hex2(out: &mut String, b: u32)
    requires
        b < 256,
    ensures
        final(out)@ == old(out)@ + hex2(b as nat),
{
    push_char(out, hex_digit_char(b / 16));
    push_char(out, hex_digit_char(b % 16));
    assert(out@ =~= old(out)@ + hex2(b as nat));
}

/// The message for a syntax error (see [`syntax_error_text`]).
pub fn syntax_error_message(e: VdfSyntaxError) -> (r: String)
    ensures
        r@ == syntax_error_text(e),
{
    match e {
        VdfSyntaxError::ExpectedOpeningQuote => "Expected opening quote".to_string(),
        VdfSyntaxError::UnterminatedString => "Unterminated string".to_string(),
        VdfSyntaxError::ExpectedUnquotedString => "Expected unquoted string".to_string(),
        VdfSyntaxError::UnexpectedCharacter(c) => {
            let b = (c as u32) % 256;
            let mut out = "Unexpected character: '".to_string();
            let ghost head = out@;
            if char_is_control(c) {
                push_str(&mut out, "\\x");
                push_hex2(&mut out, b);
            } else {
                push_char(&mut out, c);
            }
            let ghost mid = out@;
            push_str(&mut out, "' (0x");
            push_hex2(&mut out, b);
            push_str(&mut out, ")");
            proof {
                if is_control(c) {
                    assert(mid =~= head + ("\\x"@ + hex2(low_byte(c))));
                } else {
                    assert(mid =~= head + seq![c]);
                }
                assert(out@ =~= syntax_error_text(e));
            }
            out
        },
    }
}

/// Parses VDF text into a tree, or gives the message of the first syntax error.
pub fn parse_vdf_string(input: &str) -> (r: Result<VdfValue, String>)
    ensures
        match parse(input@) {
            Ok(m) => r matches Ok(x) && x@ == m,
            Err(e) => r matches Err(msg) && msg@ == syntax_error_text(e),
        },
{
    let v = chars_of(input);
    assert(v@.skip(0) =~= v@);
    match parse_object(&v, 0) {
        Ok((es, _)) => Ok(VdfValue::Object(es)),
        Err(e) => Err(syntax_error_message(e)),
    }
}

} // verus!
