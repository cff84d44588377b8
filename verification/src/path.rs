//! Windows paths as text: appending a relative path the way `PathBuf::push`
//! does on Windows (a separator unless the base is empty, ends in one, or is a
//! bare drive such as `C:`).

use crate::text::{chars_of, push_str};
use vstd::prelude::*;

verus! {

broadcast use vstd::string::group_string_axioms;

pub open spec fn is_sep(c: char) -> bool {
    c == '\\' || c == '/'
}

pub open spec fn is_ascii_alpha(c: char) -> bool {
    ('a' <= c && c <= 'z') || ('A' <= c && c <= 'Z')
}

/// A bare drive such as `C:`, after which no separator is added.
pub open spec fn bare_drive(b: Seq<char>) -> bool {
    b.len() == 2 && is_ascii_alpha(b[0]) && b[1] == ':'
}

/// Whether a separator goes between `b` and the next component.
pub open spec fn needs_sep(b: Seq<char>) -> bool {
    b.len() > 0 && !is_sep(b.last()) && !bare_drive(b)
}

/// A relative path: it neither starts with a separator (a root) nor with a
/// drive such as `C:`, so appending it never replaces what it follows.
pub open spec fn relative_component(p: Seq<char>) -> bool {
    p.len() == 0 || (!is_sep(p[0]) && !(p.len() >= 2 && p[1] == ':'))
}

/// `b` with the relative component `p` appended.
pub open spec fn join_path(b: Seq<char>, p: Seq<char>) -> Seq<char> {
    if needs_sep(b) {
        b + "\\"@ + p
    } else {
        b + p
    }
}

/// `b` with each of `ps` appended in turn.
pub open spec fn join_all(b: Seq<char>, ps: Seq<Seq<char>>) -> Seq<char>
    decreases ps.len(),
{
    if ps.len() == 0 {
        b
    } else {
        join_path(join_all(b, ps.drop_last()), ps.last())
    }
}

/// Appends the relative component `part` to `base`.
pub fn path_join(base: &str, part: &str) -> (r: String)
    requires
        relative_component(part@),
    ensures
        r@ == join_path(base@, part@),
{
    let v = chars_of(base);
    let n = v.len();
    let sep = n > 0 && !(v[n - 1] == '\\' || v[n - 1] == '/') && !(n == 2 && (('a' <= v[0] && v[0] <= 'z') || ('A' <= v[0] && v[0] <= 'Z')) && v[1] == ':');
    let mut out = base.to_string();
    if sep {
        push_str(&mut out, "\\");
    }
    push_str(&mut out, part);
    out
}

/// Appends each of `parts` to `base` in turn.
pub fn path_join_all(base: &str, parts: &[&str]) -> (r: String)
    requires
        forall|i: int| 0 <= i < parts@.len() ==> relative_component(#[trigger] parts@[i]@),
    ensures
        r@ == join_all(base@, parts@.map_values(|p: &str| p@)),
{
    let ghost ps = parts@.map_values(|p: &str| p@);
    let mut out = base.to_string();
    let mut i: usize = 0;
    assert(ps.take(0) =~= Seq::<Seq<char>>::empty());
    while i < parts.len()
        invariant
            i <= parts@.len(),
            ps == parts@.map_values(|p: &str| p@),
            forall|k: int| 0 <= k < parts@.len() ==> relative_component(#[trigger] parts@[k]@),
            out@ == join_all(base@, ps.take(i as int)),
        decreases parts@.len() - i,
    {
        let part: &str = parts[i];
        assert(relative_component(parts@[i as int]@));
        out = path_join(out.as_str(), part);
        assert(ps.take(i + 1).drop_last() =~= ps.take(i as int));
        i = i + 1;
    }
    assert(ps.take(parts@.len() as int) =~= ps);
    out
}

} // verus!
