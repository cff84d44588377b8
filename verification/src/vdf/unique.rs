//! No object of a VDF tree holds a key twice: the parser gives such trees,
//! and insertion and writes by path keep them so.

use crate::vdf::crud::{entries_insert, get_path, key_pos, lemma_key_pos, lookup, set_path, update_path};
use crate::vdf::parse::{
    lemma_quoted_string_suffix, lemma_skip_comment_suffix, lemma_skip_wsc_suffix, lemma_unquoted_suffix, members,
    object, parse, quoted_string, skip_comment, skip_wsc, starts_bare_key, unquoted, value_after_key,
};
use crate::vdf::laws::{key_ok, law_parse_serialize_roundtrip, wf_entries, wf_value};
use crate::vdf::value::{serialize, Vdf};
use vstd::prelude::*;

verus! {

/// No two entries share a key.
pub open spec fn keys_distinct(es: Seq<(Seq<char>, Vdf)>) -> bool {
    forall|i: int, j: int| 0 <= i < j < es.len() ==> #[trigger] es[i].0 != #[trigger] es[j].0
}

/// Every value among the entries has distinct keys in each of its objects.
pub open spec fn all_unique(es: Seq<(Seq<char>, Vdf)>) -> bool
    decreases es,
{
    if es.len() == 0 {
        true
    } else {
        unique_keys(es[0].1) && all_unique(es.drop_first())
    }
}

pub proof fn lemma_all_unique_forall(es: Seq<(Seq<char>, Vdf)>)
    ensures
        all_unique(es) <==> forall|j: int| 0 <= j < es.len() ==> unique_keys(#[trigger] es[j].1),
    decreases es.len(),
{
    if es.len() > 0 {
        let t = es.drop_first();
        lemma_all_unique_forall(t);
        if forall|j: int| 0 <= j < es.len() ==> unique_keys(#[trigger] es[j].1) {
            assert forall|j: int| 0 <= j < t.len() implies unique_keys(#[trigger] t[j].1) by {
                assert(t[j] == es[j + 1]);
                assert(unique_keys(es[j + 1].1));
            }
            assert(unique_keys(es[0].1));
        }
        if all_unique(es) {
            assert(all_unique(t));
            assert(forall|k: int| 0 <= k < t.len() ==> unique_keys(#[trigger] t[k].1));
            assert forall|j: int| 0 <= j < es.len() implies unique_keys(#[trigger] es[j].1) by {
                if j > 0 {
                    assert(es[j] == t[j - 1]);
                    assert(unique_keys(t[j - 1].1));
                }
            }
        }
    }
}

/// Every object of the tree has distinct keys.
pub open spec fn unique_keys(m: Vdf) -> bool
    decreases m,
{
    match m {
        Vdf::Str(_) => true,
        Vdf::Obj(es) => keys_distinct(es) && all_unique(es),
    }
}

proof fn lemma_all_unique(es: Seq<(Seq<char>, Vdf)>)
    ensures
        all_unique(es) <==> forall|i: int| 0 <= i < es.len() ==> unique_keys(#[trigger] es[i].1),
    decreases es.len(),
{
    if es.len() > 0 {
        let t = es.drop_first();
        lemma_all_unique(t);
        if forall|i: int| 0 <= i < es.len() ==> unique_keys(#[trigger] es[i].1) {
            assert forall|i: int| 0 <= i < t.len() implies unique_keys(#[trigger] t[i].1) by {
                assert(t[i] == es[i + 1]);
            }
        }
        if all_unique(es) {
            assert forall|i: int| 0 <= i < es.len() implies unique_keys(#[trigger] es[i].1) by {
                if i > 0 {
                    assert(es[i] == t[i - 1]);
                }
            }
        }
    }
}

/// Inserting a value whose objects have distinct keys into entries with
/// distinct keys keeps every key distinct.
pub proof fn law_insert_keeps_keys_unique(es: Seq<(Seq<char>, Vdf)>, k: Seq<char>, x: Vdf)
    requires
        unique_keys(Vdf::Obj(es)),
        unique_keys(x),
    ensures
        unique_keys(Vdf::Obj(entries_insert(es, k, x))),
{
    lemma_key_pos(es, k);
    lemma_all_unique(es);
    let r = entries_insert(es, k, x);
    let p = key_pos(es, k);
    if p >= 0 {
        assert forall|i: int, j: int| 0 <= i < j < r.len() implies #[trigger] r[i].0 != #[trigger] r[j].0 by {
            assert(r[i].0 == es[i].0);
            assert(r[j].0 == es[j].0);
        }
    } else {
        assert forall|i: int, j: int| 0 <= i < j < r.len() implies #[trigger] r[i].0 != #[trigger] r[j].0 by {
            if j == es.len() {
                assert(r[i] == es[i]);
            } else {
                assert(r[i] == es[i]);
                assert(r[j] == es[j]);
            }
        }
    }
    assert forall|i: int| 0 <= i < r.len() implies unique_keys(#[trigger] r[i].1) by {
        if i != p && i < es.len() {
            assert(r[i] == es[i]);
        }
    }
    lemma_all_unique(r);
}

proof fn lemma_lookup_unique(m: Vdf, k: Seq<char>)
    requires
        unique_keys(m),
    ensures
        lookup(m, k) matches Some(c) ==> unique_keys(c),
{
    if let Vdf::Obj(es) = m {
        lemma_key_pos(es, k);
        lemma_all_unique(es);
    }
}

proof fn lemma_get_path_unique(m: Vdf, path: Seq<Seq<char>>)
    requires
        unique_keys(m),
    ensures
        get_path(m, path) matches Some(c) ==> unique_keys(c),
    decreases path.len(),
{
    if path.len() > 0 {
        lemma_lookup_unique(m, path[0]);
        if let Some(c) = lookup(m, path[0]) {
            lemma_get_path_unique(c, path.drop_first());
        }
    }
}

proof fn lemma_update_path_unique(m: Vdf, path: Seq<Seq<char>>, n: Vdf)
    requires
        unique_keys(m),
        unique_keys(n),
    ensures
        unique_keys(update_path(m, path, n)),
    decreases path.len(),
{
    if path.len() > 0 {
        if let Vdf::Obj(es) = m {
            let p = key_pos(es, path[0]);
            lemma_key_pos(es, path[0]);
            if p >= 0 {
                lemma_all_unique(es);
                lemma_update_path_unique(es[p].1, path.drop_first(), n);
                let r = es.update(p, (es[p].0, update_path(es[p].1, path.drop_first(), n)));
                assert forall|i: int, j: int| 0 <= i < j < r.len() implies #[trigger] r[i].0 != #[trigger] r[j].0 by {
                    assert(r[i].0 == es[i].0);
                    assert(r[j].0 == es[j].0);
                }
                assert forall|i: int| 0 <= i < r.len() implies unique_keys(#[trigger] r[i].1) by {
                    if i != p {
                        assert(r[i] == es[i]);
                    }
                }
                lemma_all_unique(r);
            }
        }
    }
}

/// A write by path of a value whose objects have distinct keys, into a tree
/// whose objects have distinct keys, keeps every key distinct.
pub proof fn law_set_keeps_keys_unique(m: Vdf, path: Seq<Seq<char>>, x: Vdf)
    requires
        unique_keys(m),
        unique_keys(x),
        set_path(m, path, x) is Ok,
    ensures
        unique_keys(set_path(m, path, x)->Ok_0),
{
    if path.len() > 0 {
        let q = path.drop_last();
        lemma_get_path_unique(m, q);
        if let Some(Vdf::Obj(es)) = get_path(m, q) {
            law_insert_keeps_keys_unique(es, path.last(), x);
            lemma_update_path_unique(m, q, Vdf::Obj(entries_insert(es, path.last(), x)));
        }
    }
}

proof fn lemma_members_unique(s: Seq<char>, acc: Seq<(Seq<char>, Vdf)>)
    requires
        unique_keys(Vdf::Obj(acc)),
    ensures
        members(s, acc) matches Ok((es, _)) ==> unique_keys(Vdf::Obj(es)),
    decreases s.len(), 0int,
{
    if s.len() > 0 && s[0] != '}' {
        if s[0] == '"' || (s[0] != '/' && starts_bare_key(s[0])) {
            let q = s[0] == '"';
            let key = if q {
                quoted_string(s)
            } else {
                unquoted(s)
            };
            if let Ok((k, r1)) = key {
                lemma_quoted_string_suffix(s);
                lemma_unquoted_suffix(s);
                lemma_skip_wsc_suffix(r1);
                let r2 = skip_wsc(r1);
                lemma_value_unique(r2, q);
                if let Ok((v, r3)) = value_after_key(r2, q) {
                    lemma_skip_wsc_suffix(r3);
                    if r3.len() < r2.len() {
                        law_insert_keeps_keys_unique(acc, k, v);
                        lemma_members_unique(skip_wsc(r3), entries_insert(acc, k, v));
                    }
                }
            }
        } else if s[0] == '/' {
            lemma_skip_comment_suffix(s);
            lemma_skip_wsc_suffix(skip_comment(s));
            lemma_members_unique(skip_wsc(skip_comment(s)), acc);
        }
    }
}

proof fn lemma_object_unique(s: Seq<char>)
    ensures
        object(s) matches Ok((es, _)) ==> unique_keys(Vdf::Obj(es)),
    decreases s.len(), 1int,
{
    lemma_skip_wsc_suffix(s);
    assert(unique_keys(Vdf::Obj(seq![])));
    lemma_members_unique(skip_wsc(s), seq![]);
}

proof fn lemma_value_unique(s: Seq<char>, q: bool)
    ensures
        value_after_key(s, q) matches Ok((v, _)) ==> unique_keys(v),
    decreases s.len(), 2int,
{
    if s.len() > 0 && s[0] == '{' {
        lemma_object_unique(s.drop_first());
    }
}

/// Every object of a parsed tree has distinct keys (a repeated key keeps
/// its first place and takes its last value).
pub proof fn law_parse_gives_unique_keys(t: Seq<char>)
    ensures
        parse(t) matches Ok(m) ==> unique_keys(m),
{
    lemma_object_unique(t);
}

/// Every key of every object of the tree is one the writer can put between
/// quotes unescaped (no quote and no backslash).
pub open spec fn keys_ok(m: Vdf) -> bool
    decreases m,
{
    match m {
        Vdf::Str(_) => true,
        Vdf::Obj(es) => keys_ok_entries(es),
    }
}

pub open spec fn keys_ok_entries(es: Seq<(Seq<char>, Vdf)>) -> bool
    decreases es,
{
    if es.len() == 0 {
        true
    } else {
        key_ok(es[0].0) && keys_ok(es[0].1) && keys_ok_entries(es.drop_first())
    }
}

proof fn lemma_keys_ok_entries(es: Seq<(Seq<char>, Vdf)>)
    ensures
        keys_ok_entries(es) <==> forall|i: int| 0 <= i < es.len() ==> key_ok(#[trigger] es[i].0) && keys_ok(es[i].1),
    decreases es.len(),
{
    if es.len() > 0 {
        let t = es.drop_first();
        lemma_keys_ok_entries(t);
        if forall|i: int| 0 <= i < es.len() ==> key_ok(#[trigger] es[i].0) && keys_ok(es[i].1) {
            assert forall|i: int| 0 <= i < t.len() implies key_ok(#[trigger] t[i].0) && keys_ok(t[i].1) by {
                assert(t[i] == es[i + 1]);
                assert(key_ok(es[i + 1].0) && keys_ok(es[i + 1].1));
            }
            assert(key_ok(es[0].0) && keys_ok(es[0].1));
        }
        if keys_ok_entries(es) {
            assert(keys_ok_entries(t));
            assert(forall|k: int| 0 <= k < t.len() ==> key_ok(#[trigger] t[k].0) && keys_ok(t[k].1));
            assert forall|i: int| 0 <= i < es.len() implies key_ok(#[trigger] es[i].0) && keys_ok(es[i].1) by {
                if i > 0 {
                    assert(es[i] == t[i - 1]);
                    assert(key_ok(t[i - 1].0) && keys_ok(t[i - 1].1));
                }
            }
        }
    }
}

proof fn lemma_keys_ok_lookup(m: Vdf, k: Seq<char>)
    requires
        keys_ok(m),
    ensures
        lookup(m, k) matches Some(c) ==> keys_ok(c),
{
    if let Vdf::Obj(es) = m {
        lemma_key_pos(es, k);
        lemma_keys_ok_entries(es);
    }
}

proof fn lemma_keys_ok_get_path(m: Vdf, path: Seq<Seq<char>>)
    requires
        keys_ok(m),
    ensures
        get_path(m, path) matches Some(c) ==> keys_ok(c),
    decreases path.len(),
{
    if path.len() > 0 {
        lemma_keys_ok_lookup(m, path[0]);
        if let Some(c) = lookup(m, path[0]) {
            lemma_keys_ok_get_path(c, path.drop_first());
        }
    }
}

proof fn lemma_keys_ok_update_path(m: Vdf, path: Seq<Seq<char>>, n: Vdf)
    requires
        keys_ok(m),
        keys_ok(n),
    ensures
        keys_ok(update_path(m, path, n)),
    decreases path.len(),
{
    if path.len() > 0 {
        if let Vdf::Obj(es) = m {
            let p = key_pos(es, path[0]);
            lemma_key_pos(es, path[0]);
            if p >= 0 {
                assert(keys_ok_entries(es));
                lemma_keys_ok_entries(es);
                lemma_keys_ok_update_path(es[p].1, path.drop_first(), n);
                let r = es.update(p, (es[p].0, update_path(es[p].1, path.drop_first(), n)));
                assert forall|i: int| 0 <= i < r.len() implies key_ok(#[trigger] r[i].0) && keys_ok(r[i].1) by {
                    if i != p {
                        assert(r[i] == es[i]);
                    }
                    assert(key_ok(es[i].0) && keys_ok(es[i].1));
                }
                lemma_keys_ok_entries(r);
                assert(keys_ok(Vdf::Obj(r)));
            }
        }
    }
}

/// A write by path of a value with writable keys, under a writable last
/// key, into a tree with writable keys keeps every key writable.
pub proof fn law_set_keeps_keys_ok(m: Vdf, path: Seq<Seq<char>>, x: Vdf)
    requires
        keys_ok(m),
        keys_ok(x),
        path.len() > 0 ==> key_ok(path.last()),
        set_path(m, path, x) is Ok,
    ensures
        keys_ok(set_path(m, path, x)->Ok_0),
{
    if path.len() > 0 {
        let q = path.drop_last();
        lemma_keys_ok_get_path(m, q);
        if let Some(Vdf::Obj(es)) = get_path(m, q) {
            let k = path.last();
            assert(keys_ok_entries(es));
            lemma_keys_ok_entries(es);
            lemma_key_pos(es, k);
            let r = entries_insert(es, k, x);
            assert forall|i: int| 0 <= i < r.len() implies key_ok(#[trigger] r[i].0) && keys_ok(r[i].1) by {
                if i < es.len() && i != key_pos(es, k) {
                    assert(r[i] == es[i]);
                    assert(key_ok(es[i].0) && keys_ok(es[i].1));
                } else {
                    assert(r[i] == (k, x));
                }
            }
            lemma_keys_ok_entries(r);
            assert(keys_ok(Vdf::Obj(r)));
            lemma_keys_ok_update_path(m, q, Vdf::Obj(r));
        }
    }
}

/// A tree with writable keys and no key twice in an object is one the
/// writer and the parser agree on.
pub proof fn lemma_wf_of_unique_ok(m: Vdf)
    requires
        keys_ok(m),
        unique_keys(m),
    ensures
        wf_value(m),
    decreases m,
{
    if let Vdf::Obj(es) = m {
        lemma_wf_entries_of_unique_ok(es);
    }
}

proof fn lemma_wf_entries_of_unique_ok(es: Seq<(Seq<char>, Vdf)>)
    requires
        keys_ok_entries(es),
        keys_distinct(es),
        all_unique(es),
    ensures
        wf_entries(es),
    decreases es,
{
    if es.len() > 0 {
        let t = es.drop_first();
        lemma_wf_of_unique_ok(es[0].1);
        assert forall|i: int, j: int| 0 <= i < j < t.len() implies #[trigger] t[i].0 != #[trigger] t[j].0 by {
            assert(t[i] == es[i + 1] && t[j] == es[j + 1]);
        }
        lemma_key_pos(t, es[0].0);
        if key_pos(t, es[0].0) >= 0 {
            assert(es[key_pos(t, es[0].0) + 1] == t[key_pos(t, es[0].0)]);
        }
        lemma_wf_entries_of_unique_ok(t);
    }
}

/// A VDF text whose keys hold no quote and no backslash, read, written out and
/// read again, gives the tree first read: the writer and the parser agree on
/// every tree the parser makes, with no premise on repeated keys.
pub proof fn law_reparse_gives_same_tree(t: Seq<char>)
    requires
        parse(t) is Ok,
        keys_ok(parse(t)->Ok_0),
    ensures
        parse(serialize(parse(t)->Ok_0)) == parse(t),
{
    law_parse_gives_unique_keys(t);
    lemma_wf_of_unique_ok(parse(t)->Ok_0);
    if let Vdf::Obj(es) = parse(t)->Ok_0 {
        law_parse_serialize_roundtrip(es);
    }
}

} // verus!
