//! What the writer and the parser promise of each other.

use crate::text::{is_ws, lead_ws, lemma_lead_ws, lemma_lead_ws_bound};
use crate::vdf::crud::{entries_insert, key_pos, lemma_key_pos, lemma_key_pos_is};
use crate::vdf::parse::{
    members, object, parse, quoted_string, skip_ws, skip_wsc, starts_comment, str_body, unescape,
    value_after_key,
};
use crate::vdf::value::{escape, escape_char, quoted, ser_entries, ser_entry, serialize, tabs, Vdf};
use vstd::prelude::*;

verus! {

/// A key the writer can put between quotes unescaped: no `"` and no `\`.
pub open spec fn key_ok(k: Seq<char>) -> bool {
    forall|i: int| 0 <= i < k.len() ==> #[trigger] k[i] != '"' && k[i] != '\\'
}

/// Every object of the tree has distinct, writable keys.
pub open spec fn wf_entries(es: Seq<(Seq<char>, Vdf)>) -> bool
    decreases es,
{
    if es.len() == 0 {
        true
    } else {
        &&& key_ok(es[0].0)
        &&& wf_value(es[0].1)
        &&& key_pos(es.drop_first(), es[0].0) == -1
        &&& wf_entries(es.drop_first())
    }
}

pub open spec fn wf_value(m: Vdf) -> bool
    decreases m,
{
    match m {
        Vdf::Str(_) => true,
        Vdf::Obj(es) => wf_entries(es),
    }
}

proof fn lemma_skip_ws_prefix(w: Seq<char>, x: Seq<char>)
    requires
        forall|i: int| 0 <= i < w.len() ==> is_ws(#[trigger] w[i]),
    ensures
        skip_ws(w + x) == skip_ws(x),
{
    lemma_lead_ws_bound(x);
    let s = w + x;
    let n = w.len() + lead_ws(x);
    assert forall|j: int| 0 <= j < n implies is_ws(#[trigger] s[j]) by {
        if j >= w.len() {
            assert(s[j] == x[j - w.len()]);
        }
    }
    if n < s.len() {
        assert(s[n as int] == x[lead_ws(x) as int]);
    }
    lemma_lead_ws(s, n as int);
    assert(s.skip(n as int) =~= x.skip(lead_ws(x) as int));
}

proof fn lemma_skip_wsc_prefix(w: Seq<char>, x: Seq<char>)
    requires
        forall|i: int| 0 <= i < w.len() ==> is_ws(#[trigger] w[i]),
    ensures
        skip_wsc(w + x) == skip_wsc(x),
{
    lemma_skip_ws_prefix(w, x);
}

proof fn lemma_skip_wsc_stop(x: Seq<char>)
    requires
        x.len() > 0,
        !is_ws(x[0]),
        !starts_comment(x),
    ensures
        skip_wsc(x) == x,
{
    lemma_lead_ws(x, 0);
    assert(x.skip(0) =~= x);
}

proof fn lemma_str_body_escaped(s: Seq<char>, rest: Seq<char>)
    ensures
        str_body(escape(s) + seq!['"'] + rest) == Ok::<(Seq<char>, Seq<char>), crate::vdf::parse::VdfSyntaxError>((s, rest)),
    decreases s.len(),
{
    let x = escape(s) + seq!['"'] + rest;
    if s.len() == 0 {
        assert(escape(s) =~= Seq::<char>::empty());
        assert(x =~= seq!['"'] + rest);
        assert(x.drop_first() =~= rest);
        assert(x[0] == '"');
        assert(s =~= Seq::<char>::empty());
    } else {
        let c = s[0];
        let t = s.drop_first();
        lemma_str_body_escaped(t, rest);
        let y = escape(t) + seq!['"'] + rest;
        assert(x =~= escape_char(c) + y);
        if c == '"' || c == '\\' || c == '\n' || c == '\r' || c == '\t' {
            assert(x[0] == '\\');
            assert(x.len() >= 2);
            assert(x.skip(2) =~= y);
            assert(unescape(x[1]) == c);
            assert(str_body(x) == Ok::<(Seq<char>, Seq<char>), crate::vdf::parse::VdfSyntaxError>((seq![unescape(x[1])] + t, rest)));
        } else {
            assert(x[0] == c);
            assert(x.drop_first() =~= y);
            assert(str_body(x) == Ok::<(Seq<char>, Seq<char>), crate::vdf::parse::VdfSyntaxError>((seq![c] + t, rest)));
        }
        assert(seq![c] + t =~= s);
    }
}

proof fn lemma_str_body_raw(k: Seq<char>, rest: Seq<char>)
    requires
        key_ok(k),
    ensures
        str_body(k + seq!['"'] + rest) == Ok::<(Seq<char>, Seq<char>), crate::vdf::parse::VdfSyntaxError>((k, rest)),
    decreases k.len(),
{
    let x = k + seq!['"'] + rest;
    if k.len() == 0 {
        assert(x =~= seq!['"'] + rest);
        assert(x.drop_first() =~= rest);
        assert(x[0] == '"');
        assert(k =~= Seq::<char>::empty());
    } else {
        let t = k.drop_first();
        assert(k[0] != '"' && k[0] != '\\');
        assert forall|i: int| 0 <= i < t.len() implies #[trigger] t[i] != '"' && t[i] != '\\' by {
            assert(t[i] == k[i + 1]);
        }
        lemma_str_body_raw(t, rest);
        assert(x[0] == k[0]);
        assert(x.drop_first() =~= t + seq!['"'] + rest);
        assert(str_body(x) == Ok::<(Seq<char>, Seq<char>), crate::vdf::parse::VdfSyntaxError>((seq![k[0]] + t, rest)));
        assert(seq![k[0]] + t =~= k);
    }
}

proof fn lemma_quoted_start(x: Seq<char>)
    requires
        x.len() > 0,
        x[0] == '"',
    ensures
        quoted_string(x) == str_body(x.drop_first()),
{
    lemma_lead_ws(x, 0);
    assert(x.skip(0) =~= x);
}

proof fn lemma_tabs_ws(n: nat)
    ensures
        forall|i: int| 0 <= i < tabs(n).len() ==> is_ws(#[trigger] tabs(n)[i]),
{
}

proof fn lemma_insert_fresh(acc: Seq<(Seq<char>, Vdf)>, k: Seq<char>, v: Vdf)
    requires
        key_pos(acc, k) == -1,
    ensures
        entries_insert(acc, k, v) == acc.push((k, v)),
{
}

/// Disjointness of the keys already read and the keys still to come.
pub open spec fn fresh_keys(acc: Seq<(Seq<char>, Vdf)>, es: Seq<(Seq<char>, Vdf)>) -> bool {
    forall|j: int| 0 <= j < es.len() ==> key_pos(acc, #[trigger] es[j].0) == -1
}

proof fn lemma_wf_tail_fresh(es: Seq<(Seq<char>, Vdf)>, acc: Seq<(Seq<char>, Vdf)>)
    requires
        es.len() > 0,
        wf_entries(es),
        fresh_keys(acc, es),
    ensures
        fresh_keys(acc.push(es[0]), es.drop_first()),
{
    let t = es.drop_first();
    let acc2 = acc.push(es[0]);
    assert forall|j: int| 0 <= j < t.len() implies key_pos(acc2, #[trigger] t[j].0) == -1 by {
        let k = t[j].0;
        assert(t[j] == es[j + 1]);
        assert(key_pos(acc, es[j + 1].0) == -1);
        lemma_key_pos(acc, k);
        lemma_key_pos(t, es[0].0);
        assert(t[j].0 != es[0].0);
        assert forall|i: int| 0 <= i < acc2.len() implies #[trigger] acc2[i].0 != k by {
            if i < acc.len() {
                assert(acc2[i] == acc[i]);
            }
        }
        lemma_key_pos_is(acc2, k, acc2.len() as int);
    }
}

proof fn lemma_entry_str(k: Seq<char>, v: Seq<char>, d: nat, rest: Seq<char>, acc: Seq<(Seq<char>, Vdf)>)
    requires
        key_ok(k),
        key_pos(acc, k) == -1,
    ensures
        members(skip_wsc(ser_entry((k, Vdf::Str(v)), d) + rest), acc) == members(
            skip_wsc(rest),
            acc.push((k, Vdf::Str(v))),
        ),
{
    lemma_tabs_ws(d);
    lemma_insert_fresh(acc, k, Vdf::Str(v));
    let tail1 = seq!['\t', '\t'] + quoted(escape(v)) + seq!['\n'] + rest;
    let s0 = quoted(k) + tail1;
    assert(ser_entry((k, Vdf::Str(v)), d) + rest =~= tabs(d) + s0);
    lemma_skip_wsc_prefix(tabs(d), s0);
    assert(s0[0] == '"');
    lemma_skip_wsc_stop(s0);
    lemma_quoted_start(s0);
    assert(s0.drop_first() =~= k + seq!['"'] + tail1);
    lemma_str_body_raw(k, tail1);
    let r2 = quoted(escape(v)) + seq!['\n'] + rest;
    assert(tail1 =~= seq!['\t', '\t'] + r2);
    lemma_skip_wsc_prefix(seq!['\t', '\t'], r2);
    assert(r2[0] == '"');
    lemma_skip_wsc_stop(r2);
    lemma_quoted_start(r2);
    let r3 = seq!['\n'] + rest;
    assert(r2.drop_first() =~= escape(v) + seq!['"'] + r3);
    lemma_str_body_escaped(v, r3);
    assert(value_after_key(r2, true) == Ok::<(Vdf, Seq<char>), crate::vdf::parse::VdfSyntaxError>((Vdf::Str(v), r3)));
    lemma_skip_wsc_prefix(seq!['\n'], rest);
}

proof fn lemma_entry_obj(
    k: Seq<char>,
    c: Seq<(Seq<char>, Vdf)>,
    d: nat,
    rest: Seq<char>,
    acc: Seq<(Seq<char>, Vdf)>,
)
    requires
        key_ok(k),
        key_pos(acc, k) == -1,
        members(skip_wsc(ser_entries(c, d + 1) + (tabs(d) + seq!['}', '\n'] + rest)), seq![])
            == members(skip_wsc(tabs(d) + seq!['}', '\n'] + rest), c),
    ensures
        members(skip_wsc(ser_entry((k, Vdf::Obj(c)), d) + rest), acc) == members(
            skip_wsc(rest),
            acc.push((k, Vdf::Obj(c))),
        ),
{
    lemma_tabs_ws(d);
    lemma_insert_fresh(acc, k, Vdf::Obj(c));
    let close = tabs(d) + seq!['}', '\n'];
    let after = seq!['\n'] + rest;
    let inner = ser_entries(c, d + 1) + (close + rest);
    let r2 = seq!['{'] + seq!['\n'] + inner;
    let nl_tabs = seq!['\n'] + tabs(d);
    let tail1 = nl_tabs + r2;
    let s0 = quoted(k) + tail1;
    assert(ser_entry((k, Vdf::Obj(c)), d) + rest =~= tabs(d) + s0);
    lemma_skip_wsc_prefix(tabs(d), s0);
    assert(s0[0] == '"');
    lemma_skip_wsc_stop(s0);
    lemma_quoted_start(s0);
    assert(s0.drop_first() =~= k + seq!['"'] + tail1);
    lemma_str_body_raw(k, tail1);
    assert forall|i: int| 0 <= i < nl_tabs.len() implies is_ws(#[trigger] nl_tabs[i]) by {
        if i > 0 {
            assert(nl_tabs[i] == tabs(d)[i - 1]);
        }
    }
    lemma_skip_wsc_prefix(nl_tabs, r2);
    assert(r2[0] == '{');
    lemma_skip_wsc_stop(r2);
    assert(r2.drop_first() =~= seq!['\n'] + inner);
    lemma_skip_wsc_prefix(seq!['\n'], inner);
    let close_rest = seq!['}'] + after;
    assert(close + rest =~= tabs(d) + close_rest);
    lemma_skip_wsc_prefix(tabs(d), close_rest);
    lemma_skip_wsc_stop(close_rest);
    assert(close_rest.drop_first() =~= after);
    assert(object(r2.drop_first()) == Ok::<(Seq<(Seq<char>, Vdf)>, Seq<char>), crate::vdf::parse::VdfSyntaxError>((c, after)));
    assert(value_after_key(r2, true) == Ok::<(Vdf, Seq<char>), crate::vdf::parse::VdfSyntaxError>((Vdf::Obj(c), after)));
    lemma_skip_wsc_prefix(seq!['\n'], rest);
}

/// The members loop reads the written entries back one by one.
proof fn lemma_members_entries(
    es: Seq<(Seq<char>, Vdf)>,
    d: nat,
    t: Seq<char>,
    acc: Seq<(Seq<char>, Vdf)>,
)
    requires
        wf_entries(es),
        fresh_keys(acc, es),
    ensures
        members(skip_wsc(ser_entries(es, d) + t), acc) == members(skip_wsc(t), acc + es),
    decreases es,
{
    if es.len() == 0 {
        assert(ser_entries(es, d) + t =~= t);
        assert(acc + es =~= acc);
    } else {
        let e = es[0];
        let rest_es = es.drop_first();
        let rest = ser_entries(rest_es, d) + t;
        assert(ser_entries(es, d) + t =~= ser_entry(e, d) + rest);
        lemma_wf_tail_fresh(es, acc);
        let acc2 = acc.push(e);
        assert(key_pos(acc, e.0) == -1);
        assert(acc2 + rest_es =~= acc + es);
        lemma_members_entries(rest_es, d, t, acc2);
        match e.1 {
            Vdf::Str(v) => {
                lemma_entry_str(e.0, v, d, rest, acc);
            },
            Vdf::Obj(c) => {
                assert(wf_value(e.1));
                assert(wf_entries(c));
                assert(fresh_keys(seq![], c));
                lemma_members_entries(c, d + 1, tabs(d) + seq!['}', '\n'] + rest, seq![]);
                assert(Seq::<(Seq<char>, Vdf)>::empty() + c =~= c);
                lemma_entry_obj(e.0, c, d, rest, acc);
            },
        }
    }
}

/// Writing a well-formed object as text and parsing that text gives back
/// the same object.
pub proof fn law_parse_serialize_roundtrip(es: Seq<(Seq<char>, Vdf)>)
    requires
        wf_entries(es),
    ensures
        parse(serialize(Vdf::Obj(es))) == Ok::<Vdf, crate::vdf::parse::VdfSyntaxError>(Vdf::Obj(es)),
{
    let text = ser_entries(es, 0);
    assert(text + Seq::<char>::empty() =~= text);
    assert(fresh_keys(seq![], es));
    lemma_members_entries(es, 0, seq![], seq![]);
    assert(Seq::<(Seq<char>, Vdf)>::empty() + es =~= es);
    lemma_lead_ws(Seq::<char>::empty(), 0);
    assert(Seq::<char>::empty().skip(0) =~= Seq::<char>::empty());
}

} // verus!
