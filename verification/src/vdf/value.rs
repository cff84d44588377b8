//! The VDF tree and its text form.


use crate::text::{push_char, push_str};
use crate::vdf::crud::{entries_insert, key_pos};
use crate::vdf::laws::law_parse_serialize_roundtrip;
use crate::vdf::parse::{parse, VdfSyntaxError};
use crate::vdf::unique::{keys_distinct, keys_ok, lemma_all_unique_forall, lemma_wf_of_unique_ok, unique_keys};
use vstd::prelude::*;

verus! {

broadcast use vstd::string::group_string_axioms;

/// The entries of a VDF object: an `indexmap::IndexMap` from keys to child
/// nodes, which keeps each key once, in the order keys first came in. Verus
/// refuses the map's own declaration inside the recursive `VdfValue`, so the
/// map is held here, out of Verus's sight, and read and changed through the
/// wrappers below.
#[verifier::external_body]
#[derive(Debug, PartialEq)]
pub struct VdfMap {
    map: indexmap::IndexMap<String, VdfValue>,
}

/// A node of a VDF tree: a string leaf, or an object whose entries keep the
/// order in which their keys first appeared, each key once.
#[derive(Debug, PartialEq)]
pub enum VdfValue {
    String(String),
    Object(VdfMap),
}

/// The mathematical form of a VDF tree.
pub enum Vdf {
    Str(Seq<char>),
    Obj(Seq<(Seq<char>, Vdf)>),
}

/// The entries of a `VdfMap`, in map order: each key with its child's model.
pub uninterp spec fn vdf_map_entries(m: VdfMap) -> Seq<(Seq<char>, Vdf)>;

impl VdfValue {
    pub open spec fn model(self) -> Vdf {
        match self {
            VdfValue::String(s) => Vdf::Str(s@),
            VdfValue::Object(m) => Vdf::Obj(vdf_map_entries(m)),
        }
    }
}

impl VdfMap {
    /// `IndexMap::new`: no entries.
    #[verifier::external_body]
    pub fn new() -> (r: VdfMap)
        ensures
            vdf_map_entries(r) == Seq::<(Seq<char>, Vdf)>::empty(),
    {
        VdfMap { map: indexmap::IndexMap::new() }
    }

    /// `IndexMap::len`: the number of entries.
    #[verifier::external_body]
    pub fn len(&self) -> (r: usize)
        ensures
            r == vdf_map_entries(*self).len(),
    {
        self.map.len()
    }

    /// `IndexMap::get_index`: the entry at position `i`; an `IndexMap` holds
    /// each key once, so no other entry has its key.
    #[verifier::external_body]
    pub fn get_index(&self, i: usize) -> (r: (&String, &VdfValue))
        requires
            i < vdf_map_entries(*self).len(),
        ensures
            (r.0@, r.1@) == vdf_map_entries(*self)[i as int],
            forall|j: int| 0 <= j < vdf_map_entries(*self).len() && j != i ==> #[trigger] vdf_map_entries(*self)[j].0 != r.0@,
    {
        self.map.get_index(i).unwrap()
    }

    /// `IndexMap::get_index_mut`: the child at position `i`, to change in
    /// place; the entry keeps its key and place.
    #[verifier::external_body]
    pub fn get_index_mut(&mut self, i: usize) -> (r: &mut VdfValue)
        requires
            i < vdf_map_entries(*old(self)).len(),
        ensures
            r@ == vdf_map_entries(*old(self))[i as int].1,
            vdf_map_entries(*final(self)) == vdf_map_entries(*old(self)).update(
                i as int,
                (vdf_map_entries(*old(self))[i as int].0, final(r)@),
            ),
    {
        self.map.get_index_mut(i).unwrap().1
    }

    /// `IndexMap::get_index_of`: the position of `key`, if it is a key; as
    /// the map holds each key once, that is its first (and only) position.
    #[verifier::external_body]
    pub fn get_index_of(&self, key: &str) -> (r: Option<usize>)
        ensures
            match r {
                Some(i) => key_pos(vdf_map_entries(*self), key@) == i,
                None => key_pos(vdf_map_entries(*self), key@) == -1,
            },
    {
        self.map.get_index_of(key)
    }

    /// `IndexMap::insert`: a present key keeps its place and takes the new
    /// value; a new key goes last.
    #[verifier::external_body]
    pub fn insert(&mut self, key: String, value: VdfValue)
        ensures
            vdf_map_entries(*final(self)) == entries_insert(vdf_map_entries(*old(self)), key@, value@),
    {
        self.map.insert(key, value);
    }
}

/// How deep objects nest in a tree.
pub open spec fn depth(m: Vdf) -> nat
    decreases m,
{
    match m {
        Vdf::Str(_) => 0,
        Vdf::Obj(es) => 1 + depth_entries(es),
    }
}

pub open spec fn depth_entries(es: Seq<(Seq<char>, Vdf)>) -> nat
    decreases es,
{
    if es.len() == 0 {
        0
    } else {
        let a = depth(es[0].1);
        let b = depth_entries(es.drop_first());
        if a > b {
            a
        } else {
            b
        }
    }
}

proof fn lemma_depth_entries(es: Seq<(Seq<char>, Vdf)>, i: int)
    requires
        0 <= i < es.len(),
    ensures
        depth(es[i].1) <= depth_entries(es),
    decreases es.len(),
{
    if i > 0 {
        lemma_depth_entries(es.drop_first(), i - 1);
    }
}

impl View for VdfValue {
    type V = Vdf;

    open spec fn view(&self) -> Vdf {
        self.model()
    }
}

pub open spec fn tabs(n: nat) -> Seq<char> {
    Seq::new(n, |i: int| '\t')
}

pub open spec fn quoted(s: Seq<char>) -> Seq<char> {
    seq!['"'] + s + seq!['"']
}

/// How the writer spells one character inside a quoted value.
pub open spec fn escape_char(c: char) -> Seq<char> {
    if c == '"' {
        seq!['\\', '"']
    } else if c == '\\' {
        seq!['\\', '\\']
    } else if c == '\n' {
        seq!['\\', 'n']
    } else if c == '\r' {
        seq!['\\', 'r']
    } else if c == '\t' {
        seq!['\\', 't']
    } else {
        seq![c]
    }
}

pub open spec fn escape(s: Seq<char>) -> Seq<char>
    decreases s.len(),
{
    if s.len() == 0 {
        seq![]
    } else {
        escape_char(s[0]) + escape(s.drop_first())
    }
}

/// The text of the entries of an object written at depth `d`.
pub open spec fn ser_entries(es: Seq<(Seq<char>, Vdf)>, d: nat) -> Seq<char>
    decreases es,
{
    if es.len() == 0 {
        seq![]
    } else {
        ser_entry(es[0], d) + ser_entries(es.drop_first(), d)
    }
}

/// One entry: `"key"\t\t"escaped value"` on a line, or `"key"` followed by
/// the child's entries between braces on lines of their own.
pub open spec fn ser_entry(e: (Seq<char>, Vdf), d: nat) -> Seq<char>
    decreases e,
{
    match e.1 {
        Vdf::Str(v) => tabs(d) + quoted(e.0) + seq!['\t', '\t'] + quoted(escape(v)) + seq!['\n'],
        Vdf::Obj(c) => tabs(d) + quoted(e.0) + seq!['\n'] + tabs(d) + seq!['{', '\n'] + ser_entries(c, d + 1)
            + tabs(d) + seq!['}', '\n'],
    }
}

/// The text `VdfValue::to_string` writes: the entries of an object at depth
/// zero, or a string leaf between quotes, unescaped.
pub open spec fn serialize(m: Vdf) -> Seq<char> {
    match m {
        Vdf::Str(s) => quoted(s),
        Vdf::Obj(es) => ser_entries(es, 0),
    }
}

/// Appends `escape(s)` to `out`.
fn write_escaped(s: &str, out: &mut String)
    ensures
        final(out)@ == old(out)@ + escape(s@),
{
    let ghost start = out@;
    let ghost sv = s@;
    assert(sv.skip(0) =~= sv);
    assert(start + escape(sv) =~= start + escape(sv.take(0)) + escape(sv.skip(0)));
    for c in it: s.chars()
        invariant
            it.seq() == sv,
            sv == s@,
            start + escape(sv) == out@ + escape(sv.skip(it.index() as int)),
    {
        let ghost rest = sv.skip(it.index() as int);
        proof {
            assert(rest[0] == c);
            assert(rest.drop_first() =~= sv.skip(it.index() + 1));
        }
        if c == '"' {
            push_str(out, "\\\"");
        } else if c == '\\' {
            push_str(out, "\\\\");
        } else if c == '\n' {
            push_str(out, "\\n");
        } else if c == '\r' {
            push_str(out, "\\r");
        } else if c == '\t' {
            push_str(out, "\\t");
        } else {
            push_char(out, c);
        }
        proof {
            reveal_strlit("\\\"");
            reveal_strlit("\\\\");
            reveal_strlit("\\n");
            reveal_strlit("\\r");
            reveal_strlit("\\t");
            assert(out@ + escape(sv.skip(it.index() + 1)) =~= start + escape(sv));
        }
    }
    assert(sv.skip(sv.len() as int) =~= Seq::<char>::empty());
}

/// Appends `"` `s` `"` to `out`.
fn write_quoted(s: &str, out: &mut String)
    ensures
        final(out)@ == old(out)@ + quoted(s@),
{
    push_char(out, '"');
    push_str(out, s);
    push_char(out, '"');
    assert(out@ =~= old(out)@ + quoted(s@));
}

/// Appends the entries of an object written at the depth `indent` spells;
/// the object, as a map, holds no key twice at any depth.
fn write_entries(es: &VdfMap, indent: &String, out: &mut String)
    requires
        indent@ == tabs(indent@.len()),
    ensures
        final(out)@ == old(out)@ + ser_entries(vdf_map_entries(*es), indent@.len()),
        unique_keys(Vdf::Obj(vdf_map_entries(*es))),
    decreases depth(Vdf::Obj(vdf_map_entries(*es))),
{
    let ghost d = indent@.len();
    let ghost em = vdf_map_entries(*es);
    let ghost start = out@;
    proof {
        assert(em.skip(0) =~= em);
    }
    let n = es.len();
    let mut i: usize = 0;
    while i < n
        invariant
            i <= n == em.len(),
            em == vdf_map_entries(*es),
            indent@ == tabs(d),
            d == indent@.len(),
            start + ser_entries(em, d) == out@ + ser_entries(em.skip(i as int), d),
            forall|j: int| 0 <= j < i ==> unique_keys(#[trigger] em[j].1),
            forall|j: int, l: int| 0 <= j < i && 0 <= l < em.len() && l != j ==> #[trigger] em[l].0 != #[trigger] em[j].0,
        decreases n - i,
    {
        let (k, child) = es.get_index(i);
        let key: &str = k.as_str();
        proof {
            lemma_ser_entries_split(em, i as int, d);
        }
        push_str(out, indent.as_str());
        write_quoted(key, out);
        match child {
            VdfValue::String(v) => {
                push_str(out, "\t\t\"");
                write_escaped(v.as_str(), out);
                push_str(out, "\"\n");
                proof {
                    reveal_strlit("\t\t\"");
                    reveal_strlit("\"\n");
                }
            },
            VdfValue::Object(c) => {
                push_char(out, '\n');
                push_str(out, indent.as_str());
                push_str(out, "{\n");
                let mut inner = indent.clone();
                push_char(&mut inner, '\t');
                proof {
                    assert(inner@ =~= tabs(d + 1));
                    lemma_depth_entries(em, i as int);
                }
                write_entries(c, &inner, out);
                push_str(out, indent.as_str());
                push_str(out, "}\n");
                proof {
                    reveal_strlit("{\n");
                    reveal_strlit("}\n");
                }
            },
        }
        proof {
            assert(em.skip(i as int)[0] == em[i as int]);
            assert(em.skip(i as int).drop_first() =~= em.skip(i + 1));
            assert(out@ + ser_entries(em.skip(i + 1), d) =~= start + ser_entries(em, d));
            assert(unique_keys(em[i as int].1));
        }
        i = i + 1;
    }
    assert(em.skip(n as int) =~= Seq::<(Seq<char>, Vdf)>::empty());
    proof {
        assert forall|j: int, l: int| 0 <= j < l < em.len() implies #[trigger] em[j].0 != #[trigger] em[l].0 by {
            assert(em[l].0 != em[j].0);
        }
        assert(keys_distinct(em));
        lemma_all_unique_forall(em);
    }
}

proof fn lemma_ser_entries_split(es: Seq<(Seq<char>, Vdf)>, i: int, d: nat)
    requires
        0 <= i < es.len(),
    ensures
        ser_entries(es.skip(i), d) == ser_entry(es[i], d) + ser_entries(es.skip(i + 1), d),
{
    assert(es.skip(i)[0] == es[i]);
    assert(es.skip(i).drop_first() =~= es.skip(i + 1));
}

impl VdfValue {
    /// The VDF text of this tree (see [`serialize`]). For an object whose
    /// keys hold no quote and no backslash at any depth, parsing the text
    /// gives the object back.
    pub fn to_string(&self) -> (r: String)
        ensures
            r@ == serialize(self@),
            self@ is Obj && keys_ok(self@) ==> parse(r@) == Ok::<Vdf, VdfSyntaxError>(self@),
    {
        let mut out = String::new();
        match self {
            VdfValue::String(s) => {
                write_quoted(s.as_str(), &mut out);
            },
            VdfValue::Object(es) => {
                let indent = String::new();
                assert(indent@ =~= tabs(0));
                write_entries(es, &indent, &mut out);
                proof {
                    if keys_ok(self@) {
                        lemma_wf_of_unique_ok(self@);
                        law_parse_serialize_roundtrip(vdf_map_entries(*es));
                    }
                }
            },
        }
        assert(out@ =~= serialize(self@));
        out
    }
}

} // verus!
