//! The line-preserving document model of an Apex configuration file.

use crate::game::apex::config::encoding::ApexFileEncoding;
use crate::text::{push_char, push_str, trim_char};
use vstd::prelude::*;

verus! {

broadcast use vstd::string::group_string_axioms;

/// One line of a configuration file.
#[derive(Debug, Clone, PartialEq)]
pub enum ApexCfgLine {
    /// A line kept as it was (comment, blank, brace, root name, bind, ...).
    Raw(String),
    /// `"key"<separator>"value"` or `key<separator>"value"` after `prefix`.
    KeyValue { key: String, value: String, prefix: String, separator: String },
}

/// The mathematical form of a line.
pub enum CfgLine {
    Raw(Seq<char>),
    KeyValue { key: Seq<char>, value: Seq<char>, prefix: Seq<char>, separator: Seq<char> },
}

impl View for ApexCfgLine {
    type V = CfgLine;

    open spec fn view(&self) -> CfgLine {
        match self {
            ApexCfgLine::Raw(s) => CfgLine::Raw(s@),
            ApexCfgLine::KeyValue { key, value, prefix, separator } => CfgLine::KeyValue {
                key: key@,
                value: value@,
                prefix: prefix@,
                separator: separator@,
            },
        }
    }
}

/// The text a line is written as.
pub open spec fn line_text(l: CfgLine) -> Seq<char> {
    match l {
        CfgLine::Raw(s) => s,
        CfgLine::KeyValue { key, value, prefix, separator } => prefix + key + separator + seq!['"'] + value
            + seq!['"'],
    }
}

pub open spec fn lines_view(ls: Seq<ApexCfgLine>) -> Seq<CfgLine> {
    ls.map_values(|l: ApexCfgLine| l@)
}

/// Lines joined by `'\n'`.
pub open spec fn join_lines(ls: Seq<Seq<char>>) -> Seq<char>
    decreases ls.len(),
{
    if ls.len() == 0 {
        seq![]
    } else if ls.len() == 1 {
        ls[0]
    } else {
        join_lines(ls.drop_last()) + seq!['\n'] + ls.last()
    }
}

/// The text of a whole document: its lines joined by `'\n'`, with a final
/// `'\n'` added when the text is not empty and does not end in one.
pub open spec fn doc_text(ls: Seq<CfgLine>) -> Seq<char> {
    let j = join_lines(ls.map_values(|l: CfgLine| line_text(l)));
    if j.len() > 0 && j.last() != '\n' {
        j.push('\n')
    } else {
        j
    }
}

/// Whether line `l` is a key/value line that `ApexCfgDocument::get(key)` finds.
pub open spec fn get_matches(l: CfgLine, key: Seq<char>) -> bool {
    match l {
        CfgLine::KeyValue { key: k, .. } => k == key || trim_char(k, '"') == key,
        CfgLine::Raw(_) => false,
    }
}

/// Index of the last line that `get(key)` finds, or `-1`.
pub open spec fn last_match(ls: Seq<CfgLine>, key: Seq<char>) -> int
    decreases ls.len(),
{
    if ls.len() == 0 {
        -1
    } else if get_matches(ls.last(), key) {
        ls.len() - 1
    } else {
        last_match(ls.drop_last(), key)
    }
}

pub proof fn lemma_last_match(ls: Seq<CfgLine>, key: Seq<char>, i: int)
    requires
        -1 <= i < ls.len(),
        forall|j: int| i < j < ls.len() ==> !get_matches(#[trigger] ls[j], key),
        i == -1 || get_matches(ls[i], key),
    ensures
        last_match(ls, key) == i,
    decreases ls.len(),
{
    if ls.len() > 0 && i < ls.len() - 1 {
        let t = ls.drop_last();
        assert(!get_matches(ls[ls.len() - 1], key));
        assert forall|j: int| i < j < t.len() implies !get_matches(#[trigger] t[j], key) by {
            assert(t[j] == ls[j]);
        }
        if i >= 0 {
            assert(t[i] == ls[i]);
        }
        lemma_last_match(t, key, i);
    }
}

/// The value `get(key)` returns for lines `ls`.
pub open spec fn get_value(ls: Seq<CfgLine>, key: Seq<char>) -> Option<Seq<char>> {
    let i = last_match(ls, key);
    if i >= 0 {
        match ls[i] {
            CfgLine::KeyValue { value, .. } => Some(value),
            CfgLine::Raw(_) => None,
        }
    } else {
        None
    }
}

/// Position of the first pair whose key is `k`, or `-1`.
pub open spec fn pair_pos(es: Seq<(Seq<char>, Seq<char>)>, k: Seq<char>) -> int
    decreases es.len(),
{
    if es.len() == 0 {
        -1
    } else if es[0].0 == k {
        0
    } else {
        let r = pair_pos(es.drop_first(), k);
        if r < 0 {
            -1
        } else {
            r + 1
        }
    }
}

/// `IndexMap::insert` on the pairs of a map: a present key keeps its place
/// and takes the new value, a new key goes last.
pub open spec fn pairs_insert(es: Seq<(Seq<char>, Seq<char>)>, k: Seq<char>, v: Seq<char>) -> Seq<(Seq<char>, Seq<char>)> {
    let p = pair_pos(es, k);
    if p >= 0 {
        es.update(p, (k, v))
    } else {
        es.push((k, v))
    }
}

#[verifier::external_type_specification]
#[verifier::external_body]
#[verifier::reject_recursive_types(K)]
#[verifier::reject_recursive_types(V)]
#[verifier::reject_recursive_types(S)]
pub struct ExIndexMap<K, V, S>(indexmap::IndexMap<K, V, S>);

/// The key/value pairs of an `IndexMap<String, String>`, in map order.
pub uninterp spec fn string_map_pairs(m: indexmap::IndexMap<String, String>) -> Seq<(Seq<char>, Seq<char>)>;

/// `IndexMap::new`: a map without pairs.
#[verifier::external_body]
pub(crate) fn string_map_new() -> (m: indexmap::IndexMap<String, String>)
    ensures
        string_map_pairs(m) == Seq::<(Seq<char>, Seq<char>)>::empty(),
{
    indexmap::IndexMap::new()
}

/// `IndexMap::insert`: an equal key keeps its place and takes the value,
/// a new key goes last.
#[verifier::external_body]
pub(crate) fn string_map_insert(m: &mut indexmap::IndexMap<String, String>, k: String, v: String)
    ensures
        string_map_pairs(*final(m)) == pairs_insert(string_map_pairs(*old(m)), k@, v@),
{
    m.insert(k, v);
}

/// The pairs `key_values` collects from lines `ls`, later keys overriding.
pub open spec fn kv_pairs(ls: Seq<CfgLine>) -> Seq<(Seq<char>, Seq<char>)>
    decreases ls.len(),
{
    if ls.len() == 0 {
        seq![]
    } else {
        match ls.last() {
            CfgLine::KeyValue { key, value, .. } => pairs_insert(kv_pairs(ls.drop_last()), key, value),
            CfgLine::Raw(_) => kv_pairs(ls.drop_last()),
        }
    }
}

/// A parsed configuration file.
#[derive(Debug, Clone, PartialEq)]
pub struct ApexCfgDocument {
    pub lines: Vec<ApexCfgLine>,
    pub root_name: Option<String>,
    pub encoding: ApexFileEncoding,
}

impl ApexCfgLine {
    /// The key of a key/value line.
    pub fn key(&self) -> (r: Option<&str>)
        ensures
            match self@ {
                CfgLine::KeyValue { key, .. } => r is Some && r.unwrap()@ == key,
                CfgLine::Raw(_) => r is None,
            },
    {
        match self {
            ApexCfgLine::KeyValue { key, .. } => Some(key.as_str()),
            _ => None,
        }
    }

    /// The value of a key/value line.
    pub fn value(&self) -> (r: Option<&str>)
        ensures
            match self@ {
                CfgLine::KeyValue { value, .. } => r is Some && r.unwrap()@ == value,
                CfgLine::Raw(_) => r is None,
            },
    {
        match self {
            ApexCfgLine::KeyValue { value, .. } => Some(value.as_str()),
            _ => None,
        }
    }

    /// The text this line is written as (see [`line_text`]).
    pub fn to_line_string(&self) -> (r: String)
        ensures
            r@ == line_text(self@),
    {
        match self {
            ApexCfgLine::Raw(s) => s.clone(),
            ApexCfgLine::KeyValue { key, value, prefix, separator } => {
                let mut out = prefix.clone();
                push_str(&mut out, key.as_str());
                push_str(&mut out, separator.as_str());
                push_char(&mut out, '"');
                push_str(&mut out, value.as_str());
                push_char(&mut out, '"');
                assert(out@ =~= line_text(self@));
                out
            },
        }
    }
}

impl ApexCfgDocument {
    /// An empty UTF-8 document.
    pub fn new() -> (r: Self)
        ensures
            r.lines@.len() == 0,
            r.root_name is None,
            r.encoding == ApexFileEncoding::Utf8,
    {
        ApexCfgDocument { lines: Vec::new(), root_name: None, encoding: ApexFileEncoding::Utf8 }
    }

    /// Every key/value pair in file order, a repeated key keeping its first
    /// place and its last value.
    pub fn key_values(&self) -> (r: indexmap::IndexMap<String, String>)
        ensures
            string_map_pairs(r) == kv_pairs(lines_view(self.lines@)),
    {
        let ghost ls = lines_view(self.lines@);
        let mut map = string_map_new();
        let mut i: usize = 0;
        assert(ls.take(0) =~= Seq::<CfgLine>::empty());
        while i < self.lines.len()
            invariant
                i <= self.lines.len(),
                ls == lines_view(self.lines@),
                string_map_pairs(map) == kv_pairs(ls.take(i as int)),
            decreases self.lines.len() - i,
        {
            proof {
                assert(ls.take(i + 1).drop_last() =~= ls.take(i as int));
                assert(ls.take(i + 1).last() == self.lines@[i as int]@);
            }
            match &self.lines[i] {
                ApexCfgLine::KeyValue { key, value, .. } => {
                    string_map_insert(&mut map, key.clone(), value.clone());
                },
                ApexCfgLine::Raw(_) => {},
            }
            i = i + 1;
        }
        assert(ls.take(self.lines.len() as int) =~= ls);
        map
    }

    /// The text of the document (see [`doc_text`]).
    pub fn to_string(&self) -> (r: String)
        ensures
            r@ == doc_text(lines_view(self.lines@)),
    {
        let ghost lv = lines_view(self.lines@);
        let ghost texts = lv.map_values(|l: CfgLine| line_text(l));
        let mut out = String::new();
        let mut i: usize = 0;
        while i < self.lines.len()
            invariant
                i <= self.lines.len(),
                lv == lines_view(self.lines@),
                texts == lv.map_values(|l: CfgLine| line_text(l)),
                out@ == join_lines(texts.take(i as int)),
            decreases self.lines.len() - i,
        {
            let ghost before = out@;
            if i > 0 {
                push_char(&mut out, '\n');
            }
            let piece = self.lines[i].to_line_string();
            push_str(&mut out, piece.as_str());
            proof {
                let tk = texts.take(i + 1);
                assert(tk.drop_last() =~= texts.take(i as int));
                assert(tk.last() == line_text(self.lines@[i as int]@));
                if i == 0 {
                    assert(before =~= Seq::<char>::empty());
                    assert(out@ =~= join_lines(tk));
                } else {
                    assert(out@ =~= join_lines(tk));
                }
            }
            i = i + 1;
        }
        proof {
            assert(texts.take(self.lines.len() as int) =~= texts);
        }
        let n = out.as_str().unicode_len();
        if n > 0 && out.as_str().get_char(n - 1) != '\n' {
            push_char(&mut out, '\n');
        }
        out
    }
}

impl Default for ApexCfgDocument {
    /// The empty UTF-8 document of [`ApexCfgDocument::new`].
    fn default() -> (r: Self)
        ensures
            r.lines@.len() == 0,
            r.root_name is None,
            r.encoding == ApexFileEncoding::Utf8,
    {
        Self::new()
    }
}

} // verus!
