//! Reading and writing VDF trees by key paths.

use crate::text::strs_view;
use crate::vdf::value::{vdf_map_entries, Vdf, VdfMap, VdfValue};
use vstd::prelude::*;

verus! {

broadcast use vstd::string::group_string_axioms;

/// Position of the first entry whose key is `k`, or `-1`.
pub open spec fn key_pos(es: Seq<(Seq<char>, Vdf)>, k: Seq<char>) -> int
    decreases es.len(),
{
    if es.len() == 0 {
        -1
    } else if es[0].0 == k {
        0
    } else {
        let r = key_pos(es.drop_first(), k);
        if r < 0 {
            -1
        } else {
            r + 1
        }
    }
}

pub proof fn lemma_key_pos(es: Seq<(Seq<char>, Vdf)>, k: Seq<char>)
    ensures
        -1 <= key_pos(es, k) < es.len(),
        key_pos(es, k) >= 0 ==> es[key_pos(es, k)].0 == k,
        forall|j: int| 0 <= j < es.len() && (key_pos(es, k) < 0 || j < key_pos(es, k)) ==> #[trigger] es[j].0 != k,
    decreases es.len(),
{
    if es.len() > 0 && es[0].0 != k {
        let t = es.drop_first();
        lemma_key_pos(t, k);
        assert forall|j: int| 0 <= j < es.len() && (key_pos(es, k) < 0 || j < key_pos(es, k)) implies #[trigger] es[j].0 != k by {
            if j > 0 {
                assert(es[j] == t[j - 1]);
            }
        }
    }
}

/// IndexMap-style insertion: a present key keeps its place and takes the new
/// value, a new key goes last.
pub open spec fn entries_insert(es: Seq<(Seq<char>, Vdf)>, k: Seq<char>, v: Vdf) -> Seq<(Seq<char>, Vdf)> {
    let p = key_pos(es, k);
    if p >= 0 {
        es.update(p, (k, v))
    } else {
        es.push((k, v))
    }
}

/// The child stored under key `k`, if `m` is an object that has one.
pub open spec fn lookup(m: Vdf, k: Seq<char>) -> Option<Vdf> {
    match m {
        Vdf::Obj(es) => {
            let p = key_pos(es, k);
            if p >= 0 {
                Some(es[p].1)
            } else {
                None
            }
        },
        Vdf::Str(_) => None,
    }
}

/// The node reached from `m` by following the keys of `path` in turn.
pub open spec fn get_path(m: Vdf, path: Seq<Seq<char>>) -> Option<Vdf>
    decreases path.len(),
{
    if path.len() == 0 {
        Some(m)
    } else {
        match lookup(m, path[0]) {
            Some(c) => get_path(c, path.drop_first()),
            None => None,
        }
    }
}

/// `m` with the node at `path` (which exists) replaced by `n`.
pub open spec fn update_path(m: Vdf, path: Seq<Seq<char>>, n: Vdf) -> Vdf
    decreases path.len(),
{
    if path.len() == 0 {
        n
    } else {
        match m {
            Vdf::Obj(es) => {
                let p = key_pos(es, path[0]);
                if p >= 0 {
                    Vdf::Obj(es.update(p, (es[p].0, update_path(es[p].1, path.drop_first(), n))))
                } else {
                    m
                }
            },
            Vdf::Str(_) => m,
        }
    }
}

/// Why a write by path was refused.
pub enum SetPathError {
    PathNotFound,
    ParentNotObject,
}

/// The tree after writing `x` at `path`: the whole tree for an empty path,
/// else an insertion into the object that `path` without its last key reaches.
pub open spec fn set_path(m: Vdf, path: Seq<Seq<char>>, x: Vdf) -> Result<Vdf, SetPathError> {
    if path.len() == 0 {
        Ok(x)
    } else {
        match get_path(m, path.drop_last()) {
            None => Err(SetPathError::PathNotFound),
            Some(Vdf::Str(_)) => Err(SetPathError::ParentNotObject),
            Some(Vdf::Obj(es)) => Ok(
                update_path(m, path.drop_last(), Vdf::Obj(entries_insert(es, path.last(), x))),
            ),
        }
    }
}

impl VdfValue {
    /// An empty object.
    pub fn new_object() -> (r: VdfValue)
        ensures
            r@ == Vdf::Obj(seq![]),
    {
        VdfValue::Object(VdfMap::new())
    }

    /// A string leaf.
    pub fn new_string(s: &str) -> (r: VdfValue)
        ensures
            r@ == Vdf::Str(s@),
    {
        VdfValue::String(s.to_string())
    }

    /// The characters of a string leaf.
    pub fn as_string(&self) -> (r: Option<&str>)
        ensures
            match self@ {
                Vdf::Str(s) => r is Some && r.unwrap()@ == s,
                Vdf::Obj(_) => r is None,
            },
    {
        match self {
            VdfValue::String(s) => Some(s.as_str()),
            VdfValue::Object(_) => None,
        }
    }

    /// The entries of an object.
    pub fn as_object(&self) -> (r: Option<&VdfMap>)
        ensures
            match self@ {
                Vdf::Obj(es) => r is Some && vdf_map_entries(*r.unwrap()) == es,
                Vdf::Str(_) => r is None,
            },
    {
        match self {
            VdfValue::String(_) => None,
            VdfValue::Object(es) => Some(es),
        }
    }

    /// The node that the first `n` keys of `path` lead to.
    fn get_by_prefix(&self, path: &[&str], n: usize) -> (r: Option<&VdfValue>)
        requires
            n <= path.len(),
        ensures
            match r {
                Some(x) => get_path(self@, strs_view(path@).take(n as int)) == Some(x@),
                None => get_path(self@, strs_view(path@).take(n as int)) is None,
            },
    {
        let ghost pm = strs_view(path@).take(n as int);
        let mut current: &VdfValue = self;
        let mut index: usize = 0;
        assert(pm.skip(0) =~= pm);
        while index < n
            invariant
                index <= n <= path.len(),
                pm == strs_view(path@).take(n as int),
                get_path(self@, pm) == get_path(current@, pm.skip(index as int)),
            decreases n - index,
        {
            let key: &str = path[index];
            proof {
                assert(pm.skip(index as int)[0] == key@);
                assert(pm.skip(index as int).drop_first() =~= pm.skip(index + 1));
            }
            match current {
                VdfValue::Object(es) => {
                    match es.get_index_of(key) {
                        Some(i) => {
                            proof {
                                lemma_key_pos(vdf_map_entries(*es), key@);
                            }
                            current = es.get_index(i).1;
                        },
                        None => {
                            return None;
                        },
                    }
                },
                VdfValue::String(_) => {
                    return None;
                },
            }
            index = index + 1;
        }
        assert(pm.skip(n as int) =~= Seq::<Seq<char>>::empty());
        Some(current)
    }

    fn get_mut_from(&mut self, path: &[&str], k: usize) -> (r: Option<&mut VdfValue>)
        requires
            k <= path@.len(),
        ensures
            r matches Some(n) ==> get_path(old(self)@, strs_view(path@).skip(k as int)) == Some(n@),
            r matches Some(n) ==> final(self)@ == update_path(old(self)@, strs_view(path@).skip(k as int), final(n)@),
            r is None ==> get_path(old(self)@, strs_view(path@).skip(k as int)) is None,
            r is None ==> final(self)@ == old(self)@,
        decreases path@.len() - k,
    {
        let ghost pm = strs_view(path@).skip(k as int);
        if k == path.len() {
            assert(pm =~= Seq::<Seq<char>>::empty());
            return Some(self);
        }
        let key: &str = path[k];
        assert(pm[0] == key@);
        assert(pm.drop_first() =~= strs_view(path@).skip(k + 1));
        match self {
            VdfValue::Object(es) => {
                match es.get_index_of(key) {
                    Some(i) => {
                        proof {
                            lemma_key_pos(vdf_map_entries(*es), key@);
                        }
                        let ghost es0 = vdf_map_entries(*es);
                        proof {
                            assert(es0.update(i as int, (es0[i as int].0, es0[i as int].1)) =~= es0);
                        }
                        let child: &mut VdfValue = es.get_index_mut(i);
                        child.get_mut_from(path, k + 1)
                    },
                    None => None,
                }
            },
            VdfValue::String(_) => None,
        }
    }

    /// The node that `path` leads to, to change in place; the node itself
    /// for an empty path. The tree afterwards is the tree with that node
    /// replaced by what it became.
    pub fn get_mut_by_path(&mut self, path: &[&str]) -> (r: Option<&mut VdfValue>)
        ensures
            match r {
                Some(n) => get_path(old(self)@, strs_view(path@)) == Some(n@) && final(self)@ == update_path(
                    old(self)@,
                    strs_view(path@),
                    final(n)@,
                ),
                None => get_path(old(self)@, strs_view(path@)) is None && final(self)@ == old(self)@,
            },
    {
        assert(strs_view(path@).skip(0) =~= strs_view(path@));
        self.get_mut_from(path, 0)
    }

    /// The node that `path` leads to; the node itself for an empty path.
    pub fn get_by_path(&self, path: &[&str]) -> (r: Option<&VdfValue>)
        ensures
            match r {
                Some(n) => get_path(self@, strs_view(path@)) == Some(n@),
                None => get_path(self@, strs_view(path@)) is None,
            },
    {
        assert(strs_view(path@).take(path@.len() as int) =~= strs_view(path@));
        self.get_by_prefix(path, path.len())
    }
}

impl VdfValue {
    /// Inserts `key` into an object as `IndexMap::insert` does; a string
    /// leaf is left as it was and refused.
    pub fn insert(&mut self, key: &str, value: VdfValue) -> (r: Result<(), String>)
        ensures
            match old(self)@ {
                Vdf::Obj(es) => r is Ok && final(self)@ == Vdf::Obj(entries_insert(es, key@, value@)),
                Vdf::Str(_) => r matches Err(e) && e@ == "Not an object"@ && final(self)@ == old(self)@,
            },
    {
        match self {
            VdfValue::Object(es) => {
                es.insert(key.to_string(), value);
                Ok(())
            },
            VdfValue::String(_) => Err("Not an object".to_string()),
        }
    }
}

/// Inserts `key` into the object that `path[idx..n]` leads to from `node`.
fn insert_at(node: &mut VdfValue, path: &[&str], idx: usize, n: usize, key: &str, value: VdfValue)
    requires
        idx <= n <= path.len(),
        get_path(old(node)@, strs_view(path@).subrange(idx as int, n as int)) matches Some(Vdf::Obj(_)),
    ensures
        get_path(old(node)@, strs_view(path@).subrange(idx as int, n as int)) matches Some(Vdf::Obj(es))
            && final(node)@ == update_path(
            old(node)@,
            strs_view(path@).subrange(idx as int, n as int),
            Vdf::Obj(entries_insert(es, key@, value@)),
        ),
    decreases n - idx,
{
    let ghost pm = strs_view(path@).subrange(idx as int, n as int);
    if idx == n {
        let _ = node.insert(key, value);
    } else {
        let k: &str = path[idx];
        proof {
            assert(pm[0] == k@);
            assert(pm.drop_first() =~= strs_view(path@).subrange(idx + 1, n as int));
        }
        match node {
            VdfValue::Object(es) => {
                match es.get_index_of(k) {
                    Some(i) => {
                        proof {
                            lemma_key_pos(vdf_map_entries(*es), k@);
                        }
                        let child: &mut VdfValue = es.get_index_mut(i);
                        insert_at(child, path, idx + 1, n, key, value);
                    },
                    None => {},
                }
            },
            VdfValue::String(_) => {},
        }
    }
}

impl VdfValue {
    /// Writes `value` at `path`: the whole tree for an empty path, else an
    /// insertion under the last key into the object the other keys lead to.
    pub fn set_by_path(&mut self, path: &[&str], value: VdfValue) -> (r: Result<(), String>)
        ensures
            match set_path(old(self)@, strs_view(path@), value@) {
                Ok(m) => r is Ok && final(self)@ == m,
                Err(SetPathError::PathNotFound) => r matches Err(e) && e@ == "Path not found"@
                    && final(self)@ == old(self)@,
                Err(SetPathError::ParentNotObject) => r matches Err(e) && e@
                    == "Parent is not an object"@ && final(self)@ == old(self)@,
            },
    {
        if path.len() == 0 {
            *self = value;
            return Ok(());
        }
        let n = path.len() - 1;
        let ghost pm = strs_view(path@);
        proof {
            assert(pm.drop_last() =~= pm.take(n as int));
            assert(pm.take(n as int) =~= pm.subrange(0, n as int));
            assert(pm.last() == path@[n as int]@);
        }
        let is_object = match self.get_by_prefix(path, n) {
            None => {
                return Err("Path not found".to_string());
            },
            Some(VdfValue::String(_)) => false,
            Some(VdfValue::Object(_)) => true,
        };
        if !is_object {
            return Err("Parent is not an object".to_string());
        }
        insert_at(self, path, 0, n, path[n], value);
        Ok(())
    }

    /// Writes a string leaf at `path`.
    pub fn set_value_by_path(&mut self, path: &[&str], value: &str) -> (r: Result<(), String>)
        ensures
            match set_path(old(self)@, strs_view(path@), Vdf::Str(value@)) {
                Ok(m) => r is Ok && final(self)@ == m,
                Err(SetPathError::PathNotFound) => r matches Err(e) && e@ == "Path not found"@
                    && final(self)@ == old(self)@,
                Err(SetPathError::ParentNotObject) => r matches Err(e) && e@
                    == "Parent is not an object"@ && final(self)@ == old(self)@,
            },
    {
        self.set_by_path(path, VdfValue::String(value.to_string()))
    }

    /// Writes an object with the entries `value` at `path`.
    pub fn set_object_by_path(&mut self, path: &[&str], value: VdfMap) -> (r: Result<(), String>)
        ensures
            match set_path(old(self)@, strs_view(path@), Vdf::Obj(vdf_map_entries(value))) {
                Ok(m) => r is Ok && final(self)@ == m,
                Err(SetPathError::PathNotFound) => r matches Err(e) && e@ == "Path not found"@
                    && final(self)@ == old(self)@,
                Err(SetPathError::ParentNotObject) => r matches Err(e) && e@
                    == "Parent is not an object"@ && final(self)@ == old(self)@,
            },
    {
        self.set_by_path(path, VdfValue::Object(value))
    }

    /// The string leaf that `path` leads to.
    pub fn get_value_by_path(&self, path: &[&str]) -> (r: Option<&str>)
        ensures
            match get_path(self@, strs_view(path@)) {
                Some(Vdf::Str(s)) => r is Some && r.unwrap()@ == s,
                _ => r is None,
            },
    {
        match self.get_by_path(path) {
            Some(v) => v.as_string(),
            None => None,
        }
    }

    /// The child stored under `key`.
    pub fn get(&self, key: &str) -> (r: Option<&VdfValue>)
        ensures
            match r {
                Some(n) => lookup(self@, key@) == Some(n@),
                None => lookup(self@, key@) is None,
            },
    {
        let path: [&str; 1] = [key];
        let r = self.get_by_path(&path);
        proof {
            let pm = strs_view(path@);
            assert(pm.len() == 1 && pm[0] == key@);
            assert(pm.drop_first() =~= Seq::<Seq<char>>::empty());
            reveal_with_fuel(get_path, 2);
        }
        r
    }

    /// The string leaf stored under `key`.
    pub fn get_value(&self, key: &str) -> (r: Option<&str>)
        ensures
            match lookup(self@, key@) {
                Some(Vdf::Str(s)) => r is Some && r.unwrap()@ == s,
                _ => r is None,
            },
    {
        match self.get(key) {
            Some(v) => v.as_string(),
            None => None,
        }
    }

    /// Whether `path` leads to a node.
    pub fn path_exists(&self, path: &[&str]) -> (r: bool)
        ensures
            r == (get_path(self@, strs_view(path@)) is Some),
    {
        self.get_by_path(path).is_some()
    }
}

pub proof fn lemma_key_pos_is(es: Seq<(Seq<char>, Vdf)>, k: Seq<char>, i: int)
    requires
        0 <= i <= es.len(),
        forall|j: int| 0 <= j < i ==> #[trigger] es[j].0 != k,
        i == es.len() || es[i].0 == k,
    ensures
        key_pos(es, k) == if i == es.len() {
            -1
        } else {
            i
        },
    decreases i,
{
    if i > 0 {
        let t = es.drop_first();
        assert forall|j: int| 0 <= j < i - 1 implies #[trigger] t[j].0 != k by {
            assert(t[j] == es[j + 1]);
        }
        if i < es.len() {
            assert(t[i - 1] == es[i]);
        }
        lemma_key_pos_is(t, k, i - 1);
    }
}

proof fn lemma_get_update(m: Vdf, q: Seq<Seq<char>>, n: Vdf)
    requires
        get_path(m, q) is Some,
    ensures
        get_path(update_path(m, q, n), q) == Some(n),
    decreases q.len(),
{
    if q.len() > 0 {
        match m {
            Vdf::Obj(es) => {
                let p = key_pos(es, q[0]);
                lemma_key_pos(es, q[0]);
                let c2 = update_path(es[p].1, q.drop_first(), n);
                let es2 = es.update(p, (es[p].0, c2));
                lemma_get_update(es[p].1, q.drop_first(), n);
                assert forall|j: int| 0 <= j < p implies #[trigger] es2[j].0 != q[0] by {
                    assert(es2[j] == es[j]);
                }
                lemma_key_pos_is(es2, q[0], p);
                assert(lookup(update_path(m, q, n), q[0]) == Some(c2));
            },
            Vdf::Str(_) => {},
        }
    }
}

proof fn lemma_get_concat(m: Vdf, a: Seq<Seq<char>>, b: Seq<Seq<char>>)
    ensures
        get_path(m, a + b) == match get_path(m, a) {
            Some(n) => get_path(n, b),
            None => None,
        },
    decreases a.len(),
{
    if a.len() == 0 {
        assert(a + b =~= b);
    } else {
        assert((a + b)[0] == a[0]);
        assert((a + b).drop_first() =~= a.drop_first() + b);
        match lookup(m, a[0]) {
            Some(c) => lemma_get_concat(c, a.drop_first(), b),
            None => {},
        }
    }
}

proof fn lemma_lookup_insert(es: Seq<(Seq<char>, Vdf)>, k: Seq<char>, x: Vdf, k2: Seq<char>)
    ensures
        lookup(Vdf::Obj(entries_insert(es, k, x)), k2) == if k2 == k {
            Some(x)
        } else {
            lookup(Vdf::Obj(es), k2)
        },
{
    let es2 = entries_insert(es, k, x);
    lemma_key_pos(es, k);
    lemma_key_pos(es, k2);
    let p = key_pos(es, k);
    let p2 = key_pos(es, k2);
    let i2 = if p2 >= 0 { p2 } else { es.len() as int };
    if p >= 0 {
        if k2 == k {
            assert forall|j: int| 0 <= j < p implies #[trigger] es2[j].0 != k2 by {
                assert(es2[j] == es[j]);
            }
            lemma_key_pos_is(es2, k2, p);
        } else {
            assert forall|j: int| 0 <= j < i2 implies #[trigger] es2[j].0 != k2 by {
                assert(es2[j].0 == es[j].0);
            }
            if p2 >= 0 {
                assert(es2[p2].0 == es[p2].0);
            }
            lemma_key_pos_is(es2, k2, i2);
            if p2 >= 0 {
                assert(es2[p2] == es[p2]);
            }
        }
    } else {
        if k2 == k {
            assert forall|j: int| 0 <= j < es.len() implies #[trigger] es2[j].0 != k2 by {
                assert(es2[j] == es[j]);
            }
            lemma_key_pos_is(es2, k2, es.len() as int);
        } else {
            if p2 >= 0 {
                assert forall|j: int| 0 <= j < p2 implies #[trigger] es2[j].0 != k2 by {
                    assert(es2[j] == es[j]);
                }
                assert(es2[p2] == es[p2]);
                lemma_key_pos_is(es2, k2, p2);
            } else {
                assert forall|j: int| 0 <= j < es2.len() implies #[trigger] es2[j].0 != k2 by {
                    if j < es.len() {
                        assert(es2[j] == es[j]);
                    }
                }
                lemma_key_pos_is(es2, k2, es2.len() as int);
            }
        }
    }
}

/// Reading a path right after a successful write at that path gives back
/// exactly the value written.
pub proof fn law_get_after_set(m: Vdf, path: Seq<Seq<char>>, x: Vdf)
    requires
        set_path(m, path, x) is Ok,
    ensures
        get_path(set_path(m, path, x)->Ok_0, path) == Some(x),
{
    if path.len() > 0 {
        let q = path.drop_last();
        let k = path.last();
        let es = get_path(m, q)->Some_0->Obj_0;
        let n = Vdf::Obj(entries_insert(es, k, x));
        let m2 = update_path(m, q, n);
        lemma_get_update(m, q, n);
        assert(path =~= q + seq![k]);
        lemma_get_concat(m2, q, seq![k]);
        lemma_lookup_insert(es, k, x, k);
        assert(seq![k].drop_first() =~= Seq::<Seq<char>>::empty());
        reveal_with_fuel(get_path, 2);
        assert(get_path(n, seq![k]) == Some(x));
    }
}

/// Inserting under one key of an object leaves what every other key holds
/// unchanged.
pub proof fn law_insert_keeps_other_keys(es: Seq<(Seq<char>, Vdf)>, k: Seq<char>, x: Vdf, k2: Seq<char>)
    requires
        k2 != k,
    ensures
        lookup(Vdf::Obj(entries_insert(es, k, x)), k2) == lookup(Vdf::Obj(es), k2),
{
    lemma_lookup_insert(es, k, x, k2);
}

} // verus!
