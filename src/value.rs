//! Decoded values, key-value trees, and lookup by a path of keys.

use vstd::prelude::*;
use vstd::string::StringSliceAdditionalSpecFns;
use vstd::utf8::{encode_utf8, encode_utf8_decode_utf8};

verus! {

/// One decoded value; the tag byte on disk decides the variant.
#[derive(Debug)]
pub enum Value {
    StringType(String),
    WideStringType(String),
    Int32Type(i32),
    PointerType(i32),
    ColorType(i32),
    UInt64Type(u64),
    Int64Type(i64),
    /// The IEEE-754 single-precision value, as its raw bits.
    Float32Type(u32),
    KeyValueType(KeyValues),
}

/// A tree: entries of key and value, with no key twice once decoded.
#[derive(Debug)]
pub struct KeyValues {
    pub entries: Vec<(String, Value)>,
}

/// The mathematical form of a `Value`: strings as characters, trees as
/// sequences of (key, value) entries.
pub enum ValueModel {
    Str(Seq<char>),
    WideStr(Seq<char>),
    Int32(i32),
    Pointer(i32),
    Color(i32),
    UInt64(u64),
    Int64(i64),
    Float32(u32),
    Tree(Seq<(Seq<char>, ValueModel)>),
}

/// The mathematical form of a tree.
pub type TreeModel = Seq<(Seq<char>, ValueModel)>;

impl Value {
    pub open spec fn model(&self) -> ValueModel
        decreases self,
    {
        match self {
            Value::StringType(s) => ValueModel::Str(s@),
            Value::WideStringType(s) => ValueModel::WideStr(s@),
            Value::Int32Type(v) => ValueModel::Int32(*v),
            Value::PointerType(v) => ValueModel::Pointer(*v),
            Value::ColorType(v) => ValueModel::Color(*v),
            Value::UInt64Type(v) => ValueModel::UInt64(*v),
            Value::Int64Type(v) => ValueModel::Int64(*v),
            Value::Float32Type(v) => ValueModel::Float32(*v),
            Value::KeyValueType(kv) => ValueModel::Tree(entries_model(kv.entries@)),
        }
    }
}

/// The model of a run of entries, in order.
pub open spec fn entries_model(s: Seq<(String, Value)>) -> TreeModel
    decreases s,
{
    if s.len() == 0 {
        Seq::empty()
    } else {
        entries_model(s.drop_last()).push((s.last().0@, s.last().1.model()))
    }
}

/// Each entry of the model is the model of the entry at the same index.
pub proof fn lemma_entries_model(s: Seq<(String, Value)>)
    ensures
        entries_model(s).len() == s.len(),
        forall|i: int|
            0 <= i < s.len() ==> #[trigger] entries_model(s)[i] == (s[i].0@, s[i].1.model()),
    decreases s.len(),
{
    if s.len() > 0 {
        lemma_entries_model(s.drop_last());
    }
}

/// The index of the first entry with key `k` at or after `i`, or -1.
pub open spec fn key_index_from(t: TreeModel, k: Seq<char>, i: int) -> int
    decreases t.len() - i,
{
    if i < 0 || i >= t.len() {
        -1
    } else if t[i].0 == k {
        i
    } else {
        key_index_from(t, k, i + 1)
    }
}

/// The index of the first entry with key `k`, or -1.
pub open spec fn key_index(t: TreeModel, k: Seq<char>) -> int {
    key_index_from(t, k, 0)
}

/// The value stored under `k`, if any.
pub open spec fn tree_get(t: TreeModel, k: Seq<char>) -> Option<ValueModel> {
    let i = key_index(t, k);
    if 0 <= i < t.len() {
        Some(t[i].1)
    } else {
        None
    }
}

/// `t` with `v` stored under `k`: an entry with that key is replaced in place,
/// otherwise the entry is appended.
pub open spec fn tree_insert(t: TreeModel, k: Seq<char>, v: ValueModel) -> TreeModel {
    let i = key_index(t, k);
    if 0 <= i < t.len() {
        t.update(i, (k, v))
    } else {
        t.push((k, v))
    }
}

/// Whether no key occurs twice in `t`.
pub open spec fn keys_unique(t: TreeModel) -> bool {
    forall|i: int, j: int| 0 <= i < j < t.len() ==> t[i].0 != t[j].0
}

proof fn lemma_key_index_from(t: TreeModel, k: Seq<char>, i: int)
    requires
        0 <= i,
    ensures
        key_index_from(t, k, i) == -1 ==> forall|j: int| i <= j < t.len() ==> t[j].0 != k,
        key_index_from(t, k, i) != -1 ==> i <= key_index_from(t, k, i) < t.len() && t[key_index_from(
            t,
            k,
            i,
        )].0 == k,
    decreases t.len() - i,
{
    if i < t.len() {
        lemma_key_index_from(t, k, i + 1);
    }
}

/// Inserting keeps the keys of a tree distinct.
pub proof fn lemma_insert_keeps_keys_unique(t: TreeModel, k: Seq<char>, v: ValueModel)
    requires
        keys_unique(t),
    ensures
        keys_unique(tree_insert(t, k, v)),
{
    lemma_key_index_from(t, k, 0);
}

/// Descend through nested trees along `keys`: the value under the last key,
/// or `None` where a key is absent or an inner value is not a tree.
pub open spec fn lookup_path(t: TreeModel, keys: Seq<Seq<char>>) -> Option<ValueModel>
    decreases keys.len(),
{
    if keys.len() == 0 {
        None
    } else {
        match tree_get(t, keys[0]) {
            None => None,
            Some(v) => if keys.len() == 1 {
                Some(v)
            } else {
                match v {
                    ValueModel::Tree(sub) => lookup_path(sub, keys.drop_first()),
                    _ => None,
                }
            },
        }
    }
}

/// Whether `a` and `b` hold the same characters.
pub fn str_eq(a: &str, b: &str) -> (r: bool)
    ensures
        r == (a@ == b@),
{
    let x = a.as_bytes();
    let y = b.as_bytes();
    proof {
        assert(x@ == encode_utf8(a@));
        assert(y@ == encode_utf8(b@));
        encode_utf8_decode_utf8(a@);
        encode_utf8_decode_utf8(b@);
    }
    if x.len() != y.len() {
        return false;
    }
    let mut i: usize = 0;
    while i < x.len()
        invariant
            x@ == encode_utf8(a@),
            y@ == encode_utf8(b@),
            x@.len() == y@.len(),
            i <= x@.len(),
            forall|j: int| 0 <= j < i ==> x@[j] == y@[j],
        decreases x@.len() - i,
    {
        if x[i] != y[i] {
            return false;
        }
        i = i + 1;
    }
    assert(x@ =~= y@);
    true
}

impl KeyValues {
    pub open spec fn model(&self) -> TreeModel {
        entries_model(self.entries@)
    }

    /// An empty tree.
    pub fn new() -> (r: KeyValues)
        ensures
            r.model() == Seq::<(Seq<char>, ValueModel)>::empty(),
    {
        KeyValues { entries: Vec::new() }
    }

    /// The number of entries.
    pub fn len(&self) -> (r: usize)
        ensures
            r == self.model().len(),
    {
        proof {
            lemma_entries_model(self.entries@);
        }
        self.entries.len()
    }

    /// Store `value` under `key`, replacing the value of an entry with that key.
    pub fn insert(&mut self, key: String, value: Value)
        ensures
            final(self).model() == tree_insert(old(self).model(), key@, value.model()),
            keys_unique(old(self).model()) ==> keys_unique(final(self).model()),
    {
        let ghost t = old(self).model();
        proof {
            lemma_entries_model(self.entries@);
            if keys_unique(t) {
                lemma_insert_keeps_keys_unique(t, key@, value.model());
            }
        }
        let mut i: usize = 0;
        while i < self.entries.len()
            invariant
                self.entries@ == old(self).entries@,
                t == entries_model(self.entries@),
                t.len() == self.entries@.len(),
                i <= t.len(),
                key_index(t, key@) == key_index_from(t, key@, i as int),
                forall|j: int| 0 <= j < t.len() ==> #[trigger] t[j] == (
                    self.entries@[j].0@,
                    self.entries@[j].1.model(),
                ),
            decreases t.len() - i,
        {
            if self.entries[i].0 == key {
                let ghost e = (key@, value.model());
                self.entries.set(i, (key, value));
                proof {
                    lemma_entries_model(self.entries@);
                    assert(entries_model(self.entries@) =~= t.update(i as int, e));
                }
                return;
            }
            i = i + 1;
        }
        self.entries.push((key, value));
        proof {
            assert(self.entries@.drop_last() =~= old(self).entries@);
        }
    }

    /// The value stored under `key`, if any.
    pub fn get(&self, key: &str) -> (r: Option<&Value>)
        ensures
            match tree_get(self.model(), key@) {
                None => r is None,
                Some(v) => r matches Some(x) && x.model() == v,
            },
    {
        let ghost t = self.model();
        proof {
            lemma_entries_model(self.entries@);
        }
        let mut i: usize = 0;
        while i < self.entries.len()
            invariant
                t == entries_model(self.entries@),
                t.len() == self.entries@.len(),
                i <= t.len(),
                key_index(t, key@) == key_index_from(t, key@, i as int),
                forall|j: int| 0 <= j < t.len() ==> #[trigger] t[j] == (
                    self.entries@[j].0@,
                    self.entries@[j].1.model(),
                ),
            decreases t.len() - i,
        {
            if str_eq(self.entries[i].0.as_str(), key) {
                return Some(&self.entries[i].1);
            }
            i = i + 1;
        }
        None
    }
}

/// The keys of a path, as characters.
pub open spec fn path_model(keys: Seq<&str>) -> Seq<Seq<char>> {
    keys.map_values(|k: &str| k@)
}

/// Descend through nested trees along `keys[i..]`.
fn find_keys_from<'a>(kv: &'a KeyValues, keys: &[&str], i: usize) -> (r: Option<&'a Value>)
    requires
        i < keys@.len(),
    ensures
        match lookup_path(kv.model(), path_model(keys@).subrange(i as int, keys@.len() as int)) {
            None => r is None,
            Some(v) => r matches Some(x) && x.model() == v,
        },
    decreases keys@.len() - i,
{
    let ghost ks = path_model(keys@).subrange(i as int, keys@.len() as int);
    assert(ks[0] == keys@[i as int]@);
    let value = kv.get(keys[i]);
    if i + 1 == keys.len() {
        value
    } else {
        assert(ks.drop_first() =~= path_model(keys@).subrange(i + 1, keys@.len() as int));
        match value {
            Some(Value::KeyValueType(sub)) => find_keys_from(sub, keys, i + 1),
            _ => None,
        }
    }
}

/// Descend through nested trees along `keys`: every key but the last must
/// name a nested tree. An empty path, an absent key or a scalar in the way
/// gives `None`.
pub fn find_keys<'a>(kv: &'a KeyValues, keys: &[&str]) -> (r: Option<&'a Value>)
    ensures
        match lookup_path(kv.model(), path_model(keys@)) {
            None => r is None,
            Some(v) => r matches Some(x) && x.model() == v,
        },
{
    if keys.len() == 0 {
        return None;
    }
    assert(path_model(keys@).subrange(0, keys@.len() as int) =~= path_model(keys@));
    find_keys_from(kv, keys, 0)
}

} // verus!
