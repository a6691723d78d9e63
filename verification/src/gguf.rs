//! A model file's directory: its metadata and the tensors that it holds.
use vstd::prelude::*;

use crate::tensor::DType;
use crate::text::same_text;

verus! {

/// A metadata value. A floating-point number is held as its 64 bits.
pub enum MetaValue {
    U64(u64),
    I64(i64),
    F64(u64),
    Bool(bool),
    Str(String),
    Arr(Vec<MetaValue>),
}

impl MetaValue {
    /// The value as an unsigned number, where it is one.
    pub open spec fn unsigned(&self) -> Option<u64> {
        match self {
            MetaValue::U64(x) => Some(*x),
            MetaValue::I64(x) => if *x >= 0 {
                Some(*x as u64)
            } else {
                None
            },
            _ => None,
        }
    }

    /// The value as an unsigned number, where it is one.
    pub fn as_u64(&self) -> (r: Option<u64>)
        ensures
            r == self.unsigned(),
    {
        match self {
            MetaValue::U64(x) => Some(*x),
            MetaValue::I64(x) => if *x >= 0 {
                Some(*x as u64)
            } else {
                None
            },
            _ => None,
        }
    }

    /// The items of an array.
    pub fn as_arr(&self) -> (r: Option<&Vec<MetaValue>>)
        ensures
            match self {
                MetaValue::Arr(v) => r == Some(v),
                _ => r is None,
            },
    {
        match self {
            MetaValue::Arr(v) => Some(v),
            _ => None,
        }
    }
}

/// Key-value pairs of a model file.
pub struct Metadata {
    entries: Vec<(String, MetaValue)>,
}

/// Position of the first pair with key `key`, or the number of pairs.
pub open spec fn key_position(entries: Seq<(String, MetaValue)>, key: Seq<char>) -> int
    decreases entries.len(),
{
    if entries.len() == 0 {
        0
    } else if entries[0].0@ == key {
        0
    } else {
        1 + key_position(entries.drop_first(), key)
    }
}

proof fn lemma_key_position(entries: Seq<(String, MetaValue)>, key: Seq<char>, i: int)
    requires
        0 <= i <= entries.len(),
        forall|k: int| 0 <= k < i ==> (#[trigger] entries[k]).0@ != key,
        i < entries.len() ==> entries[i].0@ == key,
    ensures
        key_position(entries, key) == i,
    decreases entries.len(),
{
    if i > 0 {
        assert(entries[0].0@ != key);
        let rest = entries.drop_first();
        assert forall|k: int| 0 <= k < i - 1 implies (#[trigger] rest[k]).0@ != key by {
            assert(rest[k] == entries[k + 1]);
        }
        lemma_key_position(rest, key, i - 1);
    }
}

proof fn lemma_key_position_bounds(entries: Seq<(String, MetaValue)>, key: Seq<char>)
    ensures
        0 <= key_position(entries, key) <= entries.len(),
        key_position(entries, key) < entries.len() ==> entries[key_position(entries, key)].0@
            == key,
        forall|k: int| 0 <= k < key_position(entries, key) ==> (#[trigger] entries[k]).0@ != key,
    decreases entries.len(),
{
    if entries.len() > 0 && entries[0].0@ != key {
        let rest = entries.drop_first();
        lemma_key_position_bounds(rest, key);
        let p = key_position(rest, key);
        if p < rest.len() {
            assert(rest[p] == entries[p + 1]);
        }
        assert forall|k: int| 0 <= k < p + 1 implies (#[trigger] entries[k]).0@ != key by {
            if k > 0 {
                assert(rest[k - 1] == entries[k]);
            }
        }
    }
}

/// The pairs as a map: the first pair with a key counts.
pub open spec fn as_map(entries: Seq<(String, MetaValue)>) -> Map<Seq<char>, MetaValue> {
    Map::new(
        |key: Seq<char>| key_position(entries, key) < entries.len(),
        |key: Seq<char>| entries[key_position(entries, key)].1,
    )
}

/// A number counts as unsigned where it is one or is not negative, with its own value; nothing else does.
pub proof fn law_unsigned(x: u64, y: i64, v: MetaValue)
    ensures
        (MetaValue::U64(x)).unsigned() == Some(x),
        y >= 0 ==> ((MetaValue::I64(y)).unsigned() matches Some(n) && n == y),
        y < 0 ==> (MetaValue::I64(y)).unsigned() is None,
        v is F64 || v is Bool || v is Str || v is Arr ==> v.unsigned() is None,
{
}

/// What is read under a key is what was set under it last, where it has the right form; other keys are not
/// concerned, and a key that was never set gives nothing.
pub proof fn law_read_back(
    m: Map<Seq<char>, MetaValue>,
    key: Seq<char>,
    value: MetaValue,
    other: Seq<char>,
)
    ensures
        meta_u64(m.insert(key, value), key) == value.unsigned(),
        meta_str(m.insert(key, value), key) == match value {
            MetaValue::Str(s) => Some(s@),
            _ => None::<Seq<char>>,
        },
        other != key ==> meta_u64(m.insert(key, value), other) == meta_u64(m, other),
        other != key ==> meta_str(m.insert(key, value), other) == meta_str(m, other),
        !m.contains_key(other) ==> meta_u64(m, other) is None && meta_str(m, other) is None,
{
}

/// Replacing the pair with a key, or appending one where there is none, sets the key's value.
proof fn lemma_set(
    before: Seq<(String, MetaValue)>,
    after: Seq<(String, MetaValue)>,
    i: int,
    key: Seq<char>,
    value: MetaValue,
)
    requires
        0 <= i <= before.len(),
        forall|k: int| 0 <= k < i ==> (#[trigger] before[k]).0@ != key,
        i < before.len() ==> before[i].0@ == key && after.len() == before.len(),
        i == before.len() ==> after.len() == before.len() + 1,
        forall|k: int| 0 <= k < before.len() && k != i ==> #[trigger] after[k] == before[k],
        after[i].0@ == key,
        after[i].1 == value,
    ensures
        as_map(after) == as_map(before).insert(key, value),
{
    let m = as_map(before).insert(key, value);
    assert forall|k: Seq<char>| #[trigger]
        as_map(after).contains_key(k) == m.contains_key(k) && (m.contains_key(k) ==> as_map(
            after,
        )[k] == m[k]) by {
        lemma_key_position_bounds(before, k);
        let p = key_position(before, k);
        if k == key {
            assert forall|j: int| 0 <= j < i implies (#[trigger] after[j]).0@ != key by {
                assert(after[j] == before[j]);
            }
            lemma_key_position(after, key, i);
        } else {
            let at = if p < before.len() {
                p
            } else {
                after.len() as int
            };
            assert forall|j: int| 0 <= j < at implies (#[trigger] after[j]).0@ != k by {
                if j != i {
                    assert(after[j] == before[j]);
                }
            }
            if p < before.len() {
                assert(after[p] == before[p]);
            }
            lemma_key_position(after, k, at);
        }
    }
    assert forall|k: Seq<char>| as_map(after).dom().contains(k) == m.dom().contains(k) by {
        assert(as_map(after).contains_key(k) == m.contains_key(k));
    }
    assert forall|k: Seq<char>| m.dom().contains(k) implies as_map(after)[k] == m[k] by {
        assert(as_map(after).contains_key(k));
    }
    assert(as_map(after) =~= m);
}

impl View for Metadata {
    type V = Map<Seq<char>, MetaValue>;

    closed spec fn view(&self) -> Map<Seq<char>, MetaValue> {
        as_map(self.entries@)
    }
}

/// The unsigned number under `key`.
pub open spec fn meta_u64(m: Map<Seq<char>, MetaValue>, key: Seq<char>) -> Option<u64> {
    if m.contains_key(key) {
        m[key].unsigned()
    } else {
        None
    }
}

/// The text under `key`.
pub open spec fn meta_str(m: Map<Seq<char>, MetaValue>, key: Seq<char>) -> Option<Seq<char>> {
    if m.contains_key(key) {
        match m[key] {
            MetaValue::Str(s) => Some(s@),
            _ => None,
        }
    } else {
        None
    }
}

impl Metadata {
    pub fn new() -> (r: Self)
        ensures
            r@ == Map::<Seq<char>, MetaValue>::empty(),
    {
        let r = Metadata { entries: Vec::new() };
        assert(r@ =~= Map::<Seq<char>, MetaValue>::empty());
        r
    }

    /// Sets the value under `key`.
    pub fn insert(&mut self, key: String, value: MetaValue)
        ensures
            final(self)@ == old(self)@.insert(key@, value),
    {
        let ghost before = self.entries@;
        let n: usize = self.entries.len();
        let mut i: usize = 0;
        while i < n
            invariant
                i <= n,
                n == self.entries@.len(),
                self.entries@ == before,
                before == old(self).entries@,
                forall|k: int| 0 <= k < i ==> (#[trigger] before[k]).0@ != key@,
            decreases n - i,
        {
            if same_text(self.entries[i].0.as_str(), key.as_str()) {
                let ghost name = key@;
                self.entries.set(i, (key, value));
                proof {
                    lemma_set(before, self.entries@, i as int, name, value);
                }
                return;
            }
            i += 1;
        }
        let ghost name = key@;
        self.entries.push((key, value));
        proof {
            lemma_set(before, self.entries@, n as int, name, value);
        }
    }

    /// The value under `key`.
    pub fn get(&self, key: &str) -> (r: Option<&MetaValue>)
        ensures
            match r {
                Some(v) => self@.contains_key(key@) && *v == self@[key@],
                None => !self@.contains_key(key@),
            },
    {
        let mut i: usize = 0;
        while i < self.entries.len()
            invariant
                i <= self.entries@.len(),
                forall|k: int| 0 <= k < i ==> (#[trigger] self.entries@[k]).0@ != key@,
            decreases self.entries.len() - i,
        {
            if same_text(self.entries[i].0.as_str(), key) {
                proof {
                    lemma_key_position(self.entries@, key@, i as int);
                }
                return Some(&self.entries[i].1);
            }
            i += 1;
        }
        proof {
            lemma_key_position(self.entries@, key@, i as int);
        }
        None
    }

    /// The unsigned number under `key`.
    pub fn u64(&self, key: &str) -> (r: Option<u64>)
        ensures
            r == meta_u64(self@, key@),
    {
        match self.get(key) {
            Some(v) => v.as_u64(),
            None => None,
        }
    }

    /// The text under `key`.
    pub fn str(&self, key: &str) -> (r: Option<&str>)
        ensures
            match r {
                Some(s) => meta_str(self@, key@) == Some(s@),
                None => meta_str(self@, key@) is None,
            },
    {
        match self.get(key) {
            Some(MetaValue::Str(s)) => Some(s.as_str()),
            _ => None,
        }
    }
}

/// One tensor of a model file.
pub struct TensorInfo {
    pub name: String,
    pub dtype: DType,
    pub shape: Vec<usize>,
    /// Bytes that the tensor takes in the file.
    pub nbytes: usize,
}

/// Position of the first tensor named `name` from number `from` on.
pub open spec fn tensor_from(tensors: Seq<TensorInfo>, name: Seq<char>, from: int) -> Option<int>
    decreases tensors.len() - from,
{
    if from < 0 || from >= tensors.len() {
        None
    } else if tensors[from].name@ == name {
        Some(from)
    } else {
        tensor_from(tensors, name, from + 1)
    }
}

/// Position of the first tensor named `name`.
pub open spec fn tensor_index(tensors: Seq<TensorInfo>, name: Seq<char>) -> Option<int> {
    tensor_from(tensors, name, 0)
}

/// What `tensor_index` finds is a tensor of that name, and none before it has the name.
pub proof fn law_tensor_index(tensors: Seq<TensorInfo>, name: Seq<char>)
    ensures
        match tensor_index(tensors, name) {
            Some(i) => {
                &&& 0 <= i < tensors.len()
                &&& tensors[i].name@ == name
                &&& forall|k: int| 0 <= k < i ==> (#[trigger] tensors[k]).name@ != name
            },
            None => forall|k: int| 0 <= k < tensors.len() ==> (#[trigger] tensors[k]).name@ != name,
        },
{
    lemma_tensor_from(tensors, name, 0);
}

proof fn lemma_tensor_from(tensors: Seq<TensorInfo>, name: Seq<char>, from: int)
    requires
        0 <= from,
    ensures
        match tensor_from(tensors, name, from) {
            Some(i) => {
                &&& from <= i < tensors.len()
                &&& tensors[i].name@ == name
                &&& forall|k: int| from <= k < i ==> (#[trigger] tensors[k]).name@ != name
            },
            None => forall|k: int|
                from <= k < tensors.len() ==> (#[trigger] tensors[k]).name@ != name,
        },
    decreases tensors.len() - from,
{
    if from < tensors.len() && tensors[from].name@ != name {
        lemma_tensor_from(tensors, name, from + 1);
    }
}

/// The directory of a model file.
pub struct Gguf {
    metadata: Metadata,
    tensors: Vec<TensorInfo>,
}

impl Gguf {
    pub closed spec fn meta(&self) -> Map<Seq<char>, MetaValue> {
        self.metadata@
    }

    pub closed spec fn dir(&self) -> Seq<TensorInfo> {
        self.tensors@
    }

    /// The directory that a file's header gave.
    pub fn new(metadata: Metadata, tensors: Vec<TensorInfo>) -> (r: Self)
        ensures
            r.meta() == metadata@,
            r.dir() == tensors@,
    {
        Gguf { metadata, tensors }
    }

    pub fn metadata(&self) -> (r: &Metadata)
        ensures
            r@ == self.meta(),
    {
        &self.metadata
    }

    pub fn tensors(&self) -> (r: &Vec<TensorInfo>)
        ensures
            r@ == self.dir(),
    {
        &self.tensors
    }

    /// The template that turns a conversation into a prompt.
    pub fn chat_template(&self) -> (r: Option<&str>)
        ensures
            match r {
                Some(s) => meta_str(self.meta(), "tokenizer.chat_template"@) == Some(s@),
                None => meta_str(self.meta(), "tokenizer.chat_template"@) is None,
            },
    {
        self.metadata.str("tokenizer.chat_template")
    }

    /// Position of the first tensor named `name`.
    pub fn find(&self, name: &str) -> (r: Option<usize>)
        ensures
            match r {
                Some(i) => tensor_index(self.dir(), name@) == Some(i as int) && i < self.dir().len(),
                None => tensor_index(self.dir(), name@) is None,
            },
    {
        let mut i: usize = 0;
        while i < self.tensors.len()
            invariant
                i <= self.tensors@.len(),
                tensor_index(self.tensors@, name@) == tensor_from(self.tensors@, name@, i as int),
            decreases self.tensors.len() - i,
        {
            if same_text(self.tensors[i].name.as_str(), name) {
                return Some(i);
            }
            i += 1;
        }
        None
    }
}

} // verus!
