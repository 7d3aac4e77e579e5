//! The value model shared by both syntaxes.

use vstd::prelude::*;
use vstd::std_specs::cmp::PartialEqSpecImpl;
use vstd::std_specs::convert::FromSpecImpl;
use crate::binary::Binary;
use crate::float::{is_canonical_float, Float};
use crate::text::{chars_less, chars_of, same_chars, seq_less};
use crate::timestamp::{Timestamp, TimestampModel};

verus! {

/// The mathematical content of a [`Value`]: a tree whose leaves are plain
/// data and whose maps are sequences of entries in key order.
pub enum ValueModel {
    Null,
    Bool(bool),
    Int(int),
    Float(Seq<char>),
    String(Seq<char>),
    Binary(Seq<u8>),
    Timestamp(TimestampModel),
    List(Seq<ValueModel>),
    Mapping(Seq<(Seq<char>, ValueModel)>),
}

/// The longest byte string that can be written as base64: its encoding,
/// four characters for every three bytes, must fit in memory.
pub open spec fn binary_limit() -> int {
    (usize::MAX / 4) * 3
}

/// Whether the keys of the entries strictly increase, so that no key occurs
/// twice and the entries stand in key order.
pub open spec fn keys_increase(entries: Seq<(Seq<char>, ValueModel)>) -> bool {
    forall|i: int, j: int|
        0 <= i < j < entries.len() ==> seq_less(#[trigger] entries[i].0, #[trigger] entries[j].0)
}

impl ValueModel {
    /// Whether the value is one that the library can hold: integers fit in
    /// 64 bits, floats are canonical, byte strings are short enough to be encoded, timestamps are
    /// within the range of the `time` crate, and in every map the keys
    /// strictly increase.
    pub open spec fn wf(self) -> bool
        decreases self,
    {
        match self {
            ValueModel::Int(i) => i64::MIN <= i <= i64::MAX,
            ValueModel::Float(text) => is_canonical_float(text),
            ValueModel::Binary(bytes) => bytes.len() <= binary_limit(),
            ValueModel::Timestamp(t) => t.wf(),
            ValueModel::List(items) => forall|i: int|
                0 <= i < items.len() ==> (#[trigger] items[i]).wf(),
            ValueModel::Mapping(entries) => keys_increase(entries) && forall|i: int|
                0 <= i < entries.len() ==> (#[trigger] entries[i]).1.wf(),
            _ => true,
        }
    }
}

/// The number of entries whose key sorts before `key`, counted from `from`
/// in a sequence whose keys increase: the place where `key` stands or would
/// be put.
pub open spec fn slot_from(entries: Seq<(Seq<char>, ValueModel)>, key: Seq<char>, from: int) -> int
    decreases entries.len() - from,
{
    if 0 <= from < entries.len() && seq_less(entries[from].0, key) {
        slot_from(entries, key, from + 1)
    } else {
        from
    }
}

/// The place where `key` stands or would be put.
pub open spec fn slot(entries: Seq<(Seq<char>, ValueModel)>, key: Seq<char>) -> int {
    slot_from(entries, key, 0)
}

/// Whether some entry has the key.
pub open spec fn has_key(entries: Seq<(Seq<char>, ValueModel)>, key: Seq<char>) -> bool {
    let i = slot(entries, key);
    i < entries.len() && entries[i].0 == key
}

/// The value under the key, if some entry has it.
pub open spec fn lookup(entries: Seq<(Seq<char>, ValueModel)>, key: Seq<char>) -> Option<
    ValueModel,
> {
    if has_key(entries, key) {
        Some(entries[slot(entries, key)].1)
    } else {
        None
    }
}

/// The entries after `key` was set to `value`: replaced where the key was
/// present, put in key order where it was not.
pub open spec fn with_entry(
    entries: Seq<(Seq<char>, ValueModel)>,
    key: Seq<char>,
    value: ValueModel,
) -> Seq<(Seq<char>, ValueModel)> {
    let i = slot(entries, key);
    if has_key(entries, key) {
        entries.update(i, (key, value))
    } else {
        entries.insert(i, (key, value))
    }
}

/// A value: the closed set of data that both syntaxes can write down.
#[derive(Debug, PartialEq)]
pub enum Value {
    Null,
    Bool(bool),
    Int(i64),
    Float(Float),
    String(String),
    Binary(Binary),
    Timestamp(Timestamp),
    List(Vec<Value>),
    Mapping(Entries),
}

/// The entries of a map: string keys, each at most once, kept in the order
/// of their keys' bytes.
#[derive(Debug, PartialEq)]
pub struct Entries {
    items: Vec<(String, Value)>,
}

impl View for Value {
    type V = ValueModel;

    open spec fn view(&self) -> ValueModel
        decreases self,
    {
        match self {
            Value::Null => ValueModel::Null,
            Value::Bool(b) => ValueModel::Bool(*b),
            Value::Int(i) => ValueModel::Int(*i as int),
            Value::Float(f) => ValueModel::Float(f@),
            Value::String(s) => ValueModel::String(s@),
            Value::Binary(b) => ValueModel::Binary(b@),
            Value::Timestamp(t) => ValueModel::Timestamp(t@),
            Value::List(items) => ValueModel::List(
                Seq::new(
                    items@.len(),
                    |i: int|
                        if 0 <= i < items@.len() {
                            items@[i]@
                        } else {
                            ValueModel::Null
                        },
                ),
            ),
            Value::Mapping(entries) => ValueModel::Mapping(entries@),
        }
    }
}

impl View for Entries {
    type V = Seq<(Seq<char>, ValueModel)>;

    closed spec fn view(&self) -> Seq<(Seq<char>, ValueModel)>
        decreases self,
    {
        Seq::new(
            self.items@.len(),
            |i: int|
                if 0 <= i < self.items@.len() {
                    (self.items@[i].0@, self.items@[i].1@)
                } else {
                    (Seq::empty(), ValueModel::Null)
                },
        )
    }
}

/// The order of keys is transitive.
pub proof fn lemma_less_transitive(a: Seq<char>, b: Seq<char>, c: Seq<char>)
    requires
        seq_less(a, b),
        seq_less(b, c),
    ensures
        seq_less(a, c),
    decreases a.len(),
{
    if a.len() > 0 && a[0] == b[0] && b[0] == c[0] {
        lemma_less_transitive(a.drop_first(), b.drop_first(), c.drop_first());
    }
}

/// No key sorts before itself.
pub proof fn lemma_less_irreflexive(a: Seq<char>)
    ensures
        !seq_less(a, a),
    decreases a.len(),
{
    if a.len() > 0 {
        lemma_less_irreflexive(a.drop_first());
    }
}

/// Two keys of which neither sorts before the other are the same key.
pub proof fn lemma_less_total(a: Seq<char>, b: Seq<char>)
    requires
        !seq_less(a, b),
        !seq_less(b, a),
    ensures
        a == b,
    decreases a.len(),
{
    if a.len() > 0 && b.len() > 0 {
        lemma_less_total(a.drop_first(), b.drop_first());
        assert(a =~= seq![a[0]] + a.drop_first());
        assert(b =~= seq![b[0]] + b.drop_first());
    } else {
        assert(a =~= b);
    }
}

/// What the slot of a key is, in entries whose keys increase: every entry
/// before it has a smaller key and every entry from it on has none smaller.
#[verifier::rlimit(50)]
pub proof fn lemma_slot(entries: Seq<(Seq<char>, ValueModel)>, key: Seq<char>, from: int)
    requires
        keys_increase(entries),
        0 <= from <= entries.len(),
        forall|j: int| 0 <= j < from ==> seq_less(#[trigger] entries[j].0, key),
    ensures
        from <= slot_from(entries, key, from) <= entries.len(),
        forall|j: int|
            0 <= j < slot_from(entries, key, from) ==> seq_less(#[trigger] entries[j].0, key),
        forall|j: int|
            slot_from(entries, key, from) <= j < entries.len() ==> !seq_less(
                #[trigger] entries[j].0,
                key,
            ),
    decreases entries.len() - from,
{
    if from < entries.len() && seq_less(entries[from].0, key) {
        lemma_slot(entries, key, from + 1);
    } else {
        assert forall|j: int| from <= j < entries.len() implies !seq_less(
            #[trigger] entries[j].0,
            key,
        ) by {
            if j > from && seq_less(entries[j].0, key) {
                assert(seq_less(entries[from].0, entries[j].0));
                lemma_less_transitive(entries[from].0, entries[j].0, key);
            }
        }
    }
}

/// Setting a key keeps the keys increasing.
#[verifier::rlimit(50)]
pub proof fn lemma_with_entry_increases(
    entries: Seq<(Seq<char>, ValueModel)>,
    key: Seq<char>,
    value: ValueModel,
)
    requires
        keys_increase(entries),
    ensures
        keys_increase(with_entry(entries, key, value)),
{
    lemma_slot(entries, key, 0);
    let i = slot(entries, key);
    let after = with_entry(entries, key, value);
    if has_key(entries, key) {
        assert forall|a: int, b: int| 0 <= a < b < after.len() implies seq_less(
            #[trigger] after[a].0,
            #[trigger] after[b].0,
        ) by {
            assert(after[a].0 == entries[a].0);
            assert(after[b].0 == entries[b].0);
        }
    } else {
        assert forall|a: int, b: int| 0 <= a < b < after.len() implies seq_less(
            #[trigger] after[a].0,
            #[trigger] after[b].0,
        ) by {
            let ka = after[a].0;
            let kb = after[b].0;
            if b < i {
                assert(ka == entries[a].0 && kb == entries[b].0);
            } else if b == i {
                assert(ka == entries[a].0);
            } else if a == i {
                assert(kb == entries[b - 1].0);
                assert(!seq_less(entries[b - 1].0, key));
                if !seq_less(key, kb) {
                    lemma_less_total(key, kb);
                    assert(entries[i].0 == entries[b - 1].0 || i < b - 1);
                    if i < b - 1 {
                        assert(seq_less(entries[i].0, entries[b - 1].0));
                        assert(!seq_less(entries[i].0, key));
                    }
                }
            } else if a < i {
                assert(ka == entries[a].0 && kb == entries[b - 1].0);
            } else {
                assert(ka == entries[a - 1].0 && kb == entries[b - 1].0);
            }
        }
    }
}

/// A key that sorts after every key present goes to the end.
pub proof fn lemma_with_entry_last(
    entries: Seq<(Seq<char>, ValueModel)>,
    key: Seq<char>,
    value: ValueModel,
)
    requires
        keys_increase(entries),
        forall|j: int| 0 <= j < entries.len() ==> seq_less(#[trigger] entries[j].0, key),
    ensures
        !has_key(entries, key),
        with_entry(entries, key, value) == entries.push((key, value)),
{
    lemma_slot(entries, key, 0);
    let i = slot(entries, key);
    if i < entries.len() {
        assert(seq_less(entries[i].0, key));
    }
    assert(entries.insert(i, (key, value)) =~= entries.push((key, value)));
}

impl Entries {
    /// Whether the keys strictly increase and every value is well formed.
    pub open spec fn wf(&self) -> bool {
        ValueModel::Mapping(self@).wf()
    }

    /// No entries.
    pub fn new() -> (r: Self)
        ensures
            r@ == Seq::<(Seq<char>, ValueModel)>::empty(),
            r.wf(),
    {
        let r = Entries { items: Vec::new() };
        assert(r@ =~= Seq::<(Seq<char>, ValueModel)>::empty());
        r
    }

    /// The number of entries.
    pub fn len(&self) -> (r: usize)
        ensures
            r == self@.len(),
    {
        self.items.len()
    }

    /// Whether there is no entry.
    pub fn is_empty(&self) -> (r: bool)
        ensures
            r == (self@.len() == 0),
    {
        self.items.len() == 0
    }

    /// The key of the entry at `index`, in key order.
    pub fn key_at(&self, index: usize) -> (r: &String)
        requires
            index < self@.len(),
        ensures
            r@ == self@[index as int].0,
    {
        &self.items[index].0
    }

    /// The value of the entry at `index`, in key order.
    pub fn value_at(&self, index: usize) -> (r: &Value)
        requires
            index < self@.len(),
        ensures
            r@ == self@[index as int].1,
    {
        &self.items[index].1
    }

    /// The place where `key` stands or would be put.
    fn find(&self, key: &Vec<char>) -> (r: usize)
        requires
            keys_increase(self@),
        ensures
            r == slot(self@, key@),
            r <= self@.len(),
    {
        let mut i: usize = 0;
        while i < self.items.len()
            invariant
                i <= self.items.len(),
                slot(self@, key@) == slot_from(self@, key@, i as int),
            decreases self.items.len() - i,
        {
            let here = chars_of(self.items[i].0.as_str());
            if !chars_less(&here, key) {
                return i;
            }
            i += 1;
        }
        i
    }

    /// Whether some entry has the key.
    #[verifier::rlimit(50)]
    pub fn contains_key(&self, key: &str) -> (r: bool)
        requires
            self.wf(),
        ensures
            r == has_key(self@, key@),
    {
        let k = chars_of(key);
        let i = self.find(&k);
        if i < self.items.len() {
            let here = chars_of(self.items[i].0.as_str());
            same_chars(&here, &k)
        } else {
            false
        }
    }

    /// The value under the key, if some entry has it.
    #[verifier::rlimit(50)]
    pub fn get(&self, key: &str) -> (r: Option<&Value>)
        requires
            self.wf(),
        ensures
            match r {
                Some(v) => lookup(self@, key@) == Some(v@),
                None => lookup(self@, key@).is_none(),
            },
    {
        let k = chars_of(key);
        let i = self.find(&k);
        if i < self.items.len() {
            let here = chars_of(self.items[i].0.as_str());
            if same_chars(&here, &k) {
                return Some(&self.items[i].1);
            }
        }
        None
    }

    /// Sets `key` to `value`. Returns the value that the key had before, if
    /// it was present.
    #[verifier::rlimit(50)]
    pub fn insert(&mut self, key: String, value: Value) -> (r: Option<Value>)
        requires
            old(self).wf(),
            value@.wf(),
        ensures
            final(self)@ == with_entry(old(self)@, key@, value@),
            final(self).wf(),
            match r {
                Some(v) => lookup(old(self)@, key@) == Some(v@),
                None => lookup(old(self)@, key@).is_none(),
            },
    {
        let k = chars_of(key.as_str());
        let i = self.find(&k);
        let ghost before = self@;
        proof {
            lemma_with_entry_increases(before, key@, value@);
        }
        let present = if i < self.items.len() {
            let here = chars_of(self.items[i].0.as_str());
            same_chars(&here, &k)
        } else {
            false
        };
        if present {
            let previous = self.items.remove(i);
            self.items.insert(i, (key, value));
            assert(self@ =~= before.update(i as int, (key@, value@)));
            assert(previous.1@ == before[i as int].1);
            assert forall|j: int| 0 <= j < self@.len() implies (#[trigger] self@[j]).1.wf() by {
                if j != i {
                    assert(self@[j] == before[j]);
                }
            }
            Some(previous.1)
        } else {
            self.items.insert(i, (key, value));
            assert(self@ =~= before.insert(i as int, (key@, value@)));
            assert forall|j: int| 0 <= j < self@.len() implies (#[trigger] self@[j]).1.wf() by {
                if j < i {
                    assert(self@[j] == before[j]);
                } else if j > i {
                    assert(self@[j] == before[j - 1]);
                }
            }
            None
        }
    }
}

impl Value {
    /// Whether the value is well formed; see [`ValueModel::wf`].
    pub open spec fn wf(&self) -> bool {
        self@.wf()
    }

    /// Whether the value is `Null`.
    pub fn is_null(&self) -> (r: bool)
        ensures
            r == (self@ is Null),
    {
        matches!(self, Value::Null)
    }

    /// Whether the value is a boolean.
    pub fn is_bool(&self) -> (r: bool)
        ensures
            r == (self@ is Bool),
    {
        matches!(self, Value::Bool(_))
    }

    /// Whether the value is an integer.
    pub fn is_int(&self) -> (r: bool)
        ensures
            r == (self@ is Int),
    {
        matches!(self, Value::Int(_))
    }

    /// Whether the value is a float.
    pub fn is_float(&self) -> (r: bool)
        ensures
            r == (self@ is Float),
    {
        matches!(self, Value::Float(_))
    }

    /// Whether the value is a string.
    pub fn is_string(&self) -> (r: bool)
        ensures
            r == (self@ is String),
    {
        matches!(self, Value::String(_))
    }

    /// Whether the value is binary data.
    pub fn is_binary(&self) -> (r: bool)
        ensures
            r == (self@ is Binary),
    {
        matches!(self, Value::Binary(_))
    }

    /// Whether the value is a timestamp.
    pub fn is_timestamp(&self) -> (r: bool)
        ensures
            r == (self@ is Timestamp),
    {
        matches!(self, Value::Timestamp(_))
    }

    /// Whether the value is a list.
    pub fn is_list(&self) -> (r: bool)
        ensures
            r == (self@ is List),
    {
        matches!(self, Value::List(_))
    }

    /// Whether the value is a map.
    pub fn is_map(&self) -> (r: bool)
        ensures
            r == (self@ is Mapping),
    {
        matches!(self, Value::Mapping(_))
    }

    /// The boolean held, or `None` for any other kind of value.
    pub fn as_bool(&self) -> (r: Option<bool>)
        ensures
            r == (match self@ {
                ValueModel::Bool(b) => Some(b),
                _ => None,
            }),
    {
        match self {
            Value::Bool(b) => Some(*b),
            _ => None,
        }
    }

    /// The integer held, or `None` for any other kind of value.
    pub fn as_int(&self) -> (r: Option<i64>)
        ensures
            match self@ {
                ValueModel::Int(i) => r.is_some() && r.unwrap() == i,
                _ => r.is_none(),
            },
    {
        match self {
            Value::Int(i) => Some(*i),
            _ => None,
        }
    }

    /// The float held, or `None` for any other kind of value.
    pub fn as_float(&self) -> (r: Option<&Float>)
        ensures
            match self@ {
                ValueModel::Float(text) => r.is_some() && r.unwrap()@ == text,
                _ => r.is_none(),
            },
    {
        match self {
            Value::Float(f) => Some(f),
            _ => None,
        }
    }

    /// The string held, or `None` for any other kind of value.
    pub fn as_string(&self) -> (r: Option<&str>)
        ensures
            match self@ {
                ValueModel::String(s) => r.is_some() && r.unwrap()@ == s,
                _ => r.is_none(),
            },
    {
        match self {
            Value::String(s) => Some(s.as_str()),
            _ => None,
        }
    }

    /// The bytes held, or `None` for any other kind of value.
    pub fn as_binary(&self) -> (r: Option<&Binary>)
        ensures
            match self@ {
                ValueModel::Binary(b) => r.is_some() && r.unwrap()@ == b,
                _ => r.is_none(),
            },
    {
        match self {
            Value::Binary(b) => Some(b),
            _ => None,
        }
    }

    /// The timestamp held, or `None` for any other kind of value.
    pub fn as_timestamp(&self) -> (r: Option<&Timestamp>)
        ensures
            match self@ {
                ValueModel::Timestamp(t) => r.is_some() && r.unwrap()@ == t,
                _ => r.is_none(),
            },
    {
        match self {
            Value::Timestamp(t) => Some(t),
            _ => None,
        }
    }

    /// The items held, or `None` for any other kind of value.
    pub fn as_list(&self) -> (r: Option<&Vec<Value>>)
        ensures
            match r {
                Some(items) => self@ == Value::List(*items)@,
                None => !(self@ is List),
            },
    {
        match self {
            Value::List(l) => Some(l),
            _ => None,
        }
    }

    /// The entries held, or `None` for any other kind of value.
    pub fn as_map(&self) -> (r: Option<&Entries>)
        ensures
            match r {
                Some(entries) => self@ == ValueModel::Mapping(entries@),
                None => !(self@ is Mapping),
            },
    {
        match self {
            Value::Mapping(m) => Some(m),
            _ => None,
        }
    }

    /// Takes the value out and leaves `Null` in its place.
    pub fn take(&mut self) -> (r: Value)
        ensures
            r == *old(self),
            *final(self) == Value::Null,
    {
        let mut taken = Value::Null;
        core::mem::swap(self, &mut taken);
        taken
    }
}

impl Value {
    /// A copy of the value.
    #[verifier::rlimit(50)]
    pub fn duplicate(&self) -> (r: Value)
        ensures
            r@ == self@,
        decreases self@,
    {
        match self {
            Value::Null => Value::Null,
            Value::Bool(b) => Value::Bool(*b),
            Value::Int(i) => Value::Int(*i),
            Value::Float(f) => Value::Float(f.clone()),
            Value::String(s) => Value::String(s.clone()),
            Value::Binary(b) => Value::Binary(Binary(vstd::slice::slice_to_vec(b.as_slice()))),
            Value::Timestamp(t) => Value::Timestamp(*t),
            Value::List(items) => {
                let mut out: Vec<Value> = Vec::new();
                let mut i: usize = 0;
                while i < items.len()
                    invariant
                        i <= items.len(),
                        out@.len() == i,
                        self@ is List,
                        self@->List_0.len() == items@.len(),
                        forall|j: int|
                            0 <= j < items@.len() ==> (#[trigger] self@->List_0[j]) == items@[j]@,
                        forall|j: int| 0 <= j < i ==> (#[trigger] out@[j])@ == items@[j]@,
                    decreases items.len() - i,
                {
                    assert(self@->List_0[i as int] == items@[i as int]@);
                    out.push(items[i].duplicate());
                    i += 1;
                }
                let r = Value::List(out);
                assert(r@ =~= self@) by {
                    assert(r@->List_0 =~= self@->List_0);
                }
                r
            },
            Value::Mapping(entries) => {
                let mut out: Vec<(String, Value)> = Vec::new();
                let mut i: usize = 0;
                while i < entries.items.len()
                    invariant
                        i <= entries.items.len(),
                        out@.len() == i,
                        self@ == ValueModel::Mapping(entries@),
                        forall|j: int|
                            0 <= j < i ==> (#[trigger] out@[j]).0@ == entries.items@[j].0@
                                && out@[j].1@ == entries.items@[j].1@,
                    decreases entries.items.len() - i,
                {
                    let key = entries.items[i].0.clone();
                    assert(entries@[i as int].1 == entries.items@[i as int].1@);
                    assert(self@->Mapping_0[i as int].1 == entries.items@[i as int].1@);
                    assert(decreases_to!(self@ => self@->Mapping_0[i as int].1));
                    let value = entries.items[i].1.duplicate();
                    out.push((key, value));
                    i += 1;
                }
                let copy = Entries { items: out };
                assert(copy@ =~= entries@);
                Value::Mapping(copy)
            },
        }
    }
}

impl Entries {
    /// A copy of the entries.
    #[verifier::rlimit(50)]
    pub fn duplicate(&self) -> (r: Entries)
        ensures
            r@ == self@,
    {
        let mut out: Vec<(String, Value)> = Vec::new();
        let mut i: usize = 0;
        while i < self.items.len()
            invariant
                i <= self.items.len(),
                out@.len() == i,
                forall|j: int|
                    0 <= j < i ==> (#[trigger] out@[j]).0@ == self.items@[j].0@ && out@[j].1@
                        == self.items@[j].1@,
            decreases self.items.len() - i,
        {
            let key = self.items[i].0.clone();
            let value = self.items[i].1.duplicate();
            out.push((key, value));
            i += 1;
        }
        let r = Entries { items: out };
        assert(r@ =~= self@);
        r
    }
}

impl Clone for Value {
    fn clone(&self) -> (r: Value)
        ensures
            r@ == self@,
    {
        self.duplicate()
    }
}

impl Clone for Entries {
    fn clone(&self) -> (r: Entries)
        ensures
            r@ == self@,
    {
        self.duplicate()
    }
}

impl Default for Value {
    fn default() -> (r: Value)
        ensures
            r == Value::Null,
    {
        Value::Null
    }
}

impl Value {
    /// The items held, for changing them, or `None` for any other kind of
    /// value.
    pub fn as_list_mut(&mut self) -> (r: Option<&mut Vec<Value>>)
        ensures
            match r {
                Some(items) => *old(self) == Value::List(*items) && *final(self) == Value::List(
                    *final(items),
                ),
                None => !(old(self)@ is List) && *final(self) == *old(self),
            },
    {
        match self {
            Value::List(l) => Some(l),
            _ => None,
        }
    }

    /// The entries held, for changing them, or `None` for any other kind of
    /// value.
    pub fn as_map_mut(&mut self) -> (r: Option<&mut Entries>)
        ensures
            match r {
                Some(entries) => *old(self) == Value::Mapping(*entries) && *final(self)
                    == Value::Mapping(*final(entries)),
                None => !(old(self)@ is Mapping) && *final(self) == *old(self),
            },
    {
        match self {
            Value::Mapping(m) => Some(m),
            _ => None,
        }
    }
}

impl From<()> for Value {
    fn from(unit: ()) -> (r: Value) {
        Value::Null
    }
}

impl FromSpecImpl<()> for Value {
    open spec fn obeys_from_spec() -> bool {
        true
    }

    open spec fn from_spec(unit: ()) -> Value {
        Value::Null
    }
}

impl From<bool> for Value {
    fn from(value: bool) -> (r: Value) {
        Value::Bool(value)
    }
}

impl FromSpecImpl<bool> for Value {
    open spec fn obeys_from_spec() -> bool {
        true
    }

    open spec fn from_spec(value: bool) -> Value {
        Value::Bool(value)
    }
}

impl From<i64> for Value {
    fn from(value: i64) -> (r: Value) {
        Value::Int(value)
    }
}

impl FromSpecImpl<i64> for Value {
    open spec fn obeys_from_spec() -> bool {
        true
    }

    open spec fn from_spec(value: i64) -> Value {
        Value::Int(value)
    }
}

impl From<String> for Value {
    fn from(value: String) -> (r: Value) {
        Value::String(value)
    }
}

impl FromSpecImpl<String> for Value {
    open spec fn obeys_from_spec() -> bool {
        true
    }

    open spec fn from_spec(value: String) -> Value {
        Value::String(value)
    }
}

impl From<&str> for Value {
    fn from(value: &str) -> (r: Value)
        ensures
            r@ == ValueModel::String(value@),
    {
        Value::String(value.to_string())
    }
}

impl FromSpecImpl<&str> for Value {
    open spec fn obeys_from_spec() -> bool {
        false
    }

    open spec fn from_spec(value: &str) -> Value {
        arbitrary()
    }
}

impl From<Float> for Value {
    fn from(value: Float) -> (r: Value) {
        Value::Float(value)
    }
}

impl FromSpecImpl<Float> for Value {
    open spec fn obeys_from_spec() -> bool {
        true
    }

    open spec fn from_spec(value: Float) -> Value {
        Value::Float(value)
    }
}

impl From<Binary> for Value {
    fn from(value: Binary) -> (r: Value) {
        Value::Binary(value)
    }
}

impl FromSpecImpl<Binary> for Value {
    open spec fn obeys_from_spec() -> bool {
        true
    }

    open spec fn from_spec(value: Binary) -> Value {
        Value::Binary(value)
    }
}

impl From<Timestamp> for Value {
    fn from(value: Timestamp) -> (r: Value) {
        Value::Timestamp(value)
    }
}

impl FromSpecImpl<Timestamp> for Value {
    open spec fn obeys_from_spec() -> bool {
        true
    }

    open spec fn from_spec(value: Timestamp) -> Value {
        Value::Timestamp(value)
    }
}

impl From<Vec<Value>> for Value {
    fn from(items: Vec<Value>) -> (r: Value) {
        Value::List(items)
    }
}

impl FromSpecImpl<Vec<Value>> for Value {
    open spec fn obeys_from_spec() -> bool {
        true
    }

    open spec fn from_spec(items: Vec<Value>) -> Value {
        Value::List(items)
    }
}

impl From<Entries> for Value {
    fn from(entries: Entries) -> (r: Value) {
        Value::Mapping(entries)
    }
}

impl FromSpecImpl<Entries> for Value {
    open spec fn obeys_from_spec() -> bool {
        true
    }

    open spec fn from_spec(entries: Entries) -> Value {
        Value::Mapping(entries)
    }
}

impl PartialEq<str> for Value {
    fn eq(&self, other: &str) -> (r: bool) {
        match self {
            Value::String(s) => {
                let a = chars_of(s.as_str());
                let b = chars_of(other);
                same_chars(&a, &b)
            },
            _ => false,
        }
    }
}

impl PartialEqSpecImpl<str> for Value {
    open spec fn obeys_eq_spec() -> bool {
        true
    }

    open spec fn eq_spec(&self, other: &str) -> bool {
        self@ == ValueModel::String(other@)
    }
}

impl PartialEq<&str> for Value {
    fn eq(&self, other: &&str) -> (r: bool) {
        match self {
            Value::String(s) => {
                let a = chars_of(s.as_str());
                let b = chars_of(*other);
                same_chars(&a, &b)
            },
            _ => false,
        }
    }
}

impl PartialEqSpecImpl<&str> for Value {
    open spec fn obeys_eq_spec() -> bool {
        true
    }

    open spec fn eq_spec(&self, other: &&str) -> bool {
        self@ == ValueModel::String(other@)
    }
}

impl PartialEq<String> for Value {
    fn eq(&self, other: &String) -> (r: bool) {
        match self {
            Value::String(s) => {
                let a = chars_of(s.as_str());
                let b = chars_of(other.as_str());
                same_chars(&a, &b)
            },
            _ => false,
        }
    }
}

impl PartialEqSpecImpl<String> for Value {
    open spec fn obeys_eq_spec() -> bool {
        true
    }

    open spec fn eq_spec(&self, other: &String) -> bool {
        self@ == ValueModel::String(other@)
    }
}

impl PartialEq<i64> for Value {
    fn eq(&self, other: &i64) -> (r: bool) {
        match self {
            Value::Int(i) => *i == *other,
            _ => false,
        }
    }
}

impl PartialEqSpecImpl<i64> for Value {
    open spec fn obeys_eq_spec() -> bool {
        true
    }

    open spec fn eq_spec(&self, other: &i64) -> bool {
        self@ == ValueModel::Int(*other as int)
    }
}

impl PartialEq<bool> for Value {
    fn eq(&self, other: &bool) -> (r: bool) {
        match self {
            Value::Bool(b) => *b == *other,
            _ => false,
        }
    }
}

impl PartialEqSpecImpl<bool> for Value {
    open spec fn obeys_eq_spec() -> bool {
        true
    }

    open spec fn eq_spec(&self, other: &bool) -> bool {
        self@ == ValueModel::Bool(*other)
    }
}

} // verus!
