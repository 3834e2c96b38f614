//! The dynamic value model of front matter and posts.
use crate::keys::{key_less, key_lt, same_key, lemma_key_lt_irreflexive, lemma_key_lt_total, lemma_key_lt_transitive};
use crate::yaml::{converts, last_with_key, yaml_convertible, YamlTree};
use crate::json::{json_of_number, json_array, json_bool, json_int, json_null, json_number, json_object, json_string, json_tree, JsonTree};
use vstd::prelude::*;

verus! {

/// A number: a 64-bit integer, or a double-precision float as the YAML
/// decoder gave it.
#[derive(Debug)]
pub enum Number {
    Integer(i64),
    Float(serde_yaml::Number),
}

/// A value parsed from front matter, or derived while a post is normalized.
#[derive(Debug)]
pub enum Value {
    Null,
    Boolean(bool),
    Number(Number),
    String(String),
    Array(Vec<Value>),
    Mapping(ValueMap),
}

/// A mapping from string keys to values. Its entries are kept in strictly
/// increasing key order, so each key occurs once and iteration is
/// deterministic.
#[derive(Debug)]
pub struct ValueMap {
    entries: Vec<(String, Value)>,
}

/// Entries whose keys strictly increase.
pub open spec fn keys_increasing<V>(s: Seq<(String, V)>) -> bool {
    forall|i: int, j: int| 0 <= i < j < s.len() ==> key_lt(#[trigger] s[i].0@, #[trigger] s[j].0@)
}

/// The value stored under `k`; where a key repeats, the last entry wins.
pub open spec fn lookup<V>(s: Seq<(String, V)>, k: Seq<char>) -> Option<V>
    decreases s.len(),
{
    if s.len() == 0 {
        None
    } else if s.last().0@ == k {
        Some(s.last().1)
    } else {
        lookup(s.drop_last(), k)
    }
}

/// Whether some entry has key `k`.
pub open spec fn has_key<V>(s: Seq<(String, V)>, k: Seq<char>) -> bool {
    exists|i: int| 0 <= i < s.len() && (#[trigger] s[i]).0@ == k
}

/// A key that no entry has has no value.
pub proof fn lemma_lookup_absent<V>(s: Seq<(String, V)>, k: Seq<char>)
    requires
        !has_key(s, k),
    ensures
        lookup(s, k) is None,
    decreases s.len(),
{
    if s.len() > 0 {
        assert(s.last() == s[s.len() - 1]);
        assert forall|i: int| 0 <= i < s.drop_last().len() implies (#[trigger] s.drop_last()[i]).0@ != k by {
            assert(s.drop_last()[i] == s[i]);
        }
        lemma_lookup_absent(s.drop_last(), k);
    }
}

/// With keys increasing, the value of an entry's key is that entry's value.
pub proof fn lemma_lookup_found<V>(s: Seq<(String, V)>, i: int, k: Seq<char>)
    requires
        keys_increasing(s),
        0 <= i < s.len(),
        s[i].0@ == k,
    ensures
        lookup(s, k) == Some(s[i].1),
    decreases s.len(),
{
    if i < s.len() - 1 {
        assert(key_lt(s[i].0@, s[s.len() - 1].0@));
        lemma_key_lt_irreflexive(k);
        assert(s.drop_last()[i] == s[i]);
        lemma_lookup_found(s.drop_last(), i, k);
    }
}

/// What `lookup` gives on entries with strictly increasing keys.
pub proof fn lemma_lookup_has_key<V>(s: Seq<(String, V)>, k: Seq<char>)
    requires
        keys_increasing(s),
    ensures
        lookup(s, k) is Some <==> has_key(s, k),
{
    if has_key(s, k) {
        let i = choose|i: int| 0 <= i < s.len() && (#[trigger] s[i]).0@ == k;
        lemma_lookup_found(s, i, k);
    } else {
        lemma_lookup_absent(s, k);
    }
}

/// The entries after placing `e` at `p`: replacing the entry there when
/// `replace`, else inserting before it.
pub open spec fn placed<V>(old: Seq<(String, V)>, p: int, replace: bool, e: (String, V)) -> Seq<(String, V)> {
    if replace {
        old.remove(p).insert(p, e)
    } else {
        old.insert(p, e)
    }
}

/// Placing an entry at the first key that does not precede its own keeps
/// the keys increasing, and changes the value of its key alone.
pub proof fn lemma_keyed_insert<V>(old: Seq<(String, V)>, p: int, replace: bool, e: (String, V))
    requires
        keys_increasing(old),
        0 <= p <= old.len(),
        forall|j: int| 0 <= j < p ==> key_lt((#[trigger] old[j]).0@, e.0@),
        replace ==> p < old.len() && old[p].0@ == e.0@,
        !replace && p < old.len() ==> !key_lt(old[p].0@, e.0@) && old[p].0@ != e.0@,
    ensures
        keys_increasing(placed(old, p, replace, e)),
        lookup(placed(old, p, replace, e), e.0@) == Some(e.1),
        forall|k2: Seq<char>| k2 != e.0@ ==> lookup(placed(old, p, replace, e), k2) == lookup(old, k2),
{
    let s = placed(old, p, replace, e);
    assert(s[p] == e);
    if p < old.len() && !replace && !key_lt(e.0@, old[p].0@) {
        lemma_key_lt_total(old[p].0@, e.0@);
    }
    assert forall|m: int| p <= m < old.len() && !(replace && m == p) implies key_lt(e.0@, #[trigger] old[m].0@) by {
        if replace {
            assert(key_lt(old[p].0@, old[m].0@));
        } else if m > p {
            assert(key_lt(old[p].0@, old[m].0@));
            lemma_key_lt_transitive(e.0@, old[p].0@, old[m].0@);
        }
    }
    assert forall|i: int, j: int| 0 <= i < j < s.len() implies key_lt(#[trigger] s[i].0@, #[trigger] s[j].0@) by {
        let oi = if i < p { i } else if replace { i } else { i - 1 };
        let oj = if j < p { j } else if replace { j } else { j - 1 };
        if i != p && j != p {
            assert(s[i] == old[oi]);
            assert(s[j] == old[oj]);
        } else if i == p {
            assert(s[j] == old[oj]);
        } else {
            assert(s[i] == old[oi]);
        }
    }
    lemma_lookup_found(s, p, e.0@);
    assert forall|k2: Seq<char>| k2 != e.0@ implies lookup(s, k2) == lookup(old, k2) by {
        if has_key(old, k2) {
            let j = choose|j: int| 0 <= j < old.len() && (#[trigger] old[j]).0@ == k2;
            lemma_lookup_found(old, j, k2);
            let j2 = if j < p { j } else if replace { j } else { j + 1 };
            assert(s[j2] == old[j]);
            lemma_lookup_found(s, j2, k2);
        } else {
            assert forall|i: int| 0 <= i < s.len() implies (#[trigger] s[i]).0@ != k2 by {
                if i != p {
                    let j = if i < p { i } else if replace { i } else { i - 1 };
                    assert(s[i] == old[j]);
                }
            }
            lemma_lookup_absent(old, k2);
            lemma_lookup_absent(s, k2);
        }
    }
}

impl ValueMap {
    /// The entries, in increasing key order.
    pub closed spec fn spec_entries(self) -> Seq<(String, Value)> {
        self.entries@
    }

    #[verifier::type_invariant]
    spec fn sorted(self) -> bool {
        keys_increasing(self.entries@)
    }

    /// The value under `k`.
    pub open spec fn spec_get(self, k: Seq<char>) -> Option<Value> {
        lookup(self.spec_entries(), k)
    }

    /// An empty map.
    pub fn new() -> (r: ValueMap)
        ensures
            r.spec_entries() == Seq::<(String, Value)>::empty(),
    {
        ValueMap { entries: Vec::new() }
    }

    /// The number of entries.
    pub fn len(&self) -> (r: usize)
        ensures
            r == self.spec_entries().len(),
    {
        self.entries.len()
    }

    /// The entries in increasing key order.
    pub fn entries(&self) -> (r: &Vec<(String, Value)>)
        ensures
            r@ == self.spec_entries(),
            keys_increasing(r@),
    {
        proof {
            use_type_invariant(self);
        }
        &self.entries
    }

    /// The value under `k`, if any.
    pub fn get(&self, k: &str) -> (r: Option<&Value>)
        ensures
            match r {
                Some(v) => self.spec_get(k@) == Some(*v),
                None => self.spec_get(k@) is None,
            },
    {
        proof {
            use_type_invariant(self);
        }
        let n = self.entries.len();
        let mut i: usize = 0;
        while i < n
            invariant
                n == self.entries@.len(),
                keys_increasing(self.entries@),
                i <= n,
                forall|j: int| 0 <= j < i ==> (#[trigger] self.entries@[j]).0@ != k@,
            decreases n - i,
        {
            if same_key(self.entries[i].0.as_str(), k) {
                proof {
                    lemma_lookup_found(self.entries@, i as int, k@);
                }
                return Some(&self.entries[i].1);
            }
            i = i + 1;
        }
        proof {
            lemma_lookup_absent(self.entries@, k@);
        }
        None
    }

    /// Whether `k` has a value.
    pub fn contains_key(&self, k: &str) -> (r: bool)
        ensures
            r == self.spec_get(k@) is Some,
    {
        self.get(k).is_some()
    }

    /// Stores `v` under `k`, replacing any earlier value there.
    pub fn insert(&mut self, k: String, v: Value)
        ensures
            final(self).spec_get(k@) == Some(v),
            forall|k2: Seq<char>| k2 != k@ ==> final(self).spec_get(k2) == old(self).spec_get(k2),
    {
        proof {
            use_type_invariant(&*self);
        }
        let mut taken = ValueMap::new();
        core::mem::swap(self, &mut taken);
        proof {
            use_type_invariant(&taken);
        }
        let mut entries = taken.entries;
        let ghost old_entries = entries@;
        let n = entries.len();
        let mut p: usize = 0;
        while p < n && key_less(entries[p].0.as_str(), k.as_str())
            invariant
                n == entries@.len(),
                entries@ == old_entries,
                keys_increasing(old_entries),
                p <= n,
                forall|j: int| 0 <= j < p ==> key_lt((#[trigger] old_entries[j]).0@, k@),
            decreases n - p,
        {
            p = p + 1;
        }
        let replace = p < n && same_key(entries[p].0.as_str(), k.as_str());
        let ghost e = (k, v);
        if replace {
            entries.remove(p);
        }
        entries.insert(p, (k, v));
        proof {
            lemma_keyed_insert(old_entries, p as int, replace, e);
        }
        *self = ValueMap { entries };
    }
}

/// `j` is the JSON form of `v`: maps become objects with the same keys in
/// the same order, a float becomes the number of the same value (or `null`
/// where it is not finite), and `Null` becomes `null`.
pub open spec fn json_matches(v: Value, j: JsonTree) -> bool
    decreases v,
{
    match v {
        Value::Null => j is Null,
        Value::Boolean(b) => j == JsonTree::Bool(b),
        Value::Number(Number::Integer(i)) => j == JsonTree::Int(i),
        Value::Number(Number::Float(n)) => j == json_of_number(n),
        Value::String(s) => j == JsonTree::Str(s@),
        Value::Array(vs) => {
            &&& j is Array
            &&& j->Array_0.len() == vs@.len()
            &&& forall|k: int| 0 <= k < vs@.len() ==> json_matches(#[trigger] vs@[k], j->Array_0[k])
        },
        Value::Mapping(m) => {
            &&& j is Object
            &&& j->Object_0.len() == m.spec_entries().len()
            &&& forall|k: int|
                0 <= k < m.spec_entries().len() ==> (#[trigger] j->Object_0[k]).0 == m.spec_entries()[k].0@
                    && json_matches(m.spec_entries()[k].1, j->Object_0[k].1)
        },
    }
}

impl Value {
    /// The string this value holds, if it is a string.
    pub fn as_string(&self) -> (r: Option<String>)
        ensures
            match self {
                Value::String(s) => r matches Some(x) && x@ == s@,
                _ => r is None,
            },
    {
        match self {
            Value::String(s) => Some(s.clone()),
            _ => None,
        }
    }

    /// The JSON form of this value, as the template engine reads it.
    pub fn to_json(&self) -> (r: serde_json::Value)
        ensures
            json_matches(*self, json_tree(r)),
        decreases self,
    {
        proof {
            reveal_with_fuel(json_matches, 2);
        }
        match self {
            Value::Null => json_null(),
            Value::Boolean(b) => json_bool(*b),
            Value::Number(Number::Integer(i)) => json_int(*i),
            Value::Number(Number::Float(n)) => json_number(n),
            Value::String(s) => json_string(s.clone()),
            Value::Array(vs) => {
                let mut items: Vec<serde_json::Value> = Vec::new();
                let n = vs.len();
                let mut k: usize = 0;
                while k < n
                    invariant
                        n == vs@.len(),
                        k <= n,
                        *self == Value::Array(*vs),
                        items@.len() == k,
                        forall|i: int| 0 <= i < k ==> json_matches(vs@[i], json_tree(#[trigger] items@[i])),
                    decreases n - k,
                {
                    proof {
                        let ghost w = *self;
                        assert(decreases_to!(w => w->Array_0));
                        assert(decreases_to!(w->Array_0 => w->Array_0@));
                        assert(decreases_to!(w->Array_0@ => w->Array_0@[k as int]));
                    }
                    let j = vs[k].to_json();
                    items.push(j);
                    k = k + 1;
                }
                let ghost iv = items@;
                let r = json_array(items);
                assert forall|i: int| 0 <= i < vs@.len() implies json_matches(#[trigger] vs@[i], json_tree(r)->Array_0[i]) by {
                    assert(json_tree(iv[i]) == json_tree(r)->Array_0[i]);
                }
                r
            },
            Value::Mapping(m) => m.to_json(),
        }
    }
}

impl ValueMap {
    /// The JSON object of this map.
    pub fn to_json(&self) -> (r: serde_json::Value)
        ensures
            json_matches(Value::Mapping(*self), json_tree(r)),
        decreases self,
    {
        proof {
            use_type_invariant(self);
        }
        let mut members: Vec<(String, serde_json::Value)> = Vec::new();
        let n = self.entries.len();
        let mut k: usize = 0;
        while k < n
            invariant
                n == self.entries@.len(),
                keys_increasing(self.entries@),
                k <= n,
                members@.len() == k,
                forall|i: int| 0 <= i < k ==> (#[trigger] members@[i]).0@ == self.entries@[i].0@,
                forall|i: int| 0 <= i < k ==> json_matches(self.entries@[i].1, json_tree(#[trigger] members@[i].1)),
            decreases n - k,
        {
            proof {
                assert(decreases_to!(*self => self.entries));
                assert(decreases_to!(self.entries => self.entries@));
                assert(decreases_to!(self.entries@ => self.entries@[k as int]));
                assert(decreases_to!(self.entries@[k as int] => self.entries@[k as int].1));
            }
            let j = self.entries[k].1.to_json();
            members.push((self.entries[k].0.clone(), j));
            k = k + 1;
        }
        proof {
            assert forall|i: int, j: int| 0 <= i < j < members@.len() implies crate::keys::key_lt(#[trigger] members@[i].0@, #[trigger] members@[j].0@) by {
                assert(crate::keys::key_lt(self.entries@[i].0@, self.entries@[j].0@));
            }
        }
        json_object(members)
    }
}

/// `t` is the YAML tree that serializing `v` gives, where no float of `v`
/// also has an integer form: `Null` as null, each scalar as the node of its
/// kind, an array as a sequence, and a map as a mapping with string keys
/// in strictly increasing key order. A float with an integer form is left
/// out: decoding may give it back as an integer.
pub open spec fn serializes(v: Value, t: YamlTree) -> bool
    decreases v,
{
    match v {
        Value::Null => t == YamlTree::Null,
        Value::Boolean(b) => t == YamlTree::Bool(b),
        Value::Number(Number::Integer(i)) => t is Number && t->Number_0 == Some(i),
        Value::Number(Number::Float(n)) => t is Number && t->Number_0 is None && t->Number_1 && t->Number_2 == n,
        Value::String(s) => t == YamlTree::Str(s@),
        Value::Array(vs) => {
            &&& t is Sequence
            &&& t->Sequence_0.len() == vs@.len()
            &&& forall|k: int| 0 <= k < vs@.len() ==> serializes(#[trigger] vs@[k], t->Sequence_0[k])
        },
        Value::Mapping(m) => {
            &&& keys_increasing(m.spec_entries())
            &&& t is Mapping
            &&& t->Mapping_0.len() == m.spec_entries().len()
            &&& forall|k: int|
                0 <= k < m.spec_entries().len() ==> (#[trigger] t->Mapping_0[k]).0 == YamlTree::Str(m.spec_entries()[k].0@)
                    && serializes(m.spec_entries()[k].1, t->Mapping_0[k].1)
        },
    }
}

proof fn lemma_last_with_key(es: Seq<(YamlTree, YamlTree)>, entries: Seq<(String, Value)>, k: Seq<char>)
    requires
        es.len() == entries.len(),
        forall|i: int| 0 <= i < es.len() ==> (#[trigger] es[i]).0 == YamlTree::Str(entries[i].0@),
        keys_increasing(entries),
    ensures
        last_with_key(es, k) is Some <==> has_key(entries, k),
        forall|i: int| 0 <= i < entries.len() && (#[trigger] entries[i]).0@ == k ==> last_with_key(es, k) == Some(i),
    decreases es.len(),
{
    if es.len() > 0 {
        let n = es.len() - 1;
        let d = entries.drop_last();
        assert forall|i: int| 0 <= i < es.drop_last().len() implies (#[trigger] es.drop_last()[i]).0 == YamlTree::Str(d[i].0@) by {
            assert(es.drop_last()[i] == es[i]);
        }
        assert(keys_increasing(d)) by {
            assert forall|i: int, j: int| 0 <= i < j < d.len() implies key_lt(#[trigger] d[i].0@, #[trigger] d[j].0@) by {
                assert(d[i] == entries[i] && d[j] == entries[j]);
            }
        }
        lemma_last_with_key(es.drop_last(), d, k);
        assert(es.last() == es[n]);
        assert forall|i: int| 0 <= i < entries.len() && (#[trigger] entries[i]).0@ == k implies last_with_key(es, k) == Some(i) by {
            if i < n {
                assert(key_lt(entries[i].0@, entries[n].0@));
                lemma_key_lt_irreflexive(k);
                assert(d[i] == entries[i]);
            }
        }
        if has_key(d, k) {
            let j = choose|j: int| 0 <= j < d.len() && (#[trigger] d[j]).0@ == k;
            assert(entries[j] == d[j]);
        }
        if has_key(entries, k) && entries[n].0@ != k {
            let j = choose|j: int| 0 <= j < entries.len() && (#[trigger] entries[j]).0@ == k;
            assert(d[j] == entries[j]);
        }
    }
}

/// Decoding the tree that serializing a value gives yields that value
/// again: the tree converts without error, and to `v`.
pub proof fn lemma_serialize_round_trip(v: Value, t: YamlTree)
    requires
        serializes(v, t),
    ensures
        yaml_convertible(t),
        converts(t, v),
    decreases v,
{
    match v {
        Value::Array(vs) => {
            let ts = t->Sequence_0;
            assert forall|k: int| 0 <= k < ts.len() implies yaml_convertible(#[trigger] ts[k]) && converts(ts[k], vs@[k]) by {
                assert(decreases_to!(v => v->Array_0));
                assert(decreases_to!(v->Array_0 => v->Array_0@));
                assert(decreases_to!(v->Array_0@ => v->Array_0@[k]));
                lemma_serialize_round_trip(vs@[k], ts[k]);
            }
        },
        Value::Mapping(m) => {
            let es = t->Mapping_0;
            let entries = m.entries@;
            assert forall|k: int| 0 <= k < es.len() implies yaml_convertible(es[k].1) && converts(#[trigger] es[k].1, entries[k].1) by {
                assert(decreases_to!(v => v->Mapping_0));
                assert(decreases_to!(v->Mapping_0 => v->Mapping_0.entries));
                assert(decreases_to!(v->Mapping_0.entries => v->Mapping_0.entries@));
                assert(decreases_to!(v->Mapping_0.entries@ => v->Mapping_0.entries@[k]));
                assert(decreases_to!(v->Mapping_0.entries@[k] => v->Mapping_0.entries@[k].1));
                lemma_serialize_round_trip(entries[k].1, es[k].1);
            }
            assert forall|k: Seq<char>| (#[trigger] m.spec_get(k)) is Some <==> last_with_key(es, k) is Some by {
                lemma_last_with_key(es, entries, k);
                lemma_lookup_has_key(entries, k);
            }
            assert forall|i: int|
                0 <= i < es.len() && (#[trigger] es[i]).0 is Str && last_with_key(es, es[i].0->Str_0) == Some(i)
                    implies converts(es[i].1, m.spec_get(es[i].0->Str_0)->0) by {
                lemma_lookup_found(entries, i, entries[i].0@);
            }
            assert forall|k: int| 0 <= k < es.len() && (#[trigger] es[k]).0 is Str implies yaml_convertible(es[k].1) by {
                assert(yaml_convertible(es[k].1) && converts(es[k].1, entries[k].1));
            }
        },
        _ => {},
    }
}

} // verus!
