//! Decoding front matter: YAML text to a decoder tree, and that tree to a
//! [`Value`].
use crate::error::{text, Error};
use crate::value::{Number, Value, ValueMap};
use vstd::prelude::*;

verus! {

broadcast use vstd::seq::group_seq_axioms;

/// What a decoded YAML tree holds, level by level.
pub enum YamlTree {
    Null,
    Bool(bool),
    /// A number: its value as an `i64` where it has one, whether it has a
    /// float form, the number itself, and its text.
    Number(Option<i64>, bool, serde_yaml::Number, Seq<char>),
    Str(Seq<char>),
    Sequence(Seq<YamlTree>),
    Mapping(Seq<(YamlTree, YamlTree)>),
    Tagged(Box<YamlTree>),
}

/// The contents of a decoded YAML value.
pub uninterp spec fn yaml_tree(v: serde_yaml::Value) -> YamlTree;

/// One level of a decoded YAML value; its children are still undecoded.
pub enum YamlNode {
    Null,
    Bool(bool),
    Number(Option<i64>, bool, serde_yaml::Number, String),
    Str(String),
    Sequence(Vec<serde_yaml::Value>),
    Mapping(Vec<(serde_yaml::Value, serde_yaml::Value)>),
    Tagged(serde_yaml::Value),
}

/// `n` is the top level of the tree `t`.
pub open spec fn node_of(n: YamlNode, t: YamlTree) -> bool {
    match n {
        YamlNode::Null => t == YamlTree::Null,
        YamlNode::Bool(b) => t == YamlTree::Bool(b),
        YamlNode::Number(i, f, n, s) => t == YamlTree::Number(i, f, n, s@),
        YamlNode::Str(s) => t == YamlTree::Str(s@),
        YamlNode::Sequence(items) => {
            &&& t is Sequence
            &&& t->Sequence_0.len() == items@.len()
            &&& forall|k: int| 0 <= k < items@.len() ==> yaml_tree(#[trigger] items@[k]) == t->Sequence_0[k]
        },
        YamlNode::Mapping(es) => {
            &&& t is Mapping
            &&& t->Mapping_0.len() == es@.len()
            &&& forall|k: int|
                0 <= k < es@.len() ==> yaml_tree((#[trigger] es@[k]).0) == t->Mapping_0[k].0
                    && yaml_tree(es@[k].1) == t->Mapping_0[k].1
        },
        YamlNode::Tagged(x) => t == YamlTree::Tagged(Box::new(yaml_tree(x))),
    }
}

/// The tree that YAML text decodes to, if it decodes.
pub uninterp spec fn yaml_decoded(s: Seq<char>) -> Option<YamlTree>;

/// The decoder's message for YAML text that does not decode.
pub uninterp spec fn yaml_error_message(s: Seq<char>) -> Seq<char>;

/// Relies on `serde_yaml::from_str` into `serde_yaml::Value`: decodes YAML
/// text, or fails with the decoder's error, given by its `Display`; the
/// outcome depends on the text alone.
#[verifier::external_body]
fn decode_yaml(s: &str) -> (r: Result<serde_yaml::Value, String>)
    ensures
        match r {
            Ok(v) => yaml_decoded(s@) == Some(yaml_tree(v)),
            Err(m) => yaml_decoded(s@) is None && m@ == yaml_error_message(s@),
        },
{
    serde_yaml::from_str::<serde_yaml::Value>(s).map_err(|e| e.to_string())
}

/// Relies on the variants of `serde_yaml::Value`, with `Number::as_i64`,
/// `Number::as_f64`, `Number`'s `Clone` and `Number`'s `Display` for a
/// number, and the entries of a `Mapping` in its own order.
#[verifier::external_body]
fn yaml_node(v: serde_yaml::Value) -> (r: YamlNode)
    ensures
        node_of(r, yaml_tree(v)),
{
    match v {
        serde_yaml::Value::Null => YamlNode::Null,
        serde_yaml::Value::Bool(b) => YamlNode::Bool(b),
        serde_yaml::Value::Number(n) => YamlNode::Number(n.as_i64(), n.as_f64().is_some(), n.clone(), n.to_string()),
        serde_yaml::Value::String(s) => YamlNode::Str(s),
        serde_yaml::Value::Sequence(s) => YamlNode::Sequence(s),
        serde_yaml::Value::Mapping(m) => YamlNode::Mapping(m.into_iter().collect()),
        serde_yaml::Value::Tagged(t) => YamlNode::Tagged(t.value),
    }
}

/// The index of the last entry of `es` whose key is the string `k`.
pub open spec fn last_with_key(es: Seq<(YamlTree, YamlTree)>, k: Seq<char>) -> Option<int>
    decreases es.len(),
{
    if es.len() == 0 {
        None
    } else if es.last().0 == YamlTree::Str(k) {
        Some(es.len() - 1)
    } else {
        last_with_key(es.drop_last(), k)
    }
}

/// Every number that conversion reaches has an integer or a float form.
pub open spec fn yaml_convertible(t: YamlTree) -> bool
    decreases t,
{
    match t {
        YamlTree::Number(i, f, _, _) => i is Some || f,
        YamlTree::Sequence(ts) => forall|k: int| 0 <= k < ts.len() ==> yaml_convertible(#[trigger] ts[k]),
        YamlTree::Mapping(es) => forall|k: int|
            0 <= k < es.len() && (#[trigger] es[k]).0 is Str ==> yaml_convertible(es[k].1),
        YamlTree::Tagged(b) => yaml_convertible(*b),
        _ => true,
    }
}

/// The message of a number that has neither an integer nor a float form.
pub open spec fn bad_number_message(txt: Seq<char>) -> Seq<char> {
    "Unknown number format while parsing YAML: "@ + txt
}

/// The text of the first number, in conversion order, that has neither an
/// integer nor a float form.
pub open spec fn first_bad(t: YamlTree) -> Option<Seq<char>>
    decreases t,
{
    match t {
        YamlTree::Number(i, f, _, x) => if i is None && !f {
            Some(x)
        } else {
            None
        },
        YamlTree::Sequence(ts) => first_bad_items(ts),
        YamlTree::Mapping(es) => first_bad_entries(es),
        YamlTree::Tagged(b) => first_bad(*b),
        _ => None,
    }
}

/// The first such number among the elements of a sequence.
pub open spec fn first_bad_items(ts: Seq<YamlTree>) -> Option<Seq<char>>
    decreases ts,
{
    if ts.len() == 0 {
        None
    } else {
        match first_bad_items(ts.subrange(0, ts.len() - 1)) {
            Some(x) => Some(x),
            None => first_bad(ts[ts.len() - 1]),
        }
    }
}

/// The first such number among the values of a mapping's string keys.
pub open spec fn first_bad_entries(es: Seq<(YamlTree, YamlTree)>) -> Option<Seq<char>>
    decreases es,
{
    if es.len() == 0 {
        None
    } else {
        match first_bad_entries(es.subrange(0, es.len() - 1)) {
            Some(x) => Some(x),
            None => if es[es.len() - 1].0 is Str {
                first_bad(es[es.len() - 1].1)
            } else {
                None
            },
        }
    }
}

proof fn lemma_first_bad_items_prefix(ts: Seq<YamlTree>, j: int)
    requires
        0 <= j <= ts.len(),
        first_bad_items(ts.take(j)) is Some,
    ensures
        first_bad_items(ts) == first_bad_items(ts.take(j)),
    decreases ts.len(),
{
    if j == ts.len() {
        assert(ts.take(j) =~= ts);
    } else {
        let d = ts.subrange(0, ts.len() - 1);
        assert(d.take(j) =~= ts.take(j));
        lemma_first_bad_items_prefix(d, j);
    }
}

proof fn lemma_first_bad_entries_prefix(es: Seq<(YamlTree, YamlTree)>, j: int)
    requires
        0 <= j <= es.len(),
        first_bad_entries(es.take(j)) is Some,
    ensures
        first_bad_entries(es) == first_bad_entries(es.take(j)),
    decreases es.len(),
{
    if j == es.len() {
        assert(es.take(j) =~= es);
    } else {
        let d = es.subrange(0, es.len() - 1);
        assert(d.take(j) =~= es.take(j));
        lemma_first_bad_entries_prefix(d, j);
    }
}

/// `e` is the error for the first number of `t`, in conversion order, that
/// has neither an integer nor a float form.
pub open spec fn bad_number_error(t: YamlTree, e: Error) -> bool {
    first_bad(t) is Some && (e matches Error::Other(m) && m@ == bad_number_message(first_bad(t)->0))
}

/// `v` is what the tree `t` converts to: numbers prefer the integer form,
/// sequences convert element by element, mappings keep their string keys
/// only (the last entry of a key wins), and a tag is dropped.
pub open spec fn converts(t: YamlTree, v: Value) -> bool
    decreases t,
{
    match t {
        YamlTree::Null => v is Null,
        YamlTree::Bool(b) => v == Value::Boolean(b),
        YamlTree::Number(i, f, n, _) => match i {
            Some(x) => v == Value::Number(Number::Integer(x)),
            None => f && v == Value::Number(Number::Float(n)),
        },
        YamlTree::Str(s) => v is String && v->String_0@ == s,
        YamlTree::Sequence(ts) => {
            &&& v is Array
            &&& v->Array_0@.len() == ts.len()
            &&& forall|k: int| 0 <= k < ts.len() ==> converts(#[trigger] ts[k], v->Array_0@[k])
        },
        YamlTree::Mapping(es) => {
            &&& v is Mapping
            &&& forall|k: Seq<char>|
                (#[trigger] v->Mapping_0.spec_get(k)) is Some <==> last_with_key(es, k) is Some
            &&& forall|i: int|
                0 <= i < es.len() && (#[trigger] es[i]).0 is Str && last_with_key(es, es[i].0->Str_0)
                    == Some(i) ==> converts(es[i].1, v->Mapping_0.spec_get(es[i].0->Str_0)->0)
        },
        YamlTree::Tagged(b) => converts(*b, v),
    }
}

/// The tree converts to a mapping: it is one, under any number of tags.
pub open spec fn yields_mapping(t: YamlTree) -> bool
    decreases t,
{
    match t {
        YamlTree::Mapping(_) => true,
        YamlTree::Tagged(b) => yields_mapping(*b),
        _ => false,
    }
}

/// A tree converts to a mapping exactly when it is one, under any tags.
pub proof fn lemma_yields_mapping(t: YamlTree, v: Value)
    requires
        converts(t, v),
    ensures
        v is Mapping <==> yields_mapping(t),
    decreases t,
{
    if let YamlTree::Tagged(b) = t {
        lemma_yields_mapping(*b, v);
    }
}

/// Converts a decoded YAML value into a [`Value`]. It fails only on a
/// number with neither an integer nor a float form.
pub fn value_from_yaml(y: serde_yaml::Value) -> (r: Result<Value, Error>)
    ensures
        match r {
            Ok(v) => yaml_convertible(yaml_tree(y)) && first_bad(yaml_tree(y)) is None && converts(yaml_tree(y), v),
            Err(e) => !yaml_convertible(yaml_tree(y)) && bad_number_error(yaml_tree(y), e),
        },
    decreases yaml_tree(y),
{
    let ghost t = yaml_tree(y);
    match yaml_node(y) {
        YamlNode::Null => Ok(Value::Null),
        YamlNode::Bool(b) => Ok(Value::Boolean(b)),
        YamlNode::Number(i, f, n, s) => match i {
            Some(x) => Ok(Value::Number(Number::Integer(x))),
            None => if f {
                Ok(Value::Number(Number::Float(n)))
            } else {
                let mut m = text("Unknown number format while parsing YAML: ");
                m.append(s.as_str());
                Err(Error::Other(m))
            },
        },
        YamlNode::Str(s) => Ok(Value::String(s)),
        YamlNode::Sequence(items) => {
            let ghost ts = t->Sequence_0;
            let ghost items_view = items@;
            let mut out: Vec<Value> = Vec::new();
            for item in it: items.into_iter()
                invariant
                    t == yaml_tree(y),
                    t == YamlTree::Sequence(ts),
                    ts.len() == items_view.len(),
                    it.seq() == items_view,
                    forall|k: int| 0 <= k < items_view.len() ==> yaml_tree(#[trigger] items_view[k]) == ts[k],
                    out@.len() == it.index(),
                    forall|k: int| 0 <= k < it.index() ==> converts(ts[k], #[trigger] out@[k]),
                    forall|k: int| 0 <= k < it.index() ==> yaml_convertible(#[trigger] ts[k]),
                    first_bad_items(ts.take(it.index() as int)) is None,
            {
                let ghost k = it.index();
                assert(yaml_tree(item) == ts[k as int]);
                proof {
                    assert(decreases_to!(t => t->Sequence_0));
                    assert(decreases_to!(t->Sequence_0 => t->Sequence_0[k as int]));
                    assert(decreases_to!(t => ts[k as int]));
                }
                proof {
                    assert(ts.take(k + 1).subrange(0, k as int) =~= ts.take(k as int));
                    assert(ts.take(k + 1)[k as int] == ts[k as int]);
                }
                match value_from_yaml(item) {
                    Ok(v) => {
                        out.push(v);
                    },
                    Err(e) => {
                        assert(!yaml_convertible(ts[k as int]));
                        proof {
                            lemma_first_bad_items_prefix(ts, k + 1);
                        }
                        return Err(e);
                    },
                }
            }
            proof {
                assert(ts.take(ts.len() as int) =~= ts);
            }
            Ok(Value::Array(out))
        },
        YamlNode::Mapping(es) => {
            let ghost ets = t->Mapping_0;
            let ghost es_view = es@;
            let mut map = ValueMap::new();
            for kv in it: es.into_iter()
                invariant
                    t == yaml_tree(y),
                    t == YamlTree::Mapping(ets),
                    ets.len() == es_view.len(),
                    it.seq() == es_view,
                    forall|k: int|
                        0 <= k < es_view.len() ==> yaml_tree((#[trigger] es_view[k]).0) == ets[k].0
                            && yaml_tree(es_view[k].1) == ets[k].1,
                    forall|k: Seq<char>|
                        (#[trigger] map.spec_get(k)) is Some <==> last_with_key(ets.take(it.index() as int), k) is Some,
                    forall|j: int|
                        0 <= j < it.index() && (#[trigger] ets[j]).0 is Str
                            && last_with_key(ets.take(it.index() as int), ets[j].0->Str_0) == Some(j)
                            ==> converts(ets[j].1, map.spec_get(ets[j].0->Str_0)->0),
                    forall|j: int| 0 <= j < it.index() && (#[trigger] ets[j]).0 is Str ==> yaml_convertible(ets[j].1),
                    first_bad_entries(ets.take(it.index() as int)) is None,
            {
                let ghost i = it.index() as int;
                let (ky, vy) = kv;
                assert(ets.take(i + 1).drop_last() =~= ets.take(i));
                assert(ets.take(i + 1).subrange(0, i) =~= ets.take(i));
                assert(ets.take(i + 1)[i] == ets[i]);
                match yaml_node(ky) {
                    YamlNode::Str(s) => {
                        proof {
                            assert(decreases_to!(t => t->Mapping_0));
                            assert(decreases_to!(t->Mapping_0 => t->Mapping_0[i]));
                            assert(decreases_to!(t->Mapping_0[i] => t->Mapping_0[i].1));
                            assert(decreases_to!(t => ets[i].1));
                        }
                        match value_from_yaml(vy) {
                            Ok(v) => {
                                let ghost key = s@;
                                map.insert(s, v);
                                assert forall|j: int|
                                    0 <= j < i + 1 && (#[trigger] ets[j]).0 is Str
                                        && last_with_key(ets.take(i + 1), ets[j].0->Str_0) == Some(j)
                                        implies converts(ets[j].1, map.spec_get(ets[j].0->Str_0)->0) by {
                                    if j < i {
                                        assert(ets[j].0->Str_0 != key);
                                        assert(last_with_key(ets.take(i + 1), ets[j].0->Str_0) == last_with_key(ets.take(i), ets[j].0->Str_0));
                                    }
                                }
                            },
                            Err(e) => {
                                assert(ets[i].0 is Str && !yaml_convertible(ets[i].1));
                                proof {
                                    lemma_first_bad_entries_prefix(ets, i + 1);
                                }
                                return Err(e);
                            },
                        }
                    },
                    _ => {
                        assert forall|k: Seq<char>| last_with_key(ets.take(i + 1), k) == last_with_key(ets.take(i), k) by {}
                    },
                }
            }
            assert(ets.take(ets.len() as int) =~= ets);
            Ok(Value::Mapping(map))
        },
        YamlNode::Tagged(x) => {
            proof {
                assert(decreases_to!(t => *t->Tagged_0));
            }
            let r = value_from_yaml(x);
            r
        },
    }
}

/// Decodes YAML text into a [`Value`].
pub fn parse_yaml_data(s: &str) -> (r: Result<Value, Error>)
    ensures
        match yaml_decoded(s@) {
            None => r matches Err(Error::Other(m)) && m@ == "YAML deserialization failure: "@ + yaml_error_message(s@),
            Some(t) => match r {
                Ok(v) => yaml_convertible(t) && converts(t, v),
                Err(e) => !yaml_convertible(t) && bad_number_error(t, e),
            },
        },
{
    match decode_yaml(s) {
        Ok(y) => value_from_yaml(y),
        Err(reason) => {
            let mut m = text("YAML deserialization failure: ");
            m.append(reason.as_str());
            Err(Error::Other(m))
        },
    }
}

} // verus!
