//! The tag index: for each tag, the posts of the collection that carry it.
use crate::config::Bloggo;
use crate::keys::{key_less, key_lt, same_key};
use crate::value::{keys_increasing, lemma_keyed_insert, lookup, Value, ValueMap};
use vstd::prelude::*;

verus! {

/// The strings among `a`, in order.
pub open spec fn string_items(a: Seq<Value>) -> Seq<Seq<char>>
    decreases a.len(),
{
    if a.len() == 0 {
        Seq::empty()
    } else {
        let r = string_items(a.drop_last());
        match a.last() {
            Value::String(s) => r.push(s@),
            _ => r,
        }
    }
}

/// The tags of a post: its `tags` string, or the strings of its `tags`
/// array, with repeats.
pub open spec fn tags_of(p: ValueMap) -> Seq<Seq<char>> {
    match p.spec_get("tags"@) {
        Some(Value::String(s)) => seq![s@],
        Some(Value::Array(a)) => string_items(a@),
        _ => Seq::empty(),
    }
}

/// `i`, once for each occurrence of `t` in `tags`.
pub open spec fn occurrences(tags: Seq<Seq<char>>, t: Seq<char>, i: usize) -> Seq<usize>
    decreases tags.len(),
{
    if tags.len() == 0 {
        Seq::empty()
    } else {
        let r = occurrences(tags.drop_last(), t, i);
        if tags.last() == t {
            r.push(i)
        } else {
            r
        }
    }
}

/// The bucket of tag `t`: the index of each post that carries `t`, in
/// collection order, once per occurrence of `t` among its tags.
pub open spec fn bucket_of(posts: Seq<ValueMap>, t: Seq<char>) -> Seq<usize>
    decreases posts.len(),
{
    if posts.len() == 0 {
        Seq::empty()
    } else {
        bucket_of(posts.drop_last(), t) + occurrences(tags_of(posts.last()), t, (posts.len() - 1) as usize)
    }
}

/// A mapping from tag names, in increasing order, to the positions in the
/// collection of the posts that carry them.
pub struct TagIndex {
    entries: Vec<(String, Vec<usize>)>,
}

impl TagIndex {
    /// The tags with their buckets, tags in increasing order.
    pub closed spec fn spec_entries(self) -> Seq<(String, Vec<usize>)> {
        self.entries@
    }

    #[verifier::type_invariant]
    spec fn sorted(self) -> bool {
        keys_increasing(self.entries@)
    }

    /// The bucket of tag `t`; empty for a tag that no post carries.
    pub open spec fn spec_bucket(self, t: Seq<char>) -> Seq<usize> {
        match lookup(self.spec_entries(), t) {
            Some(b) => b@,
            None => Seq::empty(),
        }
    }

    /// Whether the index has a bucket for `t`.
    pub open spec fn spec_has_tag(self, t: Seq<char>) -> bool {
        lookup(self.spec_entries(), t) is Some
    }

    /// An empty index.
    pub fn new() -> (r: TagIndex)
        ensures
            forall|t: Seq<char>| !r.spec_has_tag(t) && r.spec_bucket(t) == Seq::<usize>::empty(),
    {
        TagIndex { entries: Vec::new() }
    }

    /// The tags and their buckets, tags in increasing order.
    pub fn entries(&self) -> (r: &Vec<(String, Vec<usize>)>)
        ensures
            r@ == self.spec_entries(),
            keys_increasing(r@),
    {
        proof {
            use_type_invariant(self);
        }
        &self.entries
    }

    /// Appends `i` to the bucket of `t`, making the bucket if needed.
    pub fn add(&mut self, t: &str, i: usize)
        ensures
            final(self).spec_has_tag(t@),
            final(self).spec_bucket(t@) == old(self).spec_bucket(t@).push(i),
            forall|t2: Seq<char>|
                t2 != t@ ==> final(self).spec_bucket(t2) == old(self).spec_bucket(t2) && final(self).spec_has_tag(t2)
                    == old(self).spec_has_tag(t2),
    {
        proof {
            use_type_invariant(&*self);
        }
        let mut taken = TagIndex::new();
        core::mem::swap(self, &mut taken);
        proof {
            use_type_invariant(&taken);
        }
        let mut entries = taken.entries;
        let ghost old_entries = entries@;
        let n = entries.len();
        let mut p: usize = 0;
        while p < n && key_less(entries[p].0.as_str(), t)
            invariant
                n == entries@.len(),
                entries@ == old_entries,
                keys_increasing(old_entries),
                p <= n,
                forall|j: int| 0 <= j < p ==> key_lt((#[trigger] old_entries[j]).0@, t@),
            decreases n - p,
        {
            p = p + 1;
        }
        let replace = p < n && same_key(entries[p].0.as_str(), t);
        if replace {
            let (key, mut bucket) = entries.remove(p);
            proof {
                crate::value::lemma_lookup_found(old_entries, p as int, t@);
            }
            bucket.push(i);
            let ghost e = (key, bucket);
            entries.insert(p, (key, bucket));
            proof {
                lemma_keyed_insert(old_entries, p as int, true, e);
            }
        } else {
            let mut bucket: Vec<usize> = Vec::new();
            bucket.push(i);
            let key = t.to_owned();
            let ghost e = (key, bucket);
            proof {
                crate::value::lemma_lookup_has_key(old_entries, t@);
                assert(!crate::value::has_key(old_entries, t@)) by {
                    if crate::value::has_key(old_entries, t@) {
                        let j = choose|j: int| 0 <= j < old_entries.len() && (#[trigger] old_entries[j]).0@ == t@;
                        if j < p {
                            crate::keys::lemma_key_lt_irreflexive(t@);
                        } else if j > p {
                            assert(key_lt(old_entries[p as int].0@, old_entries[j].0@));
                        }
                    }
                }
                assert(bucket@ =~= Seq::<usize>::empty().push(i));
            }
            entries.insert(p, (key, bucket));
            proof {
                lemma_keyed_insert(old_entries, p as int, false, e);
            }
        }
        *self = TagIndex { entries };
    }
}

proof fn lemma_bucket_step(posts: Seq<ValueMap>, i: int, t: Seq<char>)
    requires
        0 <= i < posts.len(),
    ensures
        bucket_of(posts.take(i + 1), t) == bucket_of(posts.take(i), t) + occurrences(tags_of(posts[i]), t, i as usize),
{
    assert(posts.take(i + 1).drop_last() =~= posts.take(i));
}

impl Bloggo {
    /// The tag index of a collection: for each tag, the positions of the
    /// posts that carry it, in collection order. A post appears in a bucket
    /// once for each time the tag occurs among its tags.
    pub fn generate_tag_indexes(&self, posts: &Vec<ValueMap>) -> (r: TagIndex)
        ensures
            forall|t: Seq<char>| #[trigger] r.spec_bucket(t) == bucket_of(posts@, t),
            forall|t: Seq<char>| #[trigger] r.spec_has_tag(t) <==> bucket_of(posts@, t).len() > 0,
    {
        proof {
            reveal_strlit("tags");
        }
        let mut index = TagIndex::new();
        let n = posts.len();
        let mut i: usize = 0;
        while i < n
            invariant
                n == posts@.len(),
                i <= n,
                forall|t: Seq<char>| #[trigger] index.spec_bucket(t) == bucket_of(posts@.take(i as int), t),
                forall|t: Seq<char>| #[trigger] index.spec_has_tag(t) <==> bucket_of(posts@.take(i as int), t).len() > 0,
            decreases n - i,
        {
            proof {
                assert forall|t: Seq<char>| bucket_of(posts@.take(i + 1), t) == bucket_of(posts@.take(i as int), t)
                    + occurrences(tags_of(posts@[i as int]), t, i) by {
                    lemma_bucket_step(posts@, i as int, t);
                }
            }
            match posts[i].get("tags") {
                Some(Value::String(s)) => {
                    let ghost before = index;
                    index.add(s.as_str(), i);
                    proof {
                        assert forall|t: Seq<char>| #[trigger] index.spec_bucket(t) == bucket_of(posts@.take(i + 1), t) by {
                            reveal_with_fuel(occurrences, 2);
                            assert(seq![s@].drop_last() =~= Seq::<Seq<char>>::empty());
                            if t == s@ {
                                assert(before.spec_bucket(t).push(i) =~= before.spec_bucket(t) + seq![i]);
                            } else {
                                assert(before.spec_bucket(t) =~= before.spec_bucket(t) + Seq::<usize>::empty());
                            }
                        }
                    }
                },
                Some(Value::Array(a)) => {
                    let m = a.len();
                    let mut j: usize = 0;
                    while j < m
                        invariant
                            n == posts@.len(),
                            i < n,
                            posts@[i as int].spec_get("tags"@) == Some(Value::Array(*a)),
                            m == a@.len(),
                            j <= m,
                            forall|t: Seq<char>| #[trigger] index.spec_bucket(t) == bucket_of(posts@.take(i as int), t)
                                + occurrences(string_items(a@.take(j as int)), t, i),
                            forall|t: Seq<char>| #[trigger] index.spec_has_tag(t) <==> index.spec_bucket(t).len() > 0,
                        decreases m - j,
                    {
                        let ghost before = index;
                        proof {
                            assert(a@.take(j + 1).drop_last() =~= a@.take(j as int));
                        }
                        match &a[j] {
                            Value::String(s) => {
                                index.add(s.as_str(), i);
                                proof {
                                    let items = string_items(a@.take(j as int));
                                    assert(a@.take(j + 1).last() == a@[j as int]);
                                    assert(string_items(a@.take(j + 1)) == items.push(s@));
                                    assert(items.push(s@).drop_last() =~= items);
                                    assert forall|t: Seq<char>| #[trigger] index.spec_bucket(t) == bucket_of(posts@.take(i as int), t)
                                        + occurrences(string_items(a@.take(j + 1)), t, i) by {
                                        assert(occurrences(items.push(s@), t, i) == if s@ == t {
                                            occurrences(items, t, i).push(i)
                                        } else {
                                            occurrences(items, t, i)
                                        });
                                        if t == s@ {
                                            assert(before.spec_bucket(t).push(i) =~= bucket_of(posts@.take(i as int), t)
                                                + occurrences(string_items(a@.take(j as int)), t, i).push(i));
                                        }
                                    }
                                }
                            },
                            _ => {
                                proof {
                                    assert(a@.take(j + 1).last() == a@[j as int]);
                                    assert(string_items(a@.take(j + 1)) == string_items(a@.take(j as int)));
                                }
                            },
                        }
                        j = j + 1;
                    }
                    proof {
                        assert(a@.take(m as int) =~= a@);
                    }
                },
                _ => {
                    proof {
                        assert forall|t: Seq<char>| #[trigger] index.spec_bucket(t) == bucket_of(posts@.take(i + 1), t) by {
                            assert(index.spec_bucket(t) =~= index.spec_bucket(t) + Seq::<usize>::empty());
                        }
                    }
                },
            }
            i = i + 1;
        }
        proof {
            assert(posts@.take(n as int) =~= posts@);
        }
        index
    }
}

} // verus!
