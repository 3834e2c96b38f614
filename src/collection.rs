//! Assembling posts into a collection: newest first, and indexed by tag.
use crate::config::Bloggo;
use crate::dates::{
    days_from_civil, is_plain_date, midnight_rfc3339, midnight_timestamp, number_at, parse_rfc3339, parse_ymd,
    rfc3339_instant, valid_date, ymd_parsed,
};
use crate::error::Error;
use crate::post::post_outcome;
use crate::value::{Value, ValueMap};
use vstd::prelude::*;

verus! {

/// The sort key of a bare `YYYY-MM-DD` date: midnight UTC of that day.
pub open spec fn plain_date_key(s: Seq<char>) -> (i64, u32) {
    ((86400 * days_from_civil(number_at(s, 0, 4), number_at(s, 5, 7), number_at(s, 8, 10))) as i64, 0u32)
}

/// The sort key of date text: its instant as RFC 3339, as seconds since
/// the Unix epoch and nanoseconds; for a date without a time, midnight UTC
/// of that date; else the epoch itself.
pub open spec fn date_key(s: Seq<char>) -> (i64, u32) {
    if is_plain_date(s) {
        plain_date_key(s)
    } else {
        match rfc3339_instant(s) {
            Some((secs, nanos, _)) => (secs, nanos),
            None => match ymd_parsed(s) {
                Some((y, m, d)) => ((86400 * days_from_civil(y as int, m as int, d as int)) as i64, 0u32),
                None => (0, 0),
            },
        }
    }
}

/// The text of a post's `date`, where it is a string.
pub open spec fn date_text(p: ValueMap) -> Option<Seq<char>> {
    match p.spec_get("date"@) {
        Some(Value::String(s)) => Some(s@),
        _ => None,
    }
}

/// A post's sort key: the key of its `date`, or the epoch where it has no
/// date string.
pub open spec fn key_of(p: ValueMap) -> (i64, u32) {
    match p.spec_get("date"@) {
        Some(Value::String(s)) => date_key(s@),
        _ => (0, 0),
    }
}

/// Key `a` is strictly later than key `b`.
pub open spec fn later(a: (i64, u32), b: (i64, u32)) -> bool {
    a.0 > b.0 || (a.0 == b.0 && a.1 > b.1)
}

/// Where a post with key `k` goes in `r`: before the first post that is
/// strictly earlier than it, so after every post with an equal key.
pub open spec fn insert_pos(r: Seq<ValueMap>, k: (i64, u32)) -> int
    decreases r.len(),
{
    if r.len() == 0 {
        0
    } else if later(k, key_of(r[0])) {
        0
    } else {
        1 + insert_pos(r.drop_first(), k)
    }
}

/// The posts ordered newest first by a stable sort: posts with equal keys
/// keep their order in `s`.
pub open spec fn newest_first(s: Seq<ValueMap>) -> Seq<ValueMap>
    decreases s.len(),
{
    if s.len() == 0 {
        Seq::empty()
    } else {
        let r = newest_first(s.drop_last());
        r.insert(insert_pos(r, key_of(s.last())), s.last())
    }
}

/// No post is later than one before it.
pub open spec fn is_newest_first(s: Seq<ValueMap>) -> bool {
    forall|i: int, j: int| 0 <= i < j < s.len() ==> !later(key_of(#[trigger] s[j]), key_of(#[trigger] s[i]))
}

proof fn lemma_insert_pos_bounds(r: Seq<ValueMap>, k: (i64, u32))
    ensures
        0 <= insert_pos(r, k) <= r.len(),
        forall|i: int| 0 <= i < insert_pos(r, k) ==> !later(k, key_of(#[trigger] r[i])),
        insert_pos(r, k) < r.len() ==> later(k, key_of(r[insert_pos(r, k)])),
    decreases r.len(),
{
    if r.len() > 0 && !later(k, key_of(r[0])) {
        lemma_insert_pos_bounds(r.drop_first(), k);
        assert forall|i: int| 0 <= i < insert_pos(r, k) implies !later(k, key_of(#[trigger] r[i])) by {
            if i > 0 {
                assert(r[i] == r.drop_first()[i - 1]);
            }
        }
    }
}

/// The newest-first order is ordered by key and holds the same posts.
pub proof fn lemma_newest_first_ordered(s: Seq<ValueMap>)
    ensures
        newest_first(s).len() == s.len(),
        newest_first(s).to_multiset() == s.to_multiset(),
        is_newest_first(newest_first(s)),
    decreases s.len(),
{
    if s.len() > 0 {
        let r = newest_first(s.drop_last());
        lemma_newest_first_ordered(s.drop_last());
        let k = key_of(s.last());
        let p = insert_pos(r, k);
        lemma_insert_pos_bounds(r, k);
        vstd::seq_lib::to_multiset_insert(r, p, s.last());
        vstd::seq_lib::to_multiset_build(s.drop_last(), s.last());
        assert(s.drop_last().push(s.last()) =~= s);
        assert(newest_first(s) == r.insert(p, s.last()));
        assert(newest_first(s).to_multiset() == s.drop_last().to_multiset().insert(s.last()));
        let t = r.insert(p, s.last());
        assert forall|i: int, j: int| 0 <= i < j < t.len() implies !later(key_of(#[trigger] t[j]), key_of(#[trigger] t[i])) by {
            if i == p {
                if p < r.len() {
                    assert(t[j] == r[j - 1]);
                    assert(!later(key_of(r[j - 1]), key_of(r[p])) || j - 1 == p);
                    assert(later(k, key_of(r[p])));
                }
            } else if j == p {
                assert(t[i] == r[i]);
            } else {
                let oi = if i < p { i } else { i - 1 };
                let oj = if j < p { j } else { j - 1 };
                assert(t[i] == r[oi]);
                assert(t[j] == r[oj]);
            }
        }
    } else {
        assert(s =~= Seq::<ValueMap>::empty());
    }
}

/// Ordering a collection whose posts already come newest first leaves it
/// as it is, posts with equal dates included: sorting is idempotent.
pub proof fn lemma_newest_first_idempotent(s: Seq<ValueMap>)
    requires
        is_newest_first(s),
    ensures
        newest_first(s) == s,
    decreases s.len(),
{
    if s.len() > 0 {
        let d = s.drop_last();
        assert(is_newest_first(d)) by {
            assert forall|i: int, j: int| 0 <= i < j < d.len() implies !later(key_of(#[trigger] d[j]), key_of(#[trigger] d[i])) by {
                assert(d[i] == s[i] && d[j] == s[j]);
            }
        }
        lemma_newest_first_idempotent(d);
        let k = key_of(s.last());
        lemma_insert_pos_bounds(d, k);
        if insert_pos(d, k) < d.len() {
            assert(!later(key_of(s[s.len() - 1]), key_of(s[insert_pos(d, k)])));
        }
        assert(d.insert(d.len() as int, s.last()) =~= s);
    }
}

/// Of two posts with bare `YYYY-MM-DD` dates, the one on the later day
/// comes first in any collection ordered newest first.
pub proof fn lemma_later_day_first(r: Seq<ValueMap>, i: int, j: int, a: Seq<char>, b: Seq<char>)
    requires
        is_newest_first(r),
        0 <= i < r.len(),
        0 <= j < r.len(),
        date_text(r[i]) == Some(a),
        date_text(r[j]) == Some(b),
        is_plain_date(a),
        is_plain_date(b),
        days_from_civil(number_at(a, 0, 4), number_at(a, 5, 7), number_at(a, 8, 10)) > days_from_civil(
            number_at(b, 0, 4),
            number_at(b, 5, 7),
            number_at(b, 8, 10),
        ),
    ensures
        i < j,
{
    lemma_days_bounded(a);
    lemma_days_bounded(b);
    if j < i {
        assert(!later(key_of(r[i]), key_of(r[j])));
    }
    assert(i != j);
}

proof fn lemma_days_bounded(s: Seq<char>)
    requires
        is_plain_date(s),
    ensures
        -100000000 <= days_from_civil(number_at(s, 0, 4), number_at(s, 5, 7), number_at(s, 8, 10)) <= 100000000,
{
    let y = number_at(s, 0, 4);
    let m = number_at(s, 5, 7);
    let d = number_at(s, 8, 10);
    assert(-262143 <= y <= 262142 && 1 <= m <= 12 && 1 <= d <= 31);
    let yy = if m <= 2 { y - 1 } else { y };
    let era = yy / 400;
    let yoe = yy - era * 400;
    assert(0 <= yoe < 400);
    assert(-656 <= era <= 656);
    let mp = if m > 2 { m - 3 } else { m + 9 };
    assert(0 <= (153 * mp + 2) / 5 <= 400);
    assert(0 <= yoe * 365 + yoe / 4 - yoe / 100 <= 150000) by (nonlinear_arith)
        requires
            0 <= yoe < 400,
    ;
    assert(-100000000 <= era * 146097 <= 100000000) by (nonlinear_arith)
        requires
            -656 <= era <= 656,
    ;
}

/// Where `s` is the RFC 3339 text of midnight UTC on a date, `k` is the
/// key of that instant.
pub open spec fn reads_midnight_key(s: Seq<char>, k: (i64, u32)) -> bool {
    forall|y: i32, m: u32, d: u32|
        valid_date(y as int, m as int, d as int) && s == #[trigger] midnight_rfc3339(y, m, d) ==> k == (
            (86400 * days_from_civil(y as int, m as int, d as int)) as i64,
            0u32,
        )
}

/// The sort key of a post.
pub fn sort_key(p: &ValueMap) -> (r: (i64, u32))
    ensures
        r == key_of(*p),
        date_text(*p) is Some && is_plain_date(date_text(*p)->0) ==> r == plain_date_key(date_text(*p)->0),
        date_text(*p) is Some && !is_plain_date(date_text(*p)->0) ==> reads_midnight_key(date_text(*p)->0, r),
{
    match p.get("date") {
        Some(Value::String(s)) => {
            proof {
                if is_plain_date(s@) {
                    lemma_days_bounded(s@);
                }
            }
            match parse_rfc3339(s.as_str()) {
                Ok((secs, nanos, _)) => (secs, nanos),
                Err(_) => match parse_ymd(s.as_str()) {
                    Some((y, m, d)) => (midnight_timestamp(y, m, d), 0),
                    None => (0, 0),
                },
            }
        },
        _ => (0, 0),
    }
}

/// Orders posts newest first by their dates; posts without a date that
/// parses count as dated at the Unix epoch.
pub fn sort_posts(posts: Vec<ValueMap>) -> (r: Vec<ValueMap>)
    ensures
        r@ == newest_first(posts@),
        r@.len() == posts@.len(),
        r@.to_multiset() == posts@.to_multiset(),
        is_newest_first(r@),
{
    let ghost input = posts@;
    let mut out: Vec<ValueMap> = Vec::new();
    let mut keys: Vec<(i64, u32)> = Vec::new();
    for post in it: posts.into_iter()
        invariant
            it.seq() == input,
            out@ == newest_first(input.take(it.index() as int)),
            keys@.len() == out@.len(),
            forall|j: int| 0 <= j < out@.len() ==> keys@[j] == key_of(#[trigger] out@[j]),
    {
        let ghost i = it.index() as int;
        let k = sort_key(&post);
        let mut p: usize = 0;
        proof {
            assert(input.take(i + 1).drop_last() =~= input.take(i));
            assert(out@.skip(0) =~= out@);
        }
        while p < keys.len() && (keys[p].0 > k.0 || (keys[p].0 == k.0 && keys[p].1 >= k.1))
            invariant
                keys@.len() == out@.len(),
                forall|j: int| 0 <= j < out@.len() ==> keys@[j] == key_of(#[trigger] out@[j]),
                p <= out@.len(),
                insert_pos(out@, k) == p + insert_pos(out@.skip(p as int), k),
            decreases keys@.len() - p,
        {
            assert(out@.skip(p as int).drop_first() =~= out@.skip(p + 1));
            p = p + 1;
        }
        proof {
            if p < keys@.len() {
                assert(out@.skip(p as int)[0] == out@[p as int]);
            }
        }
        let ghost before = out@;
        out.insert(p, post);
        keys.insert(p, k);
        proof {
            assert forall|j: int| 0 <= j < out@.len() implies keys@[j] == key_of(#[trigger] out@[j]) by {
                if j < p {
                } else if j > p {
                    assert(out@[j] == before[j - 1]);
                }
            }
        }
    }
    proof {
        assert(input.take(input.len() as int) =~= input);
        lemma_newest_first_ordered(input);
    }
    out
}

/// The document `content` at `path` parses into some post.
pub open spec fn parses(g: Bloggo, path: Seq<char>, content: Seq<char>) -> bool {
    exists|p: ValueMap| #[trigger] post_outcome(g, path, content, Ok::<ValueMap, Error>(p))
}

impl Bloggo {
    /// Parses every source, given as path and contents, into a post, and
    /// orders the posts newest first. The first source that fails to parse
    /// fails the whole collection with its error.
    pub fn parse_posts(&self, sources: Vec<(String, String)>) -> (r: Result<Vec<ValueMap>, Error>)
        ensures
            r matches Ok(ps) ==> exists|parsed: Seq<ValueMap>|
                #[trigger] newest_first(parsed) == ps@ && parsed.len() == sources@.len() && forall|i: int|
                    0 <= i < parsed.len() ==> post_outcome(
                        *self,
                        sources@[i].0@,
                        sources@[i].1@,
                        Ok::<ValueMap, Error>(#[trigger] parsed[i]),
                    ),
            r matches Err(e) ==> exists|i: int|
                0 <= i < sources@.len() && #[trigger] post_outcome(
                    *self,
                    sources@[i].0@,
                    sources@[i].1@,
                    Err::<ValueMap, Error>(e),
                ) && forall|j: int| 0 <= j < i ==> #[trigger] parses(*self, sources@[j].0@, sources@[j].1@),
    {
        let mut parsed: Vec<ValueMap> = Vec::new();
        let n = sources.len();
        let mut i: usize = 0;
        while i < n
            invariant
                n == sources@.len(),
                i <= n,
                parsed@.len() == i,
                forall|j: int|
                    0 <= j < i ==> post_outcome(
                        *self,
                        sources@[j].0@,
                        sources@[j].1@,
                        Ok::<ValueMap, Error>(#[trigger] parsed@[j]),
                    ),
            decreases n - i,
        {
            match self.parse_post(sources[i].0.as_str(), sources[i].1.as_str()) {
                Ok(p) => parsed.push(p),
                Err(e) => {
                    proof {
                        assert forall|j: int| 0 <= j < i implies #[trigger] parses(*self, sources@[j].0@, sources@[j].1@) by {
                            assert(post_outcome(*self, sources@[j].0@, sources@[j].1@, Ok::<ValueMap, Error>(parsed@[j])));
                        }
                    }
                    return Err(e);
                },
            }
            i = i + 1;
        }
        let ghost all = parsed@;
        let sorted = sort_posts(parsed);
        assert(newest_first(all) == sorted@);
        Ok(sorted)
    }
}

} // verus!
