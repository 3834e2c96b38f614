//! The render plan of a site: each output file and what it holds.
use crate::atom::{feed_text, generate_atom_feed, picked};
use crate::config::Bloggo;
use crate::error::{text, Error};
use crate::json::{json_array, json_object, json_string, json_tree, JsonTree};
use crate::post::{html_path_of, with_html_extension};
use crate::tags::{bucket_of, occurrences, tags_of, TagIndex};
use crate::value::{json_matches, keys_increasing, lemma_lookup_found, Value, ValueMap};
use vstd::prelude::*;

verus! {

/// `a` and `b` joined as path components.
pub uninterp spec fn path_joined(a: Seq<char>, b: Seq<char>) -> Seq<char>;

/// Relies on `std::path::PathBuf::push`: `b` appended to `a` as a path
/// component.
#[verifier::external_body]
fn join_path(a: &str, b: &str) -> (r: String)
    ensures
        r@ == path_joined(a@, b@),
{
    let mut p = std::path::PathBuf::from(a);
    p.push(b);
    p.to_string_lossy().into_owned()
}

/// Relies on `handlebars::Handlebars::render`: the named template rendered
/// with `data`, or the engine's error. What it gives depends on the
/// templates registered, so nothing is stated of it.
#[verifier::external_body]
fn render_template(hb: &handlebars::Handlebars, name: &str, data: &serde_json::Value) -> (r: Result<
    String,
    handlebars::RenderError,
>) {
    hb.render(name, data)
}

/// `j` is the JSON array of the posts at `picks`.
pub open spec fn posts_json(posts: Seq<ValueMap>, picks: Seq<usize>, j: JsonTree) -> bool {
    &&& j is Array
    &&& j->Array_0.len() == picks.len()
    &&& forall|k: int| 0 <= k < picks.len() ==> json_matches(Value::Mapping(posts[#[trigger] picks[k] as int]), j->Array_0[k])
}

/// `j` is the JSON array of the strings `tags`.
pub open spec fn tags_json(tags: Seq<Seq<char>>, j: JsonTree) -> bool {
    &&& j is Array
    &&& j->Array_0.len() == tags.len()
    &&& forall|k: int| 0 <= k < tags.len() ==> j->Array_0[k] == JsonTree::Str(#[trigger] tags[k])
}

/// The view of an index page: the posts at `picks` under `posts`, the
/// current tag under `tag` where there is one, and every tag under `tags`.
pub open spec fn index_view(posts: Seq<ValueMap>, picks: Seq<usize>, tags: Seq<Seq<char>>, tag: Option<Seq<char>>, j: JsonTree) -> bool {
    &&& j is Object
    &&& j->Object_0.len() == if tag is Some { 3int } else { 2int }
    &&& j->Object_0[0].0 == "posts"@
    &&& posts_json(posts, picks, j->Object_0[0].1)
    &&& match tag {
        Some(t) => j->Object_0[1] == ("tag"@, JsonTree::Str(t)) && j->Object_0[2].0 == "tags"@ && tags_json(tags, j->Object_0[2].1),
        None => j->Object_0[1].0 == "tags"@ && tags_json(tags, j->Object_0[1].1),
    }
}

/// The JSON view handed to the `index` template.
pub fn index_context(posts: &Vec<ValueMap>, picks: &Vec<usize>, tags: &Vec<String>, tag: Option<&str>) -> (r: serde_json::Value)
    requires
        forall|i: int| 0 <= i < picks@.len() ==> (#[trigger] picks@[i]) < posts@.len(),
    ensures
        index_view(posts@, picks@, tags@.map_values(|s: String| s@), match tag { Some(t) => Some(t@), None => None }, json_tree(r)),
{
    proof {
        reveal_strlit("posts");
        reveal_strlit("tag");
        reveal_strlit("tags");
    }
    let mut items: Vec<serde_json::Value> = Vec::new();
    let n = picks.len();
    let mut k: usize = 0;
    while k < n
        invariant
            n == picks@.len(),
            k <= n,
            forall|i: int| 0 <= i < picks@.len() ==> (#[trigger] picks@[i]) < posts@.len(),
            items@.len() == k,
            forall|i: int| 0 <= i < k ==> json_matches(Value::Mapping(posts@[picks@[i] as int]), json_tree(#[trigger] items@[i])),
        decreases n - k,
    {
        items.push(posts[picks[k]].to_json());
        k = k + 1;
    }
    let ghost iv = items@;
    let posts_value = json_array(items);
    let mut names: Vec<serde_json::Value> = Vec::new();
    let m = tags.len();
    let mut k: usize = 0;
    while k < m
        invariant
            m == tags@.len(),
            k <= m,
            names@.len() == k,
            forall|i: int| 0 <= i < k ==> json_tree(#[trigger] names@[i]) == JsonTree::Str(tags@[i]@),
        decreases m - k,
    {
        names.push(json_string(tags[k].clone()));
        k = k + 1;
    }
    let ghost nv = names@;
    let tags_value = json_array(names);
    let mut members: Vec<(String, serde_json::Value)> = Vec::new();
    members.push((text("posts"), posts_value));
    match tag {
        Some(t) => {
            members.push((text("tag"), json_string(text(t))));
        },
        None => {},
    }
    members.push((text("tags"), tags_value));
    proof {
        assert("posts"@[0] != "tag"@[0]);
        assert(crate::keys::key_lt("posts"@, "tag"@));
        assert("tag"@ =~= "tags"@.subrange(0, 3));
        crate::keys::lemma_prefix_precedes("tag"@, "tags"@);
        assert(crate::keys::key_lt("posts"@, "tags"@));
        assert forall|i: int| 0 <= i < picks@.len() implies json_matches(Value::Mapping(posts@[#[trigger] picks@[i] as int]), json_tree(posts_value)->Array_0[i]) by {
            assert(json_tree(iv[i]) == json_tree(posts_value)->Array_0[i]);
        }
        let ghost tv = tags@.map_values(|s: String| s@);
        assert forall|i: int| 0 <= i < tags@.len() implies json_tree(tags_value)->Array_0[i] == JsonTree::Str(#[trigger] tv[i]) by {
            assert(json_tree(nv[i]) == json_tree(tags_value)->Array_0[i]);
        }
    }
    json_object(members)
}

proof fn lemma_occurrences_bound(tags: Seq<Seq<char>>, t: Seq<char>, i: usize)
    ensures
        forall|k: int| 0 <= k < occurrences(tags, t, i).len() ==> #[trigger] occurrences(tags, t, i)[k] == i,
    decreases tags.len(),
{
    if tags.len() > 0 {
        lemma_occurrences_bound(tags.drop_last(), t, i);
        let r = occurrences(tags.drop_last(), t, i);
        assert forall|k: int| 0 <= k < occurrences(tags, t, i).len() implies #[trigger] occurrences(tags, t, i)[k] == i by {
            if tags.last() == t {
                assert(occurrences(tags, t, i) == r.push(i));
                if k < r.len() {
                    assert(r.push(i)[k] == r[k]);
                }
            }
        }
    }
}

/// Every position in a bucket is a position of the collection.
pub proof fn lemma_bucket_bound(posts: Seq<ValueMap>, t: Seq<char>)
    ensures
        forall|k: int| 0 <= k < bucket_of(posts, t).len() ==> #[trigger] bucket_of(posts, t)[k] < posts.len(),
    decreases posts.len(),
{
    if posts.len() > 0 {
        lemma_bucket_bound(posts.drop_last(), t);
        let a = bucket_of(posts.drop_last(), t);
        let o = occurrences(tags_of(posts.last()), t, (posts.len() - 1) as usize);
        lemma_occurrences_bound(tags_of(posts.last()), t, (posts.len() - 1) as usize);
        assert forall|k: int| 0 <= k < (a + o).len() implies #[trigger] (a + o)[k] < posts.len() by {
            if k >= a.len() {
                assert((a + o)[k] == o[k - a.len()]);
            }
        }
    }
}

/// The page of a post: its `path` with extension `html`, where `path` is
/// a string.
pub open spec fn post_page(p: ValueMap) -> Option<Seq<char>> {
    match p.spec_get("path"@) {
        Some(Value::String(s)) => Some(html_path_of(s@)),
        _ => None,
    }
}

/// The template of a post: its `layout` string, or `default`.
pub open spec fn layout_of(p: ValueMap) -> Seq<char> {
    match p.spec_get("layout"@) {
        Some(Value::String(s)) => s@,
        _ => "default"@,
    }
}

/// The posts that have a page, in order.
pub open spec fn paged_posts(ps: Seq<ValueMap>) -> Seq<ValueMap>
    decreases ps.len(),
{
    if ps.len() == 0 {
        Seq::empty()
    } else if post_page(ps.last()) is Some {
        paged_posts(ps.drop_last()).push(ps.last())
    } else {
        paged_posts(ps.drop_last())
    }
}

/// The positions `0..n`.
pub open spec fn all_positions(n: int) -> Seq<usize> {
    Seq::new(n as nat, |i: int| i as usize)
}

/// One file of a site.
#[derive(Debug)]
pub enum Output {
    /// A page at a path, rendered by the named template from a view.
    Page(String, String, serde_json::Value),
    /// A file at a path with the given contents.
    File(String, String),
}

/// The path of an output.
pub open spec fn output_path(o: Output) -> Seq<char> {
    match o {
        Output::Page(p, _, _) => p@,
        Output::File(p, _) => p@,
    }
}

/// `o` is the page at `path` that template `template` renders from a view
/// for which `view` holds.
pub open spec fn is_page(o: Output, path: Seq<char>, template: Seq<char>, view: spec_fn(JsonTree) -> bool) -> bool {
    o is Page && o->Page_0@ == path && o->Page_1@ == template && view(json_tree(o->Page_2))
}

/// `o` is the file at `path` holding `contents`.
pub open spec fn is_file(o: Output, path: Seq<char>, contents: Seq<char>) -> bool {
    o is File && o->File_0@ == path && o->File_1@ == contents
}

/// The files of a site, in order: the index page of all posts and their
/// feed; for each tag in tag order, its index page and its feed; then the
/// page of each post that has a path.
pub open spec fn planned(posts: Seq<ValueMap>, index: TagIndex, outs: Seq<Output>) -> bool {
    let es = index.spec_entries();
    let m = es.len();
    let tags = es.map_values(|e: (String, Vec<usize>)| e.0@);
    let pp = paged_posts(posts);
    &&& outs.len() == 2 + 2 * m + pp.len()
    &&& is_page(outs[0], "index.html"@, "index"@, |j: JsonTree| index_view(posts, all_positions(posts.len() as int), tags, None, j))
    &&& is_file(outs[1], "atom.xml"@, feed_text(posts))
    &&& forall|k: int|
        0 <= k < m ==> {
            &&& is_page(
                #[trigger] outs[2 + 2 * k],
                path_joined(es[k].0@, "index.html"@),
                "index"@,
                |j: JsonTree| index_view(posts, es[k].1@, tags, Some(es[k].0@), j),
            )
            &&& is_file(outs[3 + 2 * k], path_joined(es[k].0@, "atom.xml"@), feed_text(picked(posts, es[k].1@)))
        }
    &&& forall|k: int|
        0 <= k < pp.len() ==> is_page(
            #[trigger] outs[2 + 2 * m + k],
            post_page(pp[k])->0,
            layout_of(pp[k]),
            |j: JsonTree| json_matches(Value::Mapping(pp[k]), j),
        )
}

/// The template that renders a post.
pub fn post_layout(p: &ValueMap) -> (r: String)
    ensures
        r@ == layout_of(*p),
{
    proof {
        reveal_strlit("layout");
    }
    match p.get("layout") {
        Some(Value::String(s)) => s.clone(),
        _ => text("default"),
    }
}

impl Bloggo {
    /// The plan of a site from its collection, newest first, and the tag
    /// index of that collection: each output file with its path relative to
    /// the destination directory; for a page, the template and view to
    /// render it from; for a feed, its contents.
    pub fn plan_site(&self, posts: &Vec<ValueMap>, index: &TagIndex) -> (r: Vec<Output>)
        requires
            forall|t: Seq<char>| #[trigger] index.spec_bucket(t) == bucket_of(posts@, t),
        ensures
            planned(posts@, *index, r@),
    {
        proof {
            reveal_strlit("path");
        }
        let es = index.entries();
        let ghost tv = es@.map_values(|e: (String, Vec<usize>)| e.0@);
        let mut tags: Vec<String> = Vec::new();
        let m = es.len();
        let mut k: usize = 0;
        while k < m
            invariant
                m == es@.len(),
                tv == es@.map_values(|e: (String, Vec<usize>)| e.0@),
                k <= m,
                tags@.len() == k,
                forall|i: int| 0 <= i < k ==> (#[trigger] tags@[i])@ == es@[i].0@,
            decreases m - k,
        {
            tags.push(es[k].0.clone());
            k = k + 1;
        }
        assert(tags@.map_values(|s: String| s@) =~= tv);
        let n = posts.len();
        let mut all: Vec<usize> = Vec::new();
        let mut i: usize = 0;
        while i < n
            invariant
                n == posts@.len(),
                i <= n,
                all@.len() == i,
                forall|j: int| 0 <= j < i ==> #[trigger] all@[j] == j,
            decreases n - i,
        {
            all.push(i);
            i = i + 1;
        }
        proof {
            assert(picked(posts@, all@) =~= posts@);
            assert(all@ =~= all_positions(n as int));
        }
        let mut outs: Vec<Output> = Vec::new();
        outs.push(Output::Page(text("index.html"), text("index"), index_context(posts, &all, &tags, None)));
        outs.push(Output::File(text("atom.xml"), generate_atom_feed(posts, &all)));
        let mut k: usize = 0;
        while k < m
            invariant
                m == es@.len(),
                es@ == index.spec_entries(),
                tv == es@.map_values(|e: (String, Vec<usize>)| e.0@),
                tags@.map_values(|s: String| s@) == tv,
                keys_increasing(es@),
                forall|t: Seq<char>| #[trigger] index.spec_bucket(t) == bucket_of(posts@, t),
                k <= m,
                outs@.len() == 2 + 2 * k,
                is_page(outs@[0], "index.html"@, "index"@, |j: JsonTree| index_view(posts@, all_positions(posts@.len() as int), tv, None, j)),
                is_file(outs@[1], "atom.xml"@, feed_text(posts@)),
                forall|j: int|
                    0 <= j < k ==> {
                        &&& is_page(
                            #[trigger] outs@[2 + 2 * j],
                            path_joined(es@[j].0@, "index.html"@),
                            "index"@,
                            |v: JsonTree| index_view(posts@, es@[j].1@, tv, Some(es@[j].0@), v),
                        )
                        &&& is_file(outs@[3 + 2 * j], path_joined(es@[j].0@, "atom.xml"@), feed_text(picked(posts@, es@[j].1@)))
                    },
            decreases m - k,
        {
            let tag = es[k].0.as_str();
            let bucket = &es[k].1;
            proof {
                lemma_lookup_found(es@, k as int, es@[k as int].0@);
                lemma_bucket_bound(posts@, es@[k as int].0@);
                assert(index.spec_bucket(es@[k as int].0@) == es@[k as int].1@);
            }
            let ghost before = outs@;
            let view = index_context(posts, bucket, &tags, Some(tag));
            outs.push(Output::Page(join_path(tag, "index.html"), text("index"), view));
            outs.push(Output::File(join_path(tag, "atom.xml"), generate_atom_feed(posts, bucket)));
            proof {
                assert forall|j: int| 0 <= j < k + 1 implies {
                    &&& is_page(
                        #[trigger] outs@[2 + 2 * j],
                        path_joined(es@[j].0@, "index.html"@),
                        "index"@,
                        |v: JsonTree| index_view(posts@, es@[j].1@, tv, Some(es@[j].0@), v),
                    )
                    &&& is_file(outs@[3 + 2 * j], path_joined(es@[j].0@, "atom.xml"@), feed_text(picked(posts@, es@[j].1@)))
                } by {
                    if j < k {
                        assert(outs@[2 + 2 * j] == before[2 + 2 * j]);
                        assert(outs@[3 + 2 * j] == before[3 + 2 * j]);
                    }
                }
            }
            k = k + 1;
        }
        let ghost head = outs@;
        let mut i: usize = 0;
        while i < n
            invariant
                n == posts@.len(),
                head.len() == 2 + 2 * m,
                outs@.len() == head.len() + paged_posts(posts@.take(i as int)).len(),
                i <= n,
                forall|j: int| 0 <= j < head.len() ==> #[trigger] outs@[j] == head[j],
                forall|j: int|
                    0 <= j < paged_posts(posts@.take(i as int)).len() ==> is_page(
                        #[trigger] outs@[head.len() + j],
                        post_page(paged_posts(posts@.take(i as int))[j])->0,
                        layout_of(paged_posts(posts@.take(i as int))[j]),
                        |v: JsonTree| json_matches(Value::Mapping(paged_posts(posts@.take(i as int))[j]), v),
                    ),
            decreases n - i,
        {
            let p = &posts[i];
            let ghost pp0 = paged_posts(posts@.take(i as int));
            proof {
                assert(posts@.take(i + 1).drop_last() =~= posts@.take(i as int));
                assert(posts@.take(i + 1).last() == *p);
            }
            match p.get("path") {
                Some(Value::String(f)) => {
                    let page = with_html_extension(f.as_str());
                    let layout = post_layout(p);
                    let view = p.to_json();
                    outs.push(Output::Page(page, layout, view));
                    proof {
                        let pp1 = paged_posts(posts@.take(i + 1));
                        assert(pp1 == pp0.push(*p));
                        assert forall|j: int| 0 <= j < pp1.len() implies is_page(
                            #[trigger] outs@[head.len() + j],
                            post_page(pp1[j])->0,
                            layout_of(pp1[j]),
                            |v: JsonTree| json_matches(Value::Mapping(pp1[j]), v),
                        ) by {
                            if j < pp0.len() {
                                assert(pp1[j] == pp0[j]);
                            }
                        }
                    }
                },
                _ => {
                    assert(paged_posts(posts@.take(i + 1)) == pp0);
                },
            }
            i = i + 1;
        }
        proof {
            assert(posts@.take(n as int) =~= posts@);
        }
        outs
    }

    /// Renders a plan: each page through its template and view, each file
    /// as it is. Gives each output's path with its contents, in plan order;
    /// a failed render fails the whole site, and a plan without pages always
    /// succeeds.
    pub fn render_site(&self, hb: &handlebars::Handlebars, plan: Vec<Output>) -> (r: Result<Vec<(String, String)>, Error>)
        ensures
            match r {
                Ok(outs) => {
                    &&& outs@.len() == plan@.len()
                    &&& forall|i: int| 0 <= i < plan@.len() ==> (#[trigger] outs@[i]).0@ == output_path(plan@[i])
                    &&& forall|i: int| 0 <= i < plan@.len() && plan@[i] is File ==> (#[trigger] outs@[i]).1@ == plan@[i]->File_1@
                },
                Err(e) => e is RenderError && exists|i: int| 0 <= i < plan@.len() && #[trigger] plan@[i] is Page,
            },
    {
        let ghost jobs = plan@;
        let mut outs: Vec<(String, String)> = Vec::new();
        for o in it: plan.into_iter()
            invariant
                it.seq() == jobs,
                outs@.len() == it.index(),
                forall|i: int| 0 <= i < it.index() ==> (#[trigger] outs@[i]).0@ == output_path(jobs[i]),
                forall|i: int| 0 <= i < it.index() && jobs[i] is File ==> (#[trigger] outs@[i]).1@ == jobs[i]->File_1@,
        {
            match o {
                Output::Page(path, template, view) => match render_template(hb, template.as_str(), &view) {
                    Ok(html) => outs.push((path, html)),
                    Err(e) => {
                        assert(jobs[it.index() as int] is Page);
                        return Err(Error::RenderError(Box::new(e)));
                    },
                },
                Output::File(path, contents) => outs.push((path, contents)),
            }
        }
        Ok(outs)
    }
}

} // verus!
