use bloggo::{generate_atom_feed, Builder, FormatDateTimeHelper, JoinHelper, TagIndex, Value, ValueMap};

fn post(title: Option<&str>, date: Option<&str>, url: Option<&str>) -> ValueMap {
    let mut m = ValueMap::new();
    if let Some(t) = title {
        m.insert("title".to_string(), Value::String(t.to_string()));
    }
    if let Some(d) = date {
        m.insert("date".to_string(), Value::String(d.to_string()));
    }
    if let Some(u) = url {
        m.insert("url".to_string(), Value::String(u.to_string()));
    }
    m
}

fn tagged(tags: Value) -> ValueMap {
    let mut m = ValueMap::new();
    m.insert("tags".to_string(), tags);
    m
}

fn strings(items: &[&str]) -> Value {
    Value::Array(items.iter().map(|s| Value::String(s.to_string())).collect())
}

fn buckets(index: &TagIndex) -> Vec<(String, Vec<usize>)> {
    index.entries().clone()
}

#[test]
fn single_string_tag_is_indexed_once() {
    let posts = vec![tagged(Value::String("a".to_string()))];
    let index = Builder::new().build().generate_tag_indexes(&posts);
    assert_eq!(buckets(&index), vec![("a".to_string(), vec![0])]);
}

#[test]
fn repeated_tags_are_not_deduplicated() {
    let posts = vec![tagged(strings(&["a", "b", "a"]))];
    let index = Builder::new().build().generate_tag_indexes(&posts);
    assert_eq!(buckets(&index), vec![("a".to_string(), vec![0, 0]), ("b".to_string(), vec![0])]);
}

#[test]
fn buckets_keep_collection_order_and_skip_non_strings() {
    let mut mixed = strings(&["x"]);
    if let Value::Array(v) = &mut mixed {
        v.push(Value::Boolean(true));
    }
    let posts = vec![
        tagged(strings(&["x", "y"])),
        tagged(Value::Boolean(false)),
        tagged(mixed),
        ValueMap::new(),
        tagged(Value::String("y".to_string())),
    ];
    let index = Builder::new().build().generate_tag_indexes(&posts);
    assert_eq!(
        buckets(&index),
        vec![("x".to_string(), vec![0, 2]), ("y".to_string(), vec![0, 4])]
    );
}

#[test]
fn atom_feed_has_one_entry_per_post() {
    let posts = vec![
        post(Some("One"), Some("2024-01-01T00:00:00+00:00"), Some("/one.html")),
        post(None, Some("2024-02-01T00:00:00+00:00"), None),
        post(Some("Three"), None, Some("/three.html")),
    ];
    let feed = generate_atom_feed(&posts, &vec![0, 1, 2]);
    let expected = [
        "<?xml version=\"1.0\" encoding=\"utf-8\"?>\n<feed xmlns=\"http://www.w3.org/2005/Atom\">\n",
        "  <entry>\n    <title>One</title>\n    <published>2024-01-01T00:00:00+00:00</published>\n",
        "    <link href=\"/one.html\" />\n  </entry>\n",
        "  <entry>\n    <published>2024-02-01T00:00:00+00:00</published>\n  </entry>\n",
        "  <entry>\n    <title>Three</title>\n    <link href=\"/three.html\" />\n  </entry>\n",
        "</feed>\n",
    ]
    .concat();
    assert_eq!(feed, expected);
    assert_eq!(feed.matches("<entry>").count(), 3);
}

#[test]
fn atom_feed_escapes_markup() {
    let posts = vec![post(Some("a & <b>"), None, Some("/q?x=\"1\"&y=2"))];
    let feed = generate_atom_feed(&posts, &vec![0]);
    assert!(feed.contains("    <title>a &amp; &lt;b&gt;</title>\n"));
    assert!(feed.contains("    <link href=\"/q?x=&quot;1&quot;&amp;y=2\" />\n"));
}

#[test]
fn post_layout_defaults() {
    let mut p = ValueMap::new();
    assert_eq!(bloggo::post_layout(&p), "default");
    p.insert("layout".to_string(), Value::String("wide".to_string()));
    assert_eq!(bloggo::post_layout(&p), "wide");
    p.insert("layout".to_string(), Value::Boolean(true));
    assert_eq!(bloggo::post_layout(&p), "default");
}

#[test]
fn empty_atom_feed() {
    let feed = generate_atom_feed(&Vec::new(), &Vec::new());
    assert_eq!(
        feed,
        "<?xml version=\"1.0\" encoding=\"utf-8\"?>\n<feed xmlns=\"http://www.w3.org/2005/Atom\">\n</feed>\n"
    );
}

#[test]
fn atom_feed_of_a_subset_follows_the_picks() {
    let posts = vec![post(Some("A"), None, None), post(Some("B"), None, None)];
    let feed = generate_atom_feed(&posts, &vec![1]);
    assert!(feed.contains("<title>B</title>"));
    assert!(!feed.contains("<title>A</title>"));
}

#[test]
fn format_date_time_uses_the_format() {
    let h = FormatDateTimeHelper::new();
    assert_eq!(
        h.format_value(Some("2023-02-04T15:38:42Z"), Some("%A, %B %e, %Y at %l:%M%P")),
        Ok("Saturday, February  4, 2023 at  3:38pm".to_string())
    );
    assert_eq!(h.format_value(Some("2023-02-04T15:38:42+02:00"), Some("%H:%M %z")), Ok("15:38 +0200".to_string()));
}

#[test]
fn format_date_time_defaults_to_c() {
    let h = FormatDateTimeHelper::new();
    assert_eq!(h.format_value(Some("2023-02-04T15:38:42Z"), None), Ok("Sat Feb  4 15:38:42 2023".to_string()));
}

#[test]
fn format_date_time_errors() {
    let h = FormatDateTimeHelper::new();
    assert_eq!(h.format_value(None, None), Err("Property cannot be converted to string.".to_string()));
    assert!(h.format_value(Some("not a date"), None).unwrap_err().starts_with("Could not parse as datetime: not a date ("));
}

#[test]
fn join_helper_joins() {
    let h = JoinHelper::new();
    let items = vec!["alpha".to_string(), "beta".to_string()];
    assert_eq!(h.join(Some(&items), Some(" + ")), Ok("alpha + beta".to_string()));
    assert_eq!(h.join(Some(&items), None), Ok("alpha, beta".to_string()));
    assert_eq!(h.join(Some(&Vec::new()), None), Ok(String::new()));
    assert_eq!(h.join(None, None), Err("Property cannot be converted to array.".to_string()));
}

#[test]
fn index_context_holds_posts_tag_and_tags() {
    let posts = vec![post(Some("A"), None, None), post(Some("B"), None, None)];
    let tags = vec!["t1".to_string(), "t2".to_string()];
    let all = bloggo::index_context(&posts, &vec![1, 0], &tags, None);
    assert_eq!(all.to_string(), r#"{"posts":[{"title":"B"},{"title":"A"}],"tags":["t1","t2"]}"#);
    let one = bloggo::index_context(&posts, &vec![0], &tags, Some("t1"));
    assert_eq!(one.to_string(), r#"{"posts":[{"title":"A"}],"tag":"t1","tags":["t1","t2"]}"#);
}

#[test]
fn render_site_plans_every_file() {
    let mut hb = handlebars::Handlebars::new();
    hb.register_template_string("index", "{{#if tag}}[{{tag}}]{{/if}}{{#each posts}}{{title}};{{/each}}").unwrap();
    hb.register_template_string("default", "<p>{{title}}</p>").unwrap();
    hb.register_template_string("special", "<b>{{title}}</b>").unwrap();
    let g = Builder::new().src_dir("src").base_url("").build();
    let sources = vec![
        ("src/posts/2024-06-01-b.md".to_string(), "---\ntitle: B\ntags: [x]\nlayout: special\n---\nb\n".to_string()),
        ("src/posts/2024-01-01-a.md".to_string(), "---\ntitle: A\ntags: x\n---\na\n".to_string()),
    ];
    let posts = g.parse_posts(sources).unwrap();
    let index = g.generate_tag_indexes(&posts);
    let plan = g.plan_site(&posts, &index);
    match &plan[4] {
        bloggo::Output::Page(path, template, view) => {
            assert_eq!(path, "2024-06-01-b.html");
            assert_eq!(template, "special");
            assert_eq!(view["title"], "B");
        }
        other => panic!("not a page: {:?}", other),
    }
    assert!(matches!(&plan[5], bloggo::Output::Page(_, t, _) if t == "default"));
    let outs = g.render_site(&hb, plan).unwrap();
    let paths: Vec<&str> = outs.iter().map(|(p, _)| p.as_str()).collect();
    assert_eq!(
        paths,
        vec!["index.html", "atom.xml", "x/index.html", "x/atom.xml", "2024-06-01-b.html", "2024-01-01-a.html"]
    );
    assert_eq!(outs[0].1, "B;A;");
    assert_eq!(outs[2].1, "[x]B;A;");
    assert_eq!(outs[4].1, "<b>B</b>");
    assert_eq!(outs[5].1, "<p>A</p>");
    assert_eq!(outs[3].1.matches("<entry>").count(), 2);
}

#[test]
fn render_site_fails_on_a_missing_template() {
    let hb = handlebars::Handlebars::new();
    let g = Builder::new().build();
    let posts: Vec<ValueMap> = Vec::new();
    let index = g.generate_tag_indexes(&posts);
    let plan = g.plan_site(&posts, &index);
    assert!(matches!(g.render_site(&hb, plan), Err(bloggo::Error::RenderError(_))));
}
