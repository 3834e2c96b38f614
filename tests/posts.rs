use bloggo::{sort_posts, Bloggo, Builder, Error, Value, ValueMap};

fn string_of(m: &ValueMap, k: &str) -> Option<String> {
    m.get(k).and_then(|v| v.as_string())
}

fn site() -> Bloggo {
    Builder::new().src_dir("src").dest_dir("out").base_url("https://example.org").build()
}

fn dated(title: &str, date: &str) -> ValueMap {
    let mut m = ValueMap::new();
    m.insert("title".to_string(), Value::String(title.to_string()));
    if !date.is_empty() {
        m.insert("date".to_string(), Value::String(date.to_string()));
    }
    m
}

fn titles(posts: &[ValueMap]) -> Vec<String> {
    posts.iter().map(|p| string_of(p, "title").unwrap()).collect()
}

#[test]
fn builder_defaults_and_setters() {
    let b = Builder::new().build();
    assert_eq!(b.src_dir(), "src/");
    assert_eq!(b.dest_dir(), "dest/");
    assert_eq!(b.base_url(), "");
    let d = Builder::default().dest_dir("d").build();
    assert_eq!(d.src_dir(), "src/");
    assert_eq!(d.dest_dir(), "d");
    let s = site();
    assert_eq!(s.src_dir(), "src");
    assert_eq!(s.dest_dir(), "out");
    assert_eq!(s.base_url(), "https://example.org");
}

#[test]
fn markdown_post_is_normalized() {
    let p = site().parse_post("src/posts/2024-03-05-hello.md", "---\ntitle: Hello\n---\n# Hi\n").unwrap();
    assert_eq!(string_of(&p, "title"), Some("Hello".to_string()));
    assert_eq!(string_of(&p, "text"), Some("<h1>Hi</h1>\n".to_string()));
    assert_eq!(string_of(&p, "path"), Some("2024-03-05-hello.html".to_string()));
    assert_eq!(string_of(&p, "url"), Some("https://example.org/2024-03-05-hello.html".to_string()));
    assert_eq!(string_of(&p, "date"), Some("2024-03-05T00:00:00+00:00".to_string()));
}

#[test]
fn html_post_body_passes_through() {
    let p = site().parse_post("src/posts/sub/page.html", "---\ntitle: P\n---\n<p>*x*</p>\n").unwrap();
    assert_eq!(string_of(&p, "text"), Some("<p>*x*</p>\n".to_string()));
    assert_eq!(string_of(&p, "path"), Some("sub/page.html".to_string()));
    assert_eq!(p.get("date").is_none(), true);
}

#[test]
fn date_in_front_matter_is_kept() {
    let p = site().parse_post("src/posts/2024-03-05-x.md", "---\ndate: 2020-02-02T10:00:00Z\n---\n").unwrap();
    assert_eq!(string_of(&p, "date"), Some("2020-02-02T10:00:00Z".to_string()));
}

#[test]
fn path_without_a_date_gets_no_date() {
    let p = site().parse_post("src/posts/notes.md", "---\ntitle: N\n---\ntext\n").unwrap();
    assert!(p.get("date").is_none());
}

#[test]
fn invalid_calendar_date_gets_no_date() {
    let p = site().parse_post("src/posts/2023-02-30-x.md", "---\ntitle: N\n---\n").unwrap();
    assert!(p.get("date").is_none());
}

#[test]
fn leap_day_is_a_date() {
    let p = site().parse_post("src/posts/2024-02-29.md", "---\ntitle: L\n---\n").unwrap();
    assert_eq!(string_of(&p, "date"), Some("2024-02-29T00:00:00+00:00".to_string()));
}

#[test]
fn source_outside_the_posts_directory_fails() {
    match site().parse_post("elsewhere/posts/a.md", "---\ntitle: A\n---\n") {
        Err(Error::Other(_)) => {}
        other => panic!("unexpected: {:?}", other),
    }
    match site().parse_post("src/drafts/a.md", "---\ntitle: A\n---\n") {
        Err(Error::Other(_)) => {}
        other => panic!("unexpected: {:?}", other),
    }
}

#[test]
fn front_matter_errors_propagate_from_parse_post() {
    match site().parse_post("src/posts/a.md", "no front matter\n") {
        Err(Error::Other(m)) => assert_eq!(m, "Missing front matter."),
        other => panic!("unexpected: {:?}", other),
    }
    match site().parse_post("src/posts/a.md", "---\ntitle: A\n") {
        Err(Error::UnexpectedEOF(name)) => assert_eq!(name, "src/posts/a.md"),
        other => panic!("unexpected: {:?}", other),
    }
}

#[test]
fn june_comes_before_january() {
    let posts = vec![dated("jan", "2024-01-01T00:00:00+00:00"), dated("jun", "2024-06-01T00:00:00+00:00")];
    assert_eq!(titles(&sort_posts(posts)), vec!["jun", "jan"]);
}

#[test]
fn sorting_a_sorted_collection_keeps_it() {
    let posts = vec![
        dated("c", "2024-03-01T00:00:00Z"),
        dated("a", "2024-01-01T00:00:00Z"),
        dated("b", "2024-02-01T00:00:00Z"),
    ];
    let once = sort_posts(posts);
    assert_eq!(titles(&once), vec!["c", "b", "a"]);
    let twice = sort_posts(once);
    assert_eq!(titles(&twice), vec!["c", "b", "a"]);
}

#[test]
fn undated_posts_sort_as_the_epoch() {
    let posts = vec![dated("none", ""), dated("bad", "yesterday"), dated("old", "1960-01-01T00:00:00Z"), dated("new", "2000-01-01T00:00:00Z")];
    assert_eq!(titles(&sort_posts(posts)), vec!["new", "none", "bad", "old"]);
}

#[test]
fn equal_dates_keep_their_order() {
    let posts = vec![dated("first", "2024-01-01T00:00:00Z"), dated("second", "2024-01-01T00:00:00+00:00")];
    assert_eq!(titles(&sort_posts(posts)), vec!["first", "second"]);
}

#[test]
fn offsets_are_compared_as_instants() {
    let posts = vec![dated("utc-late", "2024-01-01T10:00:00Z"), dated("east-early", "2024-01-01T11:00:00+02:00")];
    assert_eq!(titles(&sort_posts(posts)), vec!["utc-late", "east-early"]);
}

#[test]
fn parse_posts_assembles_newest_first() {
    let sources = vec![
        ("src/posts/2024-01-01-a.md".to_string(), "---\ntitle: a\n---\n".to_string()),
        ("src/posts/2024-06-01-b.md".to_string(), "---\ntitle: b\n---\n".to_string()),
    ];
    let posts = site().parse_posts(sources).unwrap();
    assert_eq!(titles(&posts), vec!["b", "a"]);
}

#[test]
fn parse_posts_fails_on_any_bad_post() {
    let sources = vec![
        ("src/posts/a.md".to_string(), "---\ntitle: a\n---\n".to_string()),
        ("src/posts/b.md".to_string(), "oops\n".to_string()),
    ];
    assert!(site().parse_posts(sources).is_err());
}

#[test]
fn signed_year_prefix_is_also_read_as_a_date() {
    let p = site().parse_post("src/posts/+2024-1-01.md", "---\ntitle: S\n---\n").unwrap();
    assert_eq!(string_of(&p, "date"), Some("2024-01-01T00:00:00+00:00".to_string()));
}

#[test]
fn sorting_twice_keeps_equal_dates_in_place() {
    let posts = vec![
        dated("old", "2023-01-01T00:00:00Z"),
        dated("first", "2024-01-01T00:00:00Z"),
        dated("second", "2024-01-01T00:00:00Z"),
    ];
    let once = sort_posts(posts);
    assert_eq!(titles(&once), vec!["first", "second", "old"]);
    assert_eq!(titles(&sort_posts(once)), vec!["first", "second", "old"]);
}

#[test]
fn date_only_values_sort_by_day() {
    let posts = vec![dated("jan", "2024-01-01"), dated("jun", "2024-06-01"), dated("none", "")];
    assert_eq!(titles(&sort_posts(posts)), vec!["jun", "jan", "none"]);
}

#[test]
fn date_only_and_full_dates_compare_as_instants() {
    let posts = vec![dated("noon", "2024-03-01T12:00:00Z"), dated("day", "2024-03-02"), dated("before", "2024-02-29T23:00:00Z")];
    assert_eq!(titles(&sort_posts(posts)), vec!["day", "noon", "before"]);
}

#[test]
fn yaml_error_in_a_post_carries_the_decoder_message() {
    match site().parse_post("src/posts/a.md", "---\na: [1\n---\n") {
        Err(Error::Other(m)) => {
            assert!(m.starts_with("YAML deserialization failure: "));
            assert!(m.len() > "YAML deserialization failure: ".len());
        }
        other => panic!("unexpected: {:?}", other),
    }
}

#[test]
fn first_failing_source_gives_the_error() {
    let sources = vec![
        ("src/posts/a.md".to_string(), "---\ntitle: a\n---\n".to_string()),
        ("src/posts/b.md".to_string(), "oops\n".to_string()),
        ("src/posts/c.md".to_string(), "---\ntitle: c\n".to_string()),
    ];
    match site().parse_posts(sources) {
        Err(Error::Other(m)) => assert_eq!(m, "Missing front matter."),
        other => panic!("unexpected: {:?}", other),
    }
}

#[test]
fn path_outside_the_posts_directory_names_the_problem() {
    match site().parse_post("elsewhere/a.md", "---\ntitle: A\n---\n") {
        Err(Error::Other(m)) => assert_eq!(m, "prefix not found"),
        other => panic!("unexpected: {:?}", other),
    }
}

#[test]
fn hidden_names() {
    assert!(bloggo::is_hidden(".DS_Store"));
    assert!(!bloggo::is_hidden("style.css"));
    assert!(!bloggo::is_hidden(""));
}
