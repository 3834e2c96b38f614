use bloggo::{parse_front_matter, read_until, split_document, Error, Value};

#[test]
fn read_until_stops_at_the_prefix_line() {
    let (before, after) = read_until("Line One\nLine Two\n-----\nLine Three", "---").unwrap();
    assert_eq!(before, "Line One\nLine Two\n");
    assert_eq!(after, "Line Three");
}

#[test]
fn read_until_without_the_prefix_is_end_of_file() {
    match read_until("one\ntwo\n", "---") {
        Err(Error::Other(m)) => assert_eq!(m, "Unexpected end of file."),
        other => panic!("unexpected: {:?}", other),
    }
}

#[test]
fn read_until_prefix_must_start_the_line() {
    let (before, after) = read_until("a --- b\n--- c\nrest\n", "---").unwrap();
    assert_eq!(before, "a --- b\n");
    assert_eq!(after, "rest\n");
}

#[test]
fn split_document_gives_front_matter_and_body() {
    let (front, body) = split_document("---\ntitle: T\n---\nBody\nmore\n", "doc.md").unwrap();
    assert_eq!(front, "title: T\n");
    assert_eq!(body, "Body\nmore\n");
}

#[test]
fn empty_document_is_unexpected_end_of_file() {
    match split_document("", "empty.md") {
        Err(Error::UnexpectedEOF(name)) => assert_eq!(name, "empty.md"),
        other => panic!("unexpected: {:?}", other),
    }
}

#[test]
fn unclosed_front_matter_names_the_source() {
    match parse_front_matter("---\ntitle: T\nno end here\n", "posts/open.md") {
        Err(Error::UnexpectedEOF(name)) => assert_eq!(name, "posts/open.md"),
        other => panic!("unexpected: {:?}", other),
    }
}

#[test]
fn first_line_not_a_delimiter_is_missing_front_matter() {
    match parse_front_matter("title: T\n---\nbody\n", "posts/plain.md") {
        Err(Error::Other(m)) => assert_eq!(m, "Missing front matter."),
        other => panic!("unexpected: {:?}", other),
    }
}

#[test]
fn front_matter_must_be_a_mapping() {
    match parse_front_matter("---\n- a\n- b\n---\nbody\n", "posts/list.md") {
        Err(Error::Other(m)) => assert_eq!(m, "Parsed YAML is not a mapping."),
        other => panic!("unexpected: {:?}", other),
    }
}

#[test]
fn empty_front_matter_is_not_a_mapping() {
    assert!(matches!(parse_front_matter("---\n---\nbody\n", "posts/e.md"), Err(Error::Other(_))));
}

#[test]
fn front_matter_parses_into_a_map_and_body() {
    let (m, body) = parse_front_matter("--- \ntitle: Hello\nlayout: post\n---\n# Body\n", "x.md").unwrap();
    assert_eq!(m.get("title").and_then(|v| v.as_string()), Some("Hello".to_string()));
    assert!(matches!(m.get("layout"), Some(Value::String(s)) if s == "post"));
    assert_eq!(body, "# Body\n");
}
