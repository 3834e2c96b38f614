//! Splitting a document into its front matter and its body.
use crate::error::{text, Error};
use crate::text::{
    chars_of, find_line, lemma_find_line_bounds, lemma_line_end_bounds, line_end, line_has_prefix, line_starts_with,
    next_line_end, slice_of,
};
use crate::value::{Value, ValueMap};
use crate::yaml::{
    bad_number_error, converts, lemma_yields_mapping, parse_yaml_data, yaml_convertible, yaml_decoded, yaml_error_message,
    yields_mapping,
};
use vstd::prelude::*;

verus! {

/// The start of the first line at or after the line start `start` of `cs`
/// that begins with `p`, and the end of that line.
fn find_line_from(cs: &Vec<char>, start: usize, p: &Vec<char>) -> (r: Option<(usize, usize)>)
    requires
        start <= cs@.len(),
    ensures
        r matches Some((a, e)) ==> find_line(cs@, start as int, p@) == Some(a as int) && e == line_end(
            cs@,
            a as int,
        ) && start <= a <= e <= cs@.len(),
        r is None ==> find_line(cs@, start as int, p@) is None,
{
    proof {
        lemma_find_line_bounds(cs@, start as int, p@);
    }
    let n = cs.len();
    let mut i = start;
    while i < n
        invariant
            n == cs@.len(),
            start <= i <= n,
            find_line(cs@, start as int, p@) == find_line(cs@, i as int, p@),
        decreases n - i,
    {
        proof {
            lemma_line_end_bounds(cs@, i as int);
        }
        if line_has_prefix(cs, i, p) {
            let e = next_line_end(cs, i);
            return Some((i, e));
        }
        i = next_line_end(cs, i);
    }
    None
}

/// Reads `text` line by line up to the first line that begins with
/// `prefix`: gives the text before that line and the text after it.
pub fn read_until(text_in: &str, prefix: &str) -> (r: Result<(String, String), Error>)
    ensures
        match find_line(text_in@, 0, prefix@) {
            Some(a) => r is Ok && r->Ok_0.0@ == text_in@.subrange(0, a) && r->Ok_0.1@ == text_in@.subrange(
                line_end(text_in@, a),
                text_in@.len() as int,
            ),
            None => r matches Err(Error::Other(m)) && m@ == "Unexpected end of file."@,
        },
{
    let cs = chars_of(text_in);
    let p = chars_of(prefix);
    match find_line_from(&cs, 0, &p) {
        Some((a, e)) => {
            assert(find_line(text_in@, 0, prefix@) == Some(a as int));
            let before = slice_of(text_in, 0, a);
            let after = slice_of(text_in, e, cs.len());
            assert(before@ == text_in@.subrange(0, a as int));
            assert(after@ == text_in@.subrange(line_end(text_in@, a as int), text_in@.len() as int));
            Ok((before, after))
        },
        None => {
            let m = text("Unexpected end of file.");
            assert(m@ == "Unexpected end of file."@);
            Err(Error::Other(m))
        },
    }
}

/// Where the parts of a document lie.
pub enum DocumentShape {
    /// The document is empty.
    Empty,
    /// The first line is not a delimiter.
    NoFrontMatter,
    /// No delimiter line closes the front matter.
    Unclosed,
    /// The front matter is `start..end`, the body starts at `body`.
    Parts(int, int, int),
}

/// The shape of a document whose front matter is delimited by lines that
/// begin with `---`.
pub open spec fn document_shape(s: Seq<char>) -> DocumentShape {
    if s.len() == 0 {
        DocumentShape::Empty
    } else if !line_starts_with(s, 0, "---"@) {
        DocumentShape::NoFrontMatter
    } else {
        let start = line_end(s, 0);
        match find_line(s, start, "---"@) {
            None => DocumentShape::Unclosed,
            Some(a) => DocumentShape::Parts(start, a, line_end(s, a)),
        }
    }
}

/// Splits a document into its front-matter text and its body. `source`
/// names the document in the error for an unexpected end.
pub fn split_document(doc: &str, source: &str) -> (r: Result<(String, String), Error>)
    ensures
        match document_shape(doc@) {
            DocumentShape::Empty => r matches Err(Error::UnexpectedEOF(name)) && name@ == source@,
            DocumentShape::NoFrontMatter => r matches Err(Error::Other(m)) && m@ == "Missing front matter."@,
            DocumentShape::Unclosed => r matches Err(Error::UnexpectedEOF(name)) && name@ == source@,
            DocumentShape::Parts(start, end, body) => r is Ok && r->Ok_0.0@ == doc@.subrange(start, end)
                && r->Ok_0.1@ == doc@.subrange(body, doc@.len() as int),
        },
{
    let cs = chars_of(doc);
    let n = cs.len();
    if n == 0 {
        let name = text(source);
        assert(document_shape(doc@) == DocumentShape::Empty);
        return Err(Error::UnexpectedEOF(name));
    }
    let delim = chars_of("---");
    if !line_has_prefix(&cs, 0, &delim) {
        let m = text("Missing front matter.");
        assert(document_shape(doc@) == DocumentShape::NoFrontMatter);
        return Err(Error::Other(m));
    }
    let start = next_line_end(&cs, 0);
    assert(document_shape(doc@) == match find_line(doc@, start as int, "---"@) {
        None => DocumentShape::Unclosed,
        Some(a) => DocumentShape::Parts(start as int, a, line_end(doc@, a)),
    });
    match find_line_from(&cs, start, &delim) {
        Some((a, e)) => {
            let front = slice_of(doc, start, a);
            let body = slice_of(doc, e, n);
            assert(front@ == doc@.subrange(start as int, a as int));
            assert(body@ == doc@.subrange(e as int, n as int));
            Ok((front, body))
        },
        None => Err(Error::UnexpectedEOF(text(source))),
    }
}

/// The outcome `r` of parsing the document `doc` named `source`.
pub open spec fn front_matter_outcome(doc: Seq<char>, source: Seq<char>, r: Result<(ValueMap, String), Error>) -> bool {
    match document_shape(doc) {
        DocumentShape::Empty => r matches Err(Error::UnexpectedEOF(name)) && name@ == source,
        DocumentShape::NoFrontMatter => r matches Err(Error::Other(m)) && m@ == "Missing front matter."@,
        DocumentShape::Unclosed => r matches Err(Error::UnexpectedEOF(name)) && name@ == source,
        DocumentShape::Parts(start, end, body) => match yaml_decoded(doc.subrange(start, end)) {
            None => r matches Err(Error::Other(m)) && m@ == "YAML deserialization failure: "@ + yaml_error_message(
                doc.subrange(start, end),
            ),
            Some(t) => if !yaml_convertible(t) {
                r matches Err(e) && bad_number_error(t, e)
            } else if !yields_mapping(t) {
                r matches Err(Error::Other(m)) && m@ == "Parsed YAML is not a mapping."@
            } else {
                r is Ok && converts(t, Value::Mapping(r->Ok_0.0)) && r->Ok_0.1@ == doc.subrange(
                    body,
                    doc.len() as int,
                )
            },
        },
    }
}

/// Parses a document into its front matter, which must decode to a
/// mapping, and its raw body.
pub fn parse_front_matter(doc: &str, source: &str) -> (r: Result<(ValueMap, String), Error>)
    ensures
        front_matter_outcome(doc@, source@, r),
{
    let (front, body) = match split_document(doc, source) {
        Ok(parts) => parts,
        Err(e) => {
            return Err(e);
        },
    };
    match parse_yaml_data(front.as_str()) {
        Ok(v) => {
            proof {
                lemma_yields_mapping(yaml_decoded(front@)->0, v);
            }
            match v {
                Value::Mapping(m) => Ok((m, body)),
                _ => Err(Error::Other(text("Parsed YAML is not a mapping."))),
            }
        },
        Err(e) => Err(e),
    }
}

} // verus!
