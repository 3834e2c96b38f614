//! Normalizing a parsed document into a post.
use crate::config::Bloggo;
use crate::dates::{is_plain_date, midnight_rfc3339, midnight_text, midnight_utc, number_at, parse_ymd, ymd_parsed};
use crate::error::{text, Error};
use crate::front_matter::{front_matter_outcome, parse_front_matter};
use crate::keys::same_key;
use crate::value::{Value, ValueMap};
use vstd::prelude::*;

verus! {

/// The HTML that Markdown text renders to.
pub uninterp spec fn markdown_of(s: Seq<char>) -> Seq<char>;

/// What is left of `path` after its leading components `base`, if it
/// starts with them.
pub uninterp spec fn path_relative(path: Seq<char>, base: Seq<char>) -> Option<Seq<char>>;

/// `p` with its extension set to `html`.
pub uninterp spec fn html_path_of(p: Seq<char>) -> Seq<char>;

/// The extension of the last component of `p`, if it has one.
pub uninterp spec fn extension_of(p: Seq<char>) -> Option<Seq<char>>;

/// Relies on `pulldown_cmark::Parser` with `pulldown_cmark::html::push_html`:
/// Markdown rendered to HTML.
#[verifier::external_body]
fn markdown_to_html(s: &str) -> (r: String)
    ensures
        r@ == markdown_of(s@),
{
    let mut out = String::with_capacity(s.len());
    pulldown_cmark::html::push_html(&mut out, pulldown_cmark::Parser::new(s));
    out
}

/// Relies on `std::path::Path::strip_prefix`: the rest of a path under a
/// base, if it lies under it.
#[verifier::external_body]
fn strip_path_prefix(path: &str, base: &str) -> (r: Option<String>)
    ensures
        r is Some <==> path_relative(path@, base@) is Some,
        r matches Some(p) ==> path_relative(path@, base@) == Some(p@),
{
    std::path::Path::new(path).strip_prefix(base).ok().map(|p| p.to_string_lossy().into_owned())
}

/// Relies on `std::path::PathBuf::set_extension` with `html`.
#[verifier::external_body]
pub(crate) fn with_html_extension(p: &str) -> (r: String)
    ensures
        r@ == html_path_of(p@),
{
    let mut b = std::path::PathBuf::from(p);
    b.set_extension("html");
    b.to_string_lossy().into_owned()
}

/// Relies on `std::path::Path::extension`.
#[verifier::external_body]
fn path_extension(p: &str) -> (r: Option<String>)
    ensures
        r is None <==> extension_of(p@) is None,
        r matches Some(e) ==> extension_of(p@) == Some(e@),
{
    std::path::Path::new(p).extension().map(|e| e.to_string_lossy().into_owned())
}

/// The first `n` characters of `s`, or all of it.
pub open spec fn first_chars(s: Seq<char>, n: int) -> Seq<char> {
    if s.len() <= n {
        s
    } else {
        s.subrange(0, n)
    }
}

/// The date that a destination path names in its first ten characters, as
/// RFC 3339 text of midnight UTC.
pub open spec fn date_of_path(p: Seq<char>) -> Option<Seq<char>> {
    match ymd_parsed(first_chars(p, 10)) {
        Some((y, m, d)) => Some(midnight_rfc3339(y, m, d)),
        None => None,
    }
}

proof fn lemma_four_digits(s: Seq<char>)
    requires
        s.len() >= 4,
        forall|i: int| 0 <= i < 4 ==> crate::dates::is_digit(#[trigger] s[i]),
    ensures
        0 <= number_at(s, 0, 4) <= 9999,
{
    assert(crate::dates::is_digit(s[0]) && crate::dates::is_digit(s[1]) && crate::dates::is_digit(s[2])
        && crate::dates::is_digit(s[3]));
    reveal_with_fuel(number_at, 5);
}

/// The date named by the first ten characters of `path`, at midnight UTC,
/// in RFC 3339.
pub fn date_from_path(path: &str) -> (r: Option<String>)
    ensures
        match date_of_path(path@) {
            Some(s) => r matches Some(x) && x@ == s,
            None => r is None,
        },
        is_plain_date(first_chars(path@, 10)) ==> (r matches Some(x) && x@ == midnight_text(
            number_at(first_chars(path@, 10), 0, 4),
            number_at(first_chars(path@, 10), 5, 7),
            number_at(first_chars(path@, 10), 8, 10),
        )),
{
    let n = crate::text::chars_of(path).len();
    let head = if n <= 10 {
        crate::text::slice_of(path, 0, n)
    } else {
        crate::text::slice_of(path, 0, 10)
    };
    assert(head@ == first_chars(path@, 10)) by {
        if n <= 10 {
            assert(path@.subrange(0, n as int) =~= path@);
        }
    }
    match parse_ymd(head.as_str()) {
        Some((y, m, d)) => {
            proof {
                if is_plain_date(head@) {
                    lemma_four_digits(head@);
                }
            }
            Some(midnight_utc(y, m, d))
        },
        None => None,
    }
}

/// The destination path of the post at `path`: relative to `posts/` under
/// `src_dir`, with extension `html`.
pub open spec fn dest_path_of(src_dir: Seq<char>, path: Seq<char>) -> Option<Seq<char>> {
    match path_relative(path, src_dir) {
        Some(p1) => match path_relative(p1, "posts"@) {
            Some(p2) => Some(html_path_of(p2)),
            None => None,
        },
        None => None,
    }
}

/// The body as it is shown: rendered when the source is Markdown.
pub open spec fn rendered_body(path: Seq<char>, body: Seq<char>) -> Seq<char> {
    if extension_of(path) == Some("md"@) {
        markdown_of(body)
    } else {
        body
    }
}

/// `v` is a string value with text `s`.
pub open spec fn is_text(v: Option<Value>, s: Seq<char>) -> bool {
    v matches Some(Value::String(x)) && x@ == s
}

/// `r` is the post normalized from `post` and `body` of the source at
/// `path`.
pub open spec fn normalized(
    g: Bloggo,
    path: Seq<char>,
    post: ValueMap,
    body: Seq<char>,
    r: Result<ValueMap, Error>,
) -> bool {
    match dest_path_of(g.spec_src_dir(), path) {
        None => r matches Err(Error::Other(msg)) && msg@ == "prefix not found"@,
        Some(dest) => r matches Ok(m) && {
            &&& is_text(m.spec_get("text"@), rendered_body(path, body))
            &&& is_text(m.spec_get("path"@), dest)
            &&& is_text(m.spec_get("url"@), g.spec_base_url() + "/"@ + dest)
            &&& post.spec_get("date"@) is Some ==> m.spec_get("date"@) == post.spec_get("date"@)
            &&& post.spec_get("date"@) is None ==> match date_of_path(dest) {
                Some(s) => is_text(m.spec_get("date"@), s),
                None => m.spec_get("date"@) is None,
            }
            &&& post.spec_get("date"@) is None && is_plain_date(first_chars(dest, 10)) ==> is_text(
                m.spec_get("date"@),
                midnight_text(
                    number_at(first_chars(dest, 10), 0, 4),
                    number_at(first_chars(dest, 10), 5, 7),
                    number_at(first_chars(dest, 10), 8, 10),
                ),
            )
            &&& forall|k: Seq<char>|
                k != "text"@ && k != "path"@ && k != "url"@ && k != "date"@ ==> #[trigger] m.spec_get(k)
                    == post.spec_get(k)
        },
    }
}

/// `r` is what parsing the document `content` of the source at `path`
/// gives: the front-matter error, or the normalized post.
pub open spec fn post_outcome(g: Bloggo, path: Seq<char>, content: Seq<char>, r: Result<ValueMap, Error>) -> bool {
    exists|fm: Result<(ValueMap, String), Error>|
        #[trigger] front_matter_outcome(content, path, fm) && match fm {
            Err(e) => r == Err::<ValueMap, Error>(e),
            Ok((m, body)) => normalized(g, path, m, body@, r),
        }
}

impl Bloggo {
    /// Completes the front matter `post` of the source at `path` into a
    /// post: the shown body under `text`, the destination path under
    /// `path`, the link under `url`, and a date taken from the destination
    /// path under `date` where the front matter has none.
    pub fn normalize_post(&self, path: &str, post: ValueMap, body: String) -> (r: Result<ValueMap, Error>)
        ensures
            normalized(*self, path@, post, body@, r),
    {
        proof {
            reveal_strlit("text");
            reveal_strlit("path");
            reveal_strlit("url");
            reveal_strlit("date");
            reveal_strlit("md");
            reveal_strlit("posts");
            assert("text"@[0] != "path"@[0] && "text"@[0] != "date"@[0] && "path"@[0] != "date"@[0]);
            assert("text"@ != "path"@ && "text"@ != "date"@ && "path"@ != "date"@);
            assert("url"@.len() != "text"@.len());
        }
        let ghost post0 = post;
        let ghost body0 = body@;
        let mut post = post;
        let shown = match path_extension(path) {
            Some(e) => {
                if same_key(e.as_str(), "md") {
                    markdown_to_html(body.as_str())
                } else {
                    body
                }
            },
            None => body,
        };
        post.insert(text("text"), Value::String(shown));
        let under_src = match strip_path_prefix(path, self.src_dir()) {
            Some(p) => p,
            None => {
                return Err(Error::Other(text("prefix not found")));
            },
        };
        let under_posts = match strip_path_prefix(under_src.as_str(), "posts") {
            Some(p) => p,
            None => {
                return Err(Error::Other(text("prefix not found")));
            },
        };
        let dest = with_html_extension(under_posts.as_str());
        let mut url = text(self.base_url());
        url.append("/");
        url.append(dest.as_str());
        let date = if post.contains_key("date") {
            None
        } else {
            date_from_path(dest.as_str())
        };
        post.insert(text("path"), Value::String(dest));
        post.insert(text("url"), Value::String(url));
        match date {
            Some(d) => {
                post.insert(text("date"), Value::String(d));
            },
            None => {},
        }
        assert(dest_path_of(self.spec_src_dir(), path@) == Some(dest@));
        assert(is_text(post.spec_get("text"@), rendered_body(path@, body0)));
        assert(is_text(post.spec_get("path"@), dest@));
        assert(is_text(post.spec_get("url"@), self.spec_base_url() + "/"@ + dest@));
        Ok(post)
    }

    /// Parses the document `content` of the source at `path` into a post.
    pub fn parse_post(&self, path: &str, content: &str) -> (r: Result<ValueMap, Error>)
        ensures
            post_outcome(*self, path@, content@, r),
    {
        let fm = parse_front_matter(content, path);
        let ghost fm0 = fm;
        match fm {
            Ok((m, body)) => self.normalize_post(path, m, body),
            Err(e) => Err(e),
        }
    }
}

} // verus!
