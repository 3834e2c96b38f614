//! The configuration of a site: where its sources lie, where its output
//! goes, and the base of its links.
use crate::error::text;
use vstd::prelude::*;

verus! {

/// A configured site generator. Use [`Builder`] to make one.
pub struct Bloggo {
    src_dir: String,
    dest_dir: String,
    base_url: String,
}

impl Bloggo {
    /// The source directory.
    pub closed spec fn spec_src_dir(&self) -> Seq<char> {
        self.src_dir@
    }

    /// The destination directory.
    pub closed spec fn spec_dest_dir(&self) -> Seq<char> {
        self.dest_dir@
    }

    /// The base URL.
    pub closed spec fn spec_base_url(&self) -> Seq<char> {
        self.base_url@
    }

    /// A generator with the given source and destination directories and
    /// base URL.
    pub fn new(src_dir: String, dest_dir: String, base_url: String) -> (r: Bloggo)
        ensures
            r.spec_src_dir() == src_dir@,
            r.spec_dest_dir() == dest_dir@,
            r.spec_base_url() == base_url@,
    {
        Bloggo { src_dir, dest_dir, base_url }
    }

    /// The directory that holds `posts/`, `templates/` and `assets/`.
    pub fn src_dir(&self) -> (r: &str)
        ensures
            r@ == self.spec_src_dir(),
    {
        self.src_dir.as_str()
    }

    /// The directory that receives the site.
    pub fn dest_dir(&self) -> (r: &str)
        ensures
            r@ == self.spec_dest_dir(),
    {
        self.dest_dir.as_str()
    }

    /// The base of every post's URL.
    pub fn base_url(&self) -> (r: &str)
        ensures
            r@ == self.spec_base_url(),
    {
        self.base_url.as_str()
    }
}

/// Whether a file name names a hidden file: it starts with `.`. Hidden
/// assets are not copied.
pub fn is_hidden(name: &str) -> (r: bool)
    ensures
        r == (name@.len() > 0 && name@[0] == '.'),
{
    let cs = crate::text::chars_of(name);
    cs.len() > 0 && cs[0] == '.'
}

/// A builder for [`Bloggo`] instances.
pub struct Builder {
    src_dir: String,
    dest_dir: String,
    base_url: String,
}

impl Builder {
    /// The source directory.
    pub closed spec fn spec_src_dir(&self) -> Seq<char> {
        self.src_dir@
    }

    /// The destination directory.
    pub closed spec fn spec_dest_dir(&self) -> Seq<char> {
        self.dest_dir@
    }

    /// The base URL.
    pub closed spec fn spec_base_url(&self) -> Seq<char> {
        self.base_url@
    }

    /// A builder with source `src/`, destination `dest/` and an empty base
    /// URL.
    pub fn new() -> (r: Builder)
        ensures
            r.spec_src_dir() == "src/"@,
            r.spec_dest_dir() == "dest/"@,
            r.spec_base_url() == ""@,
    {
        Builder { src_dir: text("src/"), dest_dir: text("dest/"), base_url: text("") }
    }

    /// Sets the source directory.
    pub fn src_dir(self, src_dir: &str) -> (r: Builder)
        ensures
            r.spec_src_dir() == src_dir@,
            r.spec_dest_dir() == self.spec_dest_dir(),
            r.spec_base_url() == self.spec_base_url(),
    {
        Builder { src_dir: text(src_dir), ..self }
    }

    /// Sets the destination directory.
    pub fn dest_dir(self, dest_dir: &str) -> (r: Builder)
        ensures
            r.spec_src_dir() == self.spec_src_dir(),
            r.spec_dest_dir() == dest_dir@,
            r.spec_base_url() == self.spec_base_url(),
    {
        Builder { dest_dir: text(dest_dir), ..self }
    }

    /// Sets the base URL.
    pub fn base_url(self, base_url: &str) -> (r: Builder)
        ensures
            r.spec_src_dir() == self.spec_src_dir(),
            r.spec_dest_dir() == self.spec_dest_dir(),
            r.spec_base_url() == base_url@,
    {
        Builder { base_url: text(base_url), ..self }
    }

    /// A generator with the configured values.
    pub fn build(self) -> (r: Bloggo)
        ensures
            r.spec_src_dir() == self.spec_src_dir(),
            r.spec_dest_dir() == self.spec_dest_dir(),
            r.spec_base_url() == self.spec_base_url(),
    {
        Bloggo::new(self.src_dir, self.dest_dir, self.base_url)
    }
}

impl Default for Builder {
    fn default() -> (r: Builder)
        ensures
            r.spec_src_dir() == "src/"@,
            r.spec_dest_dir() == "dest/"@,
            r.spec_base_url() == ""@,
    {
        Builder::new()
    }
}

} // verus!
