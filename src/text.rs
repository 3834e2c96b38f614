//! Character-level helpers on strings, and the line model of a document.
use vstd::prelude::*;
use vstd::std_specs::iter::IteratorSpec;
use vstd::string::*;

verus! {

broadcast use vstd::string::group_string_axioms;

/// The characters of `s`, in order.
pub fn chars_of(s: &str) -> (r: Vec<char>)
    ensures
        r@ == s@,
{
    let mut r: Vec<char> = Vec::new();
    for c in it: s.chars()
        invariant
            r@ == it.seq().take(it.index() as int),
            it.seq() == s@,
    {
        r.push(c);
        assert(r@ =~= it.seq().take(it.index() + 1));
    }
    assert(r@ =~= s@);
    r
}

/// The characters `from..to` of `s`, as a new string.
pub fn slice_of(s: &str, from: usize, to: usize) -> (r: String)
    requires
        from <= to <= s@.len(),
    ensures
        r@ == s@.subrange(from as int, to as int),
{
    s.substring_char(from, to).to_owned()
}

/// One past the end of the line that starts at `i`: just after its newline,
/// or the end of the text for a last line without one.
pub open spec fn line_end(s: Seq<char>, i: int) -> int
    decreases s.len() - i,
{
    if i >= s.len() {
        s.len() as int
    } else if s[i] == '\n' {
        i + 1
    } else {
        line_end(s, i + 1)
    }
}

/// A line ends after it starts and within the text.
pub proof fn lemma_line_end_bounds(s: Seq<char>, i: int)
    requires
        0 <= i <= s.len(),
    ensures
        i <= line_end(s, i) <= s.len(),
        i < s.len() ==> i < line_end(s, i),
    decreases s.len() - i,
{
    if i < s.len() && s[i] != '\n' {
        lemma_line_end_bounds(s, i + 1);
    }
}

/// Whether the line that starts at `i` begins with `p`.
pub open spec fn line_starts_with(s: Seq<char>, i: int, p: Seq<char>) -> bool {
    i + p.len() <= line_end(s, i) && s.subrange(i, i + p.len()) == p
}

/// The start of the first line at or after the line start `i` that begins
/// with `p`, if there is one.
pub open spec fn find_line(s: Seq<char>, i: int, p: Seq<char>) -> Option<int>
    decreases s.len() - i,
{
    if i < 0 || i >= s.len() {
        None
    } else if line_starts_with(s, i, p) {
        Some(i)
    } else if line_end(s, i) <= i || line_end(s, i) > s.len() {
        None
    } else {
        find_line(s, line_end(s, i), p)
    }
}

/// A line that is found starts within the text, after the start of the search.
pub proof fn lemma_find_line_bounds(s: Seq<char>, i: int, p: Seq<char>)
    ensures
        find_line(s, i, p) matches Some(a) ==> i <= a < s.len() && a < line_end(s, a) <= s.len(),
    decreases s.len() - i,
{
    if 0 <= i < s.len() {
        lemma_line_end_bounds(s, i);
        if !line_starts_with(s, i, p) {
            lemma_find_line_bounds(s, line_end(s, i), p);
        }
    }
}

/// The end of the line of `cs` that starts at `i`.
pub fn next_line_end(cs: &Vec<char>, i: usize) -> (e: usize)
    requires
        i <= cs@.len(),
    ensures
        e == line_end(cs@, i as int),
        i <= e <= cs@.len(),
{
    let n = cs.len();
    let mut j = i;
    while j < n && cs[j] != '\n'
        invariant
            n == cs@.len(),
            i <= j <= n,
            line_end(cs@, i as int) == line_end(cs@, j as int),
        decreases n - j,
    {
        j = j + 1;
    }
    if j < n {
        j + 1
    } else {
        j
    }
}

/// Whether the line of `cs` that starts at `i` begins with `p`.
pub fn line_has_prefix(cs: &Vec<char>, i: usize, p: &Vec<char>) -> (r: bool)
    requires
        i <= cs@.len(),
    ensures
        r == line_starts_with(cs@, i as int, p@),
{
    let e = next_line_end(cs, i);
    let m = p.len();
    if m > e - i {
        return false;
    }
    let mut k: usize = 0;
    while k < m
        invariant
            m == p@.len(),
            i + m <= e,
            e <= cs@.len(),
            k <= m,
            forall|t: int| 0 <= t < k ==> cs@[i + t] == p@[t],
        decreases m - k,
    {
        if cs[i + k] != p[k] {
            assert(cs@.subrange(i as int, i + m)[k as int] != p@[k as int]);
            return false;
        }
        k = k + 1;
    }
    assert(cs@.subrange(i as int, i + m) =~= p@);
    true
}

} // verus!
