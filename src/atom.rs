//! The Atom feed of a sequence of posts.
use crate::error::text;
use crate::text::{chars_of, slice_of};
use crate::value::{Value, ValueMap};
use vstd::prelude::*;

verus! {

/// The XML form of one character: an entity for markup, else itself.
pub open spec fn escape_char(c: char) -> Seq<char> {
    if c == '&' {
        "&amp;"@
    } else if c == '<' {
        "&lt;"@
    } else if c == '>' {
        "&gt;"@
    } else if c == '"' {
        "&quot;"@
    } else {
        seq![c]
    }
}

/// `s` with `&`, `<`, `>` and `"` written as entities, so that it stands as
/// text or as an attribute value in a well-formed document.
pub open spec fn xml_escaped(s: Seq<char>) -> Seq<char>
    decreases s.len(),
{
    if s.len() == 0 {
        Seq::empty()
    } else {
        xml_escaped(s.drop_last()) + escape_char(s.last())
    }
}

/// `open + s + close` with `s` escaped, where field `key` of `p` is the
/// string `s`; nothing otherwise.
pub open spec fn element(p: ValueMap, key: Seq<char>, open: Seq<char>, close: Seq<char>) -> Seq<char> {
    match p.spec_get(key) {
        Some(Value::String(s)) => open + xml_escaped(s@) + close,
        _ => Seq::empty(),
    }
}

/// Appends `s` to `out` with markup characters as entities.
pub fn push_escaped(out: &mut String, s: &str)
    ensures
        final(out)@ == old(out)@ + xml_escaped(s@),
{
    let cs = chars_of(s);
    let n = cs.len();
    let mut start: usize = 0;
    let mut i: usize = 0;
    assert(s@.take(0) =~= Seq::<char>::empty());
    while i < n
        invariant
            n == cs@.len(),
            cs@ == s@,
            start <= i <= n,
            out@ + s@.subrange(start as int, i as int) == old(out)@ + xml_escaped(s@.take(i as int)),
        decreases n - i,
    {
        let c = cs[i];
        let ghost before = out@;
        proof {
            assert(s@.take(i + 1).drop_last() =~= s@.take(i as int));
            assert(s@.take(i + 1).last() == c);
        }
        if c == '&' || c == '<' || c == '>' || c == '"' {
            let ghost rs = start as int;
            out.append(slice_of(s, start, i).as_str());
            let ghost mid = out@;
            if c == '&' {
                out.append("&amp;");
            } else if c == '<' {
                out.append("&lt;");
            } else if c == '>' {
                out.append("&gt;");
            } else {
                out.append("&quot;");
            }
            assert(out@ == mid + escape_char(c));
            assert(mid == before + s@.subrange(rs, i as int));
            assert(before + s@.subrange(rs, i as int) == old(out)@ + xml_escaped(s@.take(i as int)));
            assert(out@ =~= old(out)@ + xml_escaped(s@.take(i as int)) + escape_char(c));
            assert(xml_escaped(s@.take(i + 1)) == xml_escaped(s@.take(i as int)) + escape_char(c));
            start = i + 1;
            proof {
                let e = s@.subrange(start as int, (i + 1) as int);
                assert(e =~= Seq::<char>::empty());
                assert(out@ + e =~= out@);
                let x = xml_escaped(s@.take(i as int));
                assert(old(out)@ + x + escape_char(c) =~= old(out)@ + (x + escape_char(c)));
            }
        } else {
            proof {
                assert(escape_char(c) == seq![c]);
                let run = s@.subrange(start as int, i as int);
                assert(s@.subrange(start as int, (i + 1) as int) =~= run + seq![c]);
                assert(out@ + (run + seq![c]) =~= (out@ + run) + seq![c]);
                let x = xml_escaped(s@.take(i as int));
                assert(xml_escaped(s@.take(i + 1)) == x + seq![c]);
                assert(old(out)@ + x + seq![c] =~= old(out)@ + (x + seq![c]));
            }
        }
        i = i + 1;
    }
    out.append(slice_of(s, start, n).as_str());
    proof {
        assert(s@.take(n as int) =~= s@);
    }
}

/// The `<entry>` element of a post: its title, its publication date and
/// its link, each only where the post has it.
pub open spec fn entry_text(p: ValueMap) -> Seq<char> {
    "  <entry>\n"@ + element(p, "title"@, "    <title>"@, "</title>\n"@) + element(
        p,
        "date"@,
        "    <published>"@,
        "</published>\n"@,
    ) + element(p, "url"@, "    <link href=\""@, "\" />\n"@) + "  </entry>\n"@
}

/// The entries of a sequence of posts, in order.
pub open spec fn entries_text(ps: Seq<ValueMap>) -> Seq<char>
    decreases ps.len(),
{
    if ps.len() == 0 {
        Seq::empty()
    } else {
        entries_text(ps.drop_last()) + entry_text(ps.last())
    }
}

/// The XML declaration and the opening `<feed>` line.
pub open spec fn feed_head() -> Seq<char> {
    "<?xml version=\"1.0\" encoding=\"utf-8\"?>\n<feed xmlns=\"http://www.w3.org/2005/Atom\">\n"@
}

/// The Atom document of a sequence of posts.
pub open spec fn feed_text(ps: Seq<ValueMap>) -> Seq<char> {
    feed_head() + entries_text(ps) + "</feed>\n"@
}

/// The feed of three posts is the head, one entry for each post in order,
/// and the tail; each entry holds a post's title, date and link where the
/// post has them (see [`entry_text`]).
pub proof fn lemma_feed_of_three(ps: Seq<ValueMap>)
    requires
        ps.len() == 3,
    ensures
        feed_text(ps) == feed_head() + entry_text(ps[0]) + entry_text(ps[1]) + entry_text(ps[2]) + "</feed>\n"@,
{
    reveal_with_fuel(entries_text, 4);
    assert(ps.drop_last().drop_last().drop_last() =~= Seq::<ValueMap>::empty());
    assert(ps.drop_last().drop_last().last() == ps[0]);
    assert(ps.drop_last().last() == ps[1]);
    assert(entries_text(ps) =~= entry_text(ps[0]) + entry_text(ps[1]) + entry_text(ps[2]));
    assert(feed_text(ps) =~= feed_head() + entry_text(ps[0]) + entry_text(ps[1]) + entry_text(ps[2]) + "</feed>\n"@);
}

/// The posts of `posts` at the positions `picks`, in that order.
pub open spec fn picked(posts: Seq<ValueMap>, picks: Seq<usize>) -> Seq<ValueMap> {
    picks.map_values(|k: usize| posts[k as int])
}

/// Appends `open + s + close` to `out` where field `key` of `p` is the
/// string `s`.
fn push_element(out: &mut String, p: &ValueMap, key: &str, open: &str, close: &str)
    ensures
        final(out)@ == old(out)@ + element(*p, key@, open@, close@),
{
    match p.get(key) {
        Some(Value::String(s)) => {
            out.append(open);
            push_escaped(out, s.as_str());
            out.append(close);
        },
        _ => {
            assert(old(out)@ + Seq::<char>::empty() =~= old(out)@);
        },
    }
}

/// Writes a minimal Atom feed of the posts at positions `picks` of `posts`:
/// one `<entry>` per post with its `title`, `date` (as `<published>`) and
/// `url` (as `<link href>`), each escaped for XML and omitted where the
/// post lacks it. No feed
/// id or update time is written.
pub fn generate_atom_feed(posts: &Vec<ValueMap>, picks: &Vec<usize>) -> (r: String)
    requires
        forall|i: int| 0 <= i < picks@.len() ==> (#[trigger] picks@[i]) < posts@.len(),
    ensures
        r@ == feed_text(picked(posts@, picks@)),
{
    let mut out = text("<?xml version=\"1.0\" encoding=\"utf-8\"?>\n<feed xmlns=\"http://www.w3.org/2005/Atom\">\n");
    let ghost all = picked(posts@, picks@);
    let n = picks.len();
    let mut i: usize = 0;
    while i < n
        invariant
            n == picks@.len(),
            i <= n,
            all == picked(posts@, picks@),
            forall|j: int| 0 <= j < picks@.len() ==> (#[trigger] picks@[j]) < posts@.len(),
            out@ == feed_head() + entries_text(all.take(i as int)),
        decreases n - i,
    {
        let p = &posts[picks[i]];
        let ghost before = out@;
        out.append("  <entry>\n");
        push_element(&mut out, p, "title", "    <title>", "</title>\n");
        push_element(&mut out, p, "date", "    <published>", "</published>\n");
        push_element(&mut out, p, "url", "    <link href=\"", "\" />\n");
        out.append("  </entry>\n");
        proof {
            assert(all.take(i + 1).drop_last() =~= all.take(i as int));
            assert(all.take(i + 1).last() == *p);
            assert(out@ =~= before + entry_text(*p));
        }
        i = i + 1;
    }
    out.append("</feed>\n");
    proof {
        assert(all.take(n as int) =~= all);
    }
    out
}

} // verus!
