//! The logic of the template helpers: formatting a date and joining strings.
use crate::dates::{format_instant, parse_rfc3339, rfc3339_instant, strftime_text};
use crate::error::text;
use vstd::prelude::*;

verus! {

/// A template helper that formats an RFC 3339 date string with a chrono
/// format string, `%c` by default.
pub struct FormatDateTimeHelper {}

/// A template helper that joins an array of strings with a separator,
/// `", "` by default.
pub struct JoinHelper {}

/// The strings `s` with `sep` between each two.
pub open spec fn joined(s: Seq<Seq<char>>, sep: Seq<char>) -> Seq<char>
    decreases s.len(),
{
    if s.len() == 0 {
        Seq::empty()
    } else if s.len() == 1 {
        s[0]
    } else {
        joined(s.drop_last(), sep) + sep + s.last()
    }
}

/// The format string in effect: the given one, or `%c`.
pub open spec fn format_or_default(fmt: Option<Seq<char>>) -> Seq<char> {
    match fmt {
        Some(f) => f,
        None => "%c"@,
    }
}

impl FormatDateTimeHelper {
    /// Creates a new FormatDateTimeHelper.
    pub fn new() -> (r: FormatDateTimeHelper) {
        FormatDateTimeHelper {}
    }

    /// The helper's output for the date `value` and the format `fmt`: the
    /// date formatted at its own offset, or the message of why not.
    pub fn format_value(&self, value: Option<&str>, fmt: Option<&str>) -> (r: Result<String, String>)
        ensures
            match value {
                None => r matches Err(m) && m@ == "Property cannot be converted to string."@,
                Some(v) => match rfc3339_instant(v@) {
                    None => r matches Err(m) && "Could not parse as datetime: "@.is_prefix_of(m@),
                    Some((secs, nanos, offset)) => match strftime_text(
                        secs,
                        nanos,
                        offset,
                        format_or_default(match fmt { Some(f) => Some(f@), None => None }),
                    ) {
                        Some(s) => r matches Ok(x) && x@ == s,
                        None => r is Err,
                    },
                },
            },
    {
        let v = match value {
            Some(v) => v,
            None => {
                return Err(text("Property cannot be converted to string."));
            },
        };
        let f = match fmt {
            Some(f) => f,
            None => "%c",
        };
        match parse_rfc3339(v) {
            Ok((secs, nanos, offset)) => match format_instant(secs, nanos, offset, f) {
                Some(s) => Ok(s),
                None => {
                    let mut m = text("Could not format datetime with: ");
                    m.append(f);
                    Err(m)
                },
            },
            Err(reason) => {
                let mut m = text("Could not parse as datetime: ");
                let ghost head = m@;
                m.append(v);
                m.append(" (");
                m.append(reason.as_str());
                m.append(")");
                assert(head.is_prefix_of(m@)) by {
                    assert(m@.subrange(0, head.len() as int) =~= head);
                }
                Err(m)
            },
        }
    }
}

impl JoinHelper {
    /// Creates a new JoinHelper.
    pub fn new() -> (r: JoinHelper) {
        JoinHelper {}
    }

    /// The helper's output for the strings `items` and the separator
    /// `sep`: the strings joined, or the message of why not.
    pub fn join(&self, items: Option<&Vec<String>>, sep: Option<&str>) -> (r: Result<String, String>)
        ensures
            match items {
                None => r matches Err(m) && m@ == "Property cannot be converted to array."@,
                Some(v) => r matches Ok(x) && x@ == joined(
                    v@.map_values(|s: String| s@),
                    match sep {
                        Some(s) => s@,
                        None => ", "@,
                    },
                ),
            },
    {
        let v = match items {
            Some(v) => v,
            None => {
                return Err(text("Property cannot be converted to array."));
            },
        };
        let s = match sep {
            Some(s) => s,
            None => ", ",
        };
        let ghost views = v@.map_values(|x: String| x@);
        let mut out = String::new();
        let n = v.len();
        let mut i: usize = 0;
        while i < n
            invariant
                n == v@.len(),
                i <= n,
                views == v@.map_values(|x: String| x@),
                out@ == joined(views.take(i as int), s@),
            decreases n - i,
        {
            proof {
                assert(views.take(i + 1).drop_last() =~= views.take(i as int));
            }
            if i > 0 {
                out.append(s);
            }
            out.append(v[i].as_str());
            proof {
                if i == 0 {
                    assert(out@ =~= views.take(1)[0]);
                }
            }
            i = i + 1;
        }
        proof {
            assert(views.take(n as int) =~= views);
        }
        Ok(out)
    }
}

} // verus!
