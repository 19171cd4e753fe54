//! Coordinate listings: which lines of a listing hold a point, and what a
//! listing is called.
//!
//! A line holds a point where it has two decimal numbers with a fractional
//! part, each with an optional sign, and white space between them. Other
//! lines (titles, headers, blank lines) are passed over.

use vstd::prelude::*;
use crate::text::{piece, to_chars};

verus! {

/// The pattern of a line that holds a point: its two groups are the two
/// numbers.
pub const COORDINATE_PATTERN: &'static str = r"\s*([-+]?\d*\.\d+)\s+([-+]?\d*\.\d+)";

/// The character that separates the parts of a path.
pub const PATH_SEPARATOR: char = '/';

/// The character that begins the extension of a file name.
pub const EXTENSION_MARK: char = '.';

/// The texts of the first and second group of the leftmost match of a
/// pattern in a line; none where the pattern is not a regular expression,
/// the line has no match, or one of the two groups took no part in it.
pub uninterp spec fn pattern_groups(pattern: Seq<char>, line: Seq<char>) -> Option<
    (Seq<char>, Seq<char>),
>;

/// A pair of strings as a pair of character sequences.
pub open spec fn pair_view(pair: (String, String)) -> (Seq<char>, Seq<char>) {
    (pair.0@, pair.1@)
}

/// An optional pair of strings as an optional pair of character sequences.
pub open spec fn found_view(found: Option<(String, String)>) -> Option<(Seq<char>, Seq<char>)> {
    match found {
        Some(pair) => Some(pair_view(pair)),
        None => None,
    }
}

/// The views of a sequence of pairs.
pub open spec fn pair_views(pairs: Seq<(String, String)>) -> Seq<(Seq<char>, Seq<char>)> {
    Seq::new(pairs.len(), |i: int| pair_view(pairs[i]))
}

/// The views of a sequence of optional pairs.
pub open spec fn found_views(found: Seq<Option<(String, String)>>) -> Seq<
    Option<(Seq<char>, Seq<char>)>,
> {
    Seq::new(found.len(), |i: int| found_view(found[i]))
}

/// The two number texts of a line of a listing, if it holds a point.
pub open spec fn line_fields(line: Seq<char>) -> Option<(Seq<char>, Seq<char>)> {
    pattern_groups(COORDINATE_PATTERN@, line)
}

/// What each line of a listing holds, line by line.
pub open spec fn lines_fields(lines: Seq<Seq<char>>) -> Seq<Option<(Seq<char>, Seq<char>)>> {
    Seq::new(lines.len(), |i: int| line_fields(lines[i]))
}

/// The values that are present, in their order.
pub open spec fn present<T>(items: Seq<Option<T>>) -> Seq<T>
    decreases items.len(),
{
    if items.len() == 0 {
        Seq::empty()
    } else if items.last() is Some {
        present(items.drop_last()).push(items.last()->0)
    } else {
        present(items.drop_last())
    }
}

/// The index at which the file name of a path begins: after the last
/// separator, or 0 where the path has none.
pub open spec fn file_name_start(path: Seq<char>) -> int
    decreases path.len(),
{
    if path.len() == 0 {
        0
    } else if path.last() == PATH_SEPARATOR {
        path.len() as int
    } else {
        file_name_start(path.drop_last())
    }
}

/// The file name of a path: what follows its last separator.
pub open spec fn file_name(path: Seq<char>) -> Seq<char> {
    path.subrange(file_name_start(path), path.len() as int)
}

/// The length of the stem of a file name: up to its last extension mark,
/// unless that mark is the first character; the whole name where it has
/// no mark.
pub open spec fn stem_length(name: Seq<char>) -> int
    decreases name.len(),
{
    if name.len() <= 1 {
        name.len() as int
    } else if name.last() == EXTENSION_MARK {
        name.len() - 1
    } else {
        let shorter = stem_length(name.drop_last());
        if shorter == name.len() - 1 {
            name.len() as int
        } else {
            shorter
        }
    }
}

/// The name of a file without directory and extension.
pub open spec fn base_name(path: Seq<char>) -> Seq<char> {
    file_name(path).take(stem_length(file_name(path)))
}

/// Calls `regex::Regex::new` on the pattern and `Regex::captures` on the
/// line, and hands out the texts of groups 1 and 2 of the match. The
/// crate finds the leftmost match and its groups from the pattern and the
/// line alone; `pattern_groups` is the name of what it finds.
#[verifier::external_body]
fn leading_groups(pattern: &str, line: &str) -> (found: Option<(String, String)>)
    ensures
        found_view(found) == pattern_groups(pattern@, line@),
{
    let expression = regex::Regex::new(pattern).ok()?;
    let captures = expression.captures(line)?;
    Some((captures.get(1)?.as_str().to_string(), captures.get(2)?.as_str().to_string()))
}

/// The two number texts of a line, if the line holds a point.
pub fn scan_line(line: &str) -> (found: Option<(String, String)>)
    ensures
        found_view(found) == line_fields(line@),
{
    leading_groups(COORDINATE_PATTERN, line)
}

/// Keeps the lines that hold a point, in their order.
pub fn collect_matches(found: &Vec<Option<(String, String)>>) -> (pairs: Vec<(String, String)>)
    ensures
        pair_views(pairs@) == present(found_views(found@)),
{
    let n: usize = found.len();
    let ghost whole = found_views(found@);
    let mut pairs: Vec<(String, String)> = Vec::new();
    let mut i: usize = 0;
    proof {
        assert(whole.take(0) =~= Seq::empty());
        assert(pair_views(pairs@) =~= present(whole.take(0)));
    }
    while i < n
        invariant
            i <= n == found.len(),
            whole == found_views(found@),
            pair_views(pairs@) == present(whole.take(i as int)),
        decreases n - i,
    {
        let ghost kept = pair_views(pairs@);
        proof {
            assert(whole.take(i as int + 1).drop_last() =~= whole.take(i as int));
            assert(whole.take(i as int + 1).last() == found_view(found@[i as int]));
        }
        match &found[i] {
            Some(pair) => {
                pairs.push((pair.0.clone(), pair.1.clone()));
                proof {
                    assert(pair_views(pairs@) =~= kept.push(pair_view(*pair)));
                }
            },
            None => {},
        }
        i += 1;
    }
    proof {
        assert(whole.take(n as int) =~= whole);
    }
    pairs
}

/// The number texts of the lines of a listing that hold a point, in the
/// order of the lines.
pub fn scan_lines(lines: &Vec<String>) -> (pairs: Vec<(String, String)>)
    ensures
        pair_views(pairs@) == present(lines_fields(crate::text::views(lines@))),
{
    let n: usize = lines.len();
    let mut found: Vec<Option<(String, String)>> = Vec::new();
    let mut i: usize = 0;
    while i < n
        invariant
            i <= n == lines.len(),
            found.len() == i,
            forall|j: int| 0 <= j < i ==> found_view(#[trigger] found[j]) == line_fields(lines[j]@),
        decreases n - i,
    {
        found.push(scan_line(lines[i].as_str()));
        i += 1;
    }
    assert(found_views(found@) =~= lines_fields(crate::text::views(lines@)));
    collect_matches(&found)
}

/// The name of a record made from a file: the file's name without
/// directory and extension.
pub fn record_name(path: &str) -> (name: String)
    ensures
        name@ == base_name(path@),
{
    let chars = to_chars(path);
    let n: usize = chars.len();
    let mut start: usize = 0;
    let mut i: usize = 0;
    while i < n
        invariant
            i <= n == chars.len(),
            start <= i,
            start == file_name_start(chars@.take(i as int)),
        decreases n - i,
    {
        proof {
            assert(chars@.take(i as int + 1).drop_last() =~= chars@.take(i as int));
        }
        if chars[i] == PATH_SEPARATOR {
            start = i + 1;
        }
        i += 1;
    }
    proof {
        assert(chars@.take(n as int) =~= chars@);
    }
    let ghost name = file_name(chars@);
    let mut end: usize = if n - start <= 1 { n } else { start + 1 };
    let mut k: usize = end;
    while k < n
        invariant
            start <= end <= k <= n == chars.len(),
            name == chars@.subrange(start as int, n as int),
            end - start == stem_length(name.take(k - start)),
            k - start >= 1 || k == n,
        decreases n - k,
    {
        proof {
            assert(name.take(k - start + 1).drop_last() =~= name.take(k - start));
            assert(name.take(k - start + 1).last() == chars@[k as int]);
        }
        if chars[k] == EXTENSION_MARK {
            end = k;
        } else if end == k {
            end = k + 1;
        }
        k += 1;
    }
    proof {
        assert(name.take(n - start) =~= name);
        assert(name.take(end - start) =~= chars@.subrange(start as int, end as int));
    }
    piece(path, start, end)
}

} // verus!
