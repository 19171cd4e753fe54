//! Strings as sequences of characters: reading them, cutting pieces out
//! of them, and trimming white space.

use vstd::prelude::*;
use vstd::std_specs::iter::IteratorSpec;

verus! {

/// The views of a sequence of strings.
pub open spec fn views(texts: Seq<String>) -> Seq<Seq<char>> {
    Seq::new(texts.len(), |i: int| texts[i]@)
}

/// White space as Unicode defines it (the property `White_Space`).
pub open spec fn is_white_space(c: char) -> bool {
    let u = c as u32;
    ||| 0x09 <= u <= 0x0d
    ||| u == 0x20
    ||| u == 0x85
    ||| u == 0xa0
    ||| u == 0x1680
    ||| 0x2000 <= u <= 0x200a
    ||| u == 0x2028
    ||| u == 0x2029
    ||| u == 0x202f
    ||| u == 0x205f
    ||| u == 0x3000
}

/// The text without its leading white space.
pub open spec fn trim_start(text: Seq<char>) -> Seq<char>
    decreases text.len(),
{
    if text.len() > 0 && is_white_space(text.first()) {
        trim_start(text.drop_first())
    } else {
        text
    }
}

/// The text without its trailing white space.
pub open spec fn trim_end(text: Seq<char>) -> Seq<char>
    decreases text.len(),
{
    if text.len() > 0 && is_white_space(text.last()) {
        trim_end(text.drop_last())
    } else {
        text
    }
}

/// The text without leading and trailing white space.
pub open spec fn trimmed(text: Seq<char>) -> Seq<char> {
    trim_end(trim_start(text))
}

/// The characters of a string, in order.
pub fn to_chars(text: &str) -> (chars: Vec<char>)
    ensures
        chars@ == text@,
{
    broadcast use vstd::string::group_string_axioms;

    let mut chars: Vec<char> = Vec::new();
    for c in it: text.chars()
        invariant
            it.seq() == text@,
            chars@ == it.seq().take(it.index() as int),
    {
        chars.push(c);
    }
    chars
}

/// The characters of `text` from index `from` up to index `to`.
pub fn piece(text: &str, from: usize, to: usize) -> (out: String)
    requires
        from <= to <= text@.len(),
    ensures
        out@ == text@.subrange(from as int, to as int),
{
    text.substring_char(from, to).to_owned()
}

/// Whether a character is white space.
pub fn white_space(c: char) -> (yes: bool)
    ensures
        yes == is_white_space(c),
{
    let u: u32 = c as u32;
    (0x09 <= u && u <= 0x0d) || u == 0x20 || u == 0x85 || u == 0xa0 || u == 0x1680 || (0x2000 <= u
        && u <= 0x200a) || u == 0x2028 || u == 0x2029 || u == 0x202f || u == 0x205f || u == 0x3000
}

/// The bounds of the trimmed text within the text.
pub fn trim_bounds(chars: &Vec<char>) -> (bounds: (usize, usize))
    ensures
        bounds.0 <= bounds.1 <= chars.len(),
        chars@.subrange(bounds.0 as int, bounds.1 as int) == trimmed(chars@),
{
    let n: usize = chars.len();
    let mut start: usize = 0;
    assert(chars@.skip(0) == chars@);
    while start < n && white_space(chars[start])
        invariant
            start <= n == chars.len(),
            trim_start(chars@) == trim_start(chars@.skip(start as int)),
        decreases n - start,
    {
        assert(chars@.skip(start as int).drop_first() == chars@.skip(start as int + 1));
        start += 1;
    }
    assert(chars@.skip(start as int) == chars@.subrange(start as int, n as int));
    let mut end: usize = n;
    while end > start && white_space(chars[end - 1])
        invariant
            start <= end <= n == chars.len(),
            trimmed(chars@) == trim_end(chars@.subrange(start as int, end as int)),
        decreases end,
    {
        assert(chars@.subrange(start as int, end as int).drop_last() == chars@.subrange(
            start as int,
            end as int - 1,
        ));
        end -= 1;
    }
    (start, end)
}

/// Whether two strings are the same once leading and trailing white space
/// is taken off both.
pub fn same_when_trimmed(a: &str, b: &str) -> (same: bool)
    ensures
        same == (trimmed(a@) == trimmed(b@)),
{
    let left = to_chars(a);
    let right = to_chars(b);
    let (a_from, a_to) = trim_bounds(&left);
    let (b_from, b_to) = trim_bounds(&right);
    let ghost ta = trimmed(a@);
    let ghost tb = trimmed(b@);
    assert(ta.len() == a_to - a_from && tb.len() == b_to - b_from);
    if a_to - a_from != b_to - b_from {
        return false;
    }
    let len: usize = a_to - a_from;
    let mut i: usize = 0;
    while i < len
        invariant
            i <= len,
            a_from + len == a_to <= left.len(),
            b_from + len == b_to <= right.len(),
            ta == left@.subrange(a_from as int, a_to as int),
            tb == right@.subrange(b_from as int, b_to as int),
            ta == trimmed(a@),
            tb == trimmed(b@),
            forall|j: int| 0 <= j < i ==> ta[j] == tb[j],
        decreases len - i,
    {
        if left[a_from + i] != right[b_from + i] {
            assert(ta[i as int] == left@[a_from + i]);
            assert(tb[i as int] == right@[b_from + i]);
            return false;
        }
        assert(ta[i as int] == left@[a_from + i]);
        assert(tb[i as int] == right@[b_from + i]);
        i += 1;
    }
    assert(ta =~= tb);
    true
}

} // verus!
