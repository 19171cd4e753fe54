//! The text form of a coordinate column: numeric tokens joined by commas.

use vstd::prelude::*;
use crate::binary64::Binary64;
use crate::error::AirfoilError;
use crate::text::{piece, to_chars, views};

verus! {

/// The character that stands between two tokens.
pub const SEPARATOR: char = ',';

/// The pieces written one after another with a separator between
/// neighbours.
pub open spec fn joined(pieces: Seq<Seq<char>>) -> Seq<char>
    decreases pieces.len(),
{
    if pieces.len() == 0 {
        Seq::empty()
    } else if pieces.len() == 1 {
        pieces[0]
    } else {
        joined(pieces.drop_last()) + seq![SEPARATOR] + pieces.last()
    }
}

/// The pieces that the separators cut a text into. Reading the text from
/// the left, a separator opens a new empty piece and any other character
/// extends the last piece; the empty text is one empty piece.
pub open spec fn split(text: Seq<char>) -> Seq<Seq<char>>
    decreases text.len(),
{
    if text.len() == 0 {
        seq![Seq::empty()]
    } else {
        let before = split(text.drop_last());
        if text.last() == SEPARATOR {
            before.push(Seq::empty())
        } else {
            before.drop_last().push(before.last().push(text.last()))
        }
    }
}

/// Whether a piece holds no separator.
pub open spec fn separator_free(piece: Seq<char>) -> bool {
    forall|i: int| 0 <= i < piece.len() ==> piece[i] != SEPARATOR
}

/// Whether every piece holds no separator.
pub open spec fn all_separator_free(pieces: Seq<Seq<char>>) -> bool {
    forall|i: int| 0 <= i < pieces.len() ==> separator_free(#[trigger] pieces[i])
}

/// Whether every token was read as a number.
pub open spec fn all_read(readings: Seq<Option<Binary64>>) -> bool {
    forall|i: int| 0 <= i < readings.len() ==> (#[trigger] readings[i]) is Some
}

/// The numbers of a sequence of readings that were all read.
pub open spec fn values_read(readings: Seq<Option<Binary64>>) -> Seq<Binary64> {
    Seq::new(readings.len(), |i: int| readings[i]->0)
}

/// A text is cut into at least one piece.
pub proof fn lemma_split_nonempty(text: Seq<char>)
    ensures
        split(text).len() >= 1,
    decreases text.len(),
{
    if text.len() > 0 {
        lemma_split_nonempty(text.drop_last());
    }
}

/// No piece that a text is cut into holds a separator.
pub proof fn lemma_split_separator_free(text: Seq<char>)
    ensures
        all_separator_free(split(text)),
    decreases text.len(),
{
    if text.len() > 0 {
        lemma_split_separator_free(text.drop_last());
        lemma_split_nonempty(text.drop_last());
        let before = split(text.drop_last());
        assert(separator_free(before.last()));
        assert forall|i: int| 0 <= i < split(text).len() implies separator_free(
            #[trigger] split(text)[i],
        ) by {
            if i < before.len() - 1 {
                assert(split(text)[i] == before[i]);
            }
        }
    }
}

/// Joining the pieces of a text gives the text back.
pub proof fn lemma_join_split(text: Seq<char>)
    ensures
        joined(split(text)) == text,
    decreases text.len(),
{
    if text.len() == 0 {
        assert(joined(split(text)) =~= text);
    } else {
        let shorter = text.drop_last();
        let before = split(shorter);
        lemma_join_split(shorter);
        lemma_split_nonempty(shorter);
        let now = split(text);
        if text.last() == SEPARATOR {
            assert(now.drop_last() =~= before);
            assert(joined(now) =~= shorter.push(text.last()));
        } else {
            if before.len() == 1 {
                assert(joined(now) =~= shorter.push(text.last()));
            } else {
                assert(now.drop_last() =~= before.drop_last());
                assert(joined(now) =~= joined(before).push(text.last()));
            }
        }
        assert(shorter.push(text.last()) =~= text);
    }
}

/// A piece without separator is cut into itself.
pub proof fn lemma_split_single(piece: Seq<char>)
    requires
        separator_free(piece),
    ensures
        split(piece) == seq![piece],
    decreases piece.len(),
{
    if piece.len() == 0 {
        assert(piece =~= Seq::<char>::empty());
    } else {
        let shorter = piece.drop_last();
        assert(separator_free(shorter)) by {
            assert forall|i: int| 0 <= i < shorter.len() implies shorter[i] != SEPARATOR by {
                assert(shorter[i] == piece[i]);
            }
        }
        lemma_split_single(shorter);
        assert(piece[piece.len() - 1] != SEPARATOR);
        assert(shorter.push(piece.last()) =~= piece);
        assert(seq![shorter].drop_last().push(seq![shorter].last().push(piece.last())) =~= seq![
            piece,
        ]);
    }
}

/// A separator and a piece without separator, written after a text, add
/// that piece to the pieces of the text.
pub proof fn lemma_split_append(text: Seq<char>, piece: Seq<char>)
    requires
        separator_free(piece),
    ensures
        split(text + seq![SEPARATOR] + piece) == split(text).push(piece),
    decreases piece.len(),
{
    let whole = text + seq![SEPARATOR] + piece;
    if piece.len() == 0 {
        assert(piece =~= Seq::<char>::empty());
        assert(whole.drop_last() =~= text);
        assert(whole.last() == SEPARATOR);
    } else {
        let shorter = piece.drop_last();
        assert(separator_free(shorter)) by {
            assert forall|i: int| 0 <= i < shorter.len() implies shorter[i] != SEPARATOR by {
                assert(shorter[i] == piece[i]);
            }
        }
        lemma_split_append(text, shorter);
        assert(whole.drop_last() =~= text + seq![SEPARATOR] + shorter);
        assert(whole.last() == piece[piece.len() - 1]);
        assert(piece[piece.len() - 1] != SEPARATOR);
        assert(shorter.push(piece.last()) =~= piece);
        let before = split(text).push(shorter);
        assert(before.drop_last() =~= split(text));
        assert(before.drop_last().push(before.last().push(whole.last())) =~= split(text).push(
            piece,
        ));
    }
}

/// Cutting undoes joining: pieces without separator, at least one of
/// them, come back unchanged from the text that joins them.
///
/// No pieces at all join to the empty text, which is cut into one empty
/// piece; that is the one list the law leaves out.
pub proof fn lemma_split_join(pieces: Seq<Seq<char>>)
    requires
        pieces.len() >= 1,
        all_separator_free(pieces),
    ensures
        split(joined(pieces)) == pieces,
    decreases pieces.len(),
{
    if pieces.len() == 1 {
        lemma_split_single(pieces[0]);
        assert(seq![pieces[0]] =~= pieces);
    } else {
        let shorter = pieces.drop_last();
        assert(all_separator_free(shorter)) by {
            assert forall|i: int| 0 <= i < shorter.len() implies separator_free(
                #[trigger] shorter[i],
            ) by {
                assert(shorter[i] == pieces[i]);
            }
        }
        lemma_split_join(shorter);
        lemma_split_append(joined(shorter), pieces.last());
        assert(shorter.push(pieces.last()) =~= pieces);
    }
}

/// Joins tokens into the text of a coordinate column.
pub fn join_fields(tokens: &Vec<String>) -> (text: String)
    ensures
        text@ == joined(views(tokens@)),
{
    let n: usize = tokens.len();
    let mut text = String::new();
    let ghost all = views(tokens@);
    let mut i: usize = 0;
    while i < n
        invariant
            i <= n == tokens.len(),
            all == views(tokens@),
            text@ == joined(all.take(i as int)),
        decreases n - i,
    {
        proof {
            reveal_strlit(",");
            assert(all.take(i as int + 1).drop_last() =~= all.take(i as int));
            assert(all.take(i as int + 1).last() == tokens@[i as int]@);
        }
        if i > 0 {
            text.append(",");
            assert(","@ =~= seq![SEPARATOR]);
        } else {
            assert(text@ =~= Seq::<char>::empty());
        }
        text.append(tokens[i].as_str());
        assert(text@ =~= joined(all.take(i as int + 1)));
        i += 1;
    }
    assert(all.take(n as int) =~= all);
    text
}

/// Cuts the text of a coordinate column into its tokens.
pub fn split_fields(text: &str) -> (tokens: Vec<String>)
    ensures
        views(tokens@) == split(text@),
{
    let chars = to_chars(text);
    let n: usize = chars.len();
    let mut tokens: Vec<String> = Vec::new();
    let mut start: usize = 0;
    let mut i: usize = 0;
    proof {
        assert(text@.take(0) =~= Seq::<char>::empty());
        assert(text@.subrange(0, 0) =~= Seq::<char>::empty());
        assert(views(tokens@).push(Seq::<char>::empty()) =~= seq![Seq::<char>::empty()]);
    }
    while i < n
        invariant
            start <= i <= n == chars.len(),
            chars@ == text@,
            views(tokens@).push(text@.subrange(start as int, i as int)) == split(
                text@.take(i as int),
            ),
        decreases n - i,
    {
        let ghost before = split(text@.take(i as int));
        let ghost shown = views(tokens@);
        proof {
            assert(text@.take(i as int + 1).drop_last() =~= text@.take(i as int));
            assert(text@.take(i as int + 1).last() == chars@[i as int]);
            assert(before.last() == text@.subrange(start as int, i as int));
            assert(before.drop_last() =~= shown);
        }
        if chars[i] == SEPARATOR {
            tokens.push(piece(text, start, i));
            start = i + 1;
            proof {
                assert(views(tokens@) =~= before);
                assert(text@.subrange(start as int, i as int + 1) =~= Seq::<char>::empty());
            }
        } else {
            proof {
                assert(text@.subrange(start as int, i as int + 1) =~= before.last().push(
                    chars@[i as int],
                ));
            }
        }
        i += 1;
    }
    proof {
        assert(text@.take(n as int) =~= text@);
    }
    let ghost shown = views(tokens@);
    tokens.push(piece(text, start, n));
    assert(views(tokens@) =~= shown.push(text@.subrange(start as int, n as int)));
    tokens
}

/// Gathers the numbers read from the tokens of a column. One token that
/// was not read as a number spoils the column.
pub fn collect_values(readings: &Vec<Option<Binary64>>) -> (values: Result<
    Vec<Binary64>,
    AirfoilError,
>)
    ensures
        match values {
            Ok(numbers) => all_read(readings@) && numbers@ == values_read(readings@),
            Err(e) => !all_read(readings@) && e == AirfoilError::ParseError,
        },
{
    let n: usize = readings.len();
    let mut numbers: Vec<Binary64> = Vec::new();
    let mut i: usize = 0;
    while i < n
        invariant
            i <= n == readings.len(),
            numbers.len() == i,
            forall|j: int| 0 <= j < i ==> (#[trigger] readings[j]) is Some,
            forall|j: int| 0 <= j < i ==> #[trigger] numbers[j] == readings[j]->0,
        decreases n - i,
    {
        match readings[i] {
            Some(number) => numbers.push(number),
            None => {
                return Err(AirfoilError::ParseError);
            },
        }
        i += 1;
    }
    assert(numbers@ =~= values_read(readings@));
    Ok(numbers)
}

} // verus!
