//! Records in the store: how a record becomes a row, how rows become
//! records again, and what the store's answers mean.
//!
//! A row has the seven columns of the table in their order. The two
//! coordinate columns are text: the numbers of the record, each written
//! as a token, joined by commas. The store keeps names unique; a row
//! whose name is already there is refused.

use vstd::prelude::*;
use crate::airfoil::{Airfoil, AirfoilView};
use crate::binary64::Binary64;
use crate::codec::{
    all_read,
    all_separator_free,
    collect_values,
    join_fields,
    joined,
    lemma_split_join,
    split,
    values_read,
};
use crate::error::AirfoilError;
use crate::schema::{Fault, ReplyView, StoreReply};
use crate::text::views;

verus! {

/// A row of the table: the values of its seven columns, in order.
#[derive(Debug)]
pub struct StoredRow {
    pub name: String,
    pub camber: Binary64,
    pub camber_pos: Binary64,
    pub max_thickness: Binary64,
    pub max_thick_pos: Binary64,
    pub x_coord: String,
    pub y_coord: String,
}

/// A row with its texts as sequences of characters.
pub struct RowView {
    pub name: Seq<char>,
    pub camber: Binary64,
    pub camber_pos: Binary64,
    pub max_thickness: Binary64,
    pub max_thick_pos: Binary64,
    pub x_coord: Seq<char>,
    pub y_coord: Seq<char>,
}

impl View for StoredRow {
    type V = RowView;

    open spec fn view(&self) -> RowView {
        RowView {
            name: self.name@,
            camber: self.camber,
            camber_pos: self.camber_pos,
            max_thickness: self.max_thickness,
            max_thick_pos: self.max_thick_pos,
            x_coord: self.x_coord@,
            y_coord: self.y_coord@,
        }
    }
}

/// A row as it was read: the tokens of its coordinate columns are
/// replaced by the numbers they were read as, none for a token that is
/// not a number.
#[derive(Debug)]
pub struct ReadRow {
    pub name: String,
    pub camber: Binary64,
    pub camber_pos: Binary64,
    pub max_thickness: Binary64,
    pub max_thick_pos: Binary64,
    pub x_coord: Vec<Option<Binary64>>,
    pub y_coord: Vec<Option<Binary64>>,
}

/// A row as it was read, with its name as a sequence of characters.
pub struct ReadRowView {
    pub name: Seq<char>,
    pub camber: Binary64,
    pub camber_pos: Binary64,
    pub max_thickness: Binary64,
    pub max_thick_pos: Binary64,
    pub x_coord: Seq<Option<Binary64>>,
    pub y_coord: Seq<Option<Binary64>>,
}

impl View for ReadRow {
    type V = ReadRowView;

    open spec fn view(&self) -> ReadRowView {
        ReadRowView {
            name: self.name@,
            camber: self.camber,
            camber_pos: self.camber_pos,
            max_thickness: self.max_thickness,
            max_thick_pos: self.max_thick_pos,
            x_coord: self.x_coord@,
            y_coord: self.y_coord@,
        }
    }
}

/// The row of a record whose coordinates are written as the given
/// tokens.
pub open spec fn row_of(airfoil: AirfoilView, x_tokens: Seq<Seq<char>>, y_tokens: Seq<Seq<char>>)
    -> RowView {
    RowView {
        name: airfoil.name,
        camber: airfoil.camber,
        camber_pos: airfoil.camber_pos,
        max_thickness: airfoil.max_thickness,
        max_thick_pos: airfoil.max_thick_pos,
        x_coord: joined(x_tokens),
        y_coord: joined(y_tokens),
    }
}

/// The readings of a sequence of tokens.
pub open spec fn readings_of(
    tokens: Seq<Seq<char>>,
    read: spec_fn(Seq<char>) -> Option<Binary64>,
) -> Seq<Option<Binary64>> {
    Seq::new(tokens.len(), |i: int| read(tokens[i]))
}

/// A row as it is read where `read` is how a token is read as a number.
pub open spec fn read_row_of(row: RowView, read: spec_fn(Seq<char>) -> Option<Binary64>)
    -> ReadRowView {
    ReadRowView {
        name: row.name,
        camber: row.camber,
        camber_pos: row.camber_pos,
        max_thickness: row.max_thickness,
        max_thick_pos: row.max_thick_pos,
        x_coord: readings_of(split(row.x_coord), read),
        y_coord: readings_of(split(row.y_coord), read),
    }
}

/// Whether every token of a row was read as a number.
pub open spec fn row_readable(row: ReadRowView) -> bool {
    all_read(row.x_coord) && all_read(row.y_coord)
}

/// The record of a row whose tokens were all read.
pub open spec fn record_of(row: ReadRowView) -> AirfoilView {
    AirfoilView {
        name: row.name,
        camber: row.camber,
        camber_pos: row.camber_pos,
        max_thickness: row.max_thickness,
        max_thick_pos: row.max_thick_pos,
        x_coord: values_read(row.x_coord),
        y_coord: values_read(row.y_coord),
    }
}

/// Whether every row of a listing is readable.
pub open spec fn all_readable(rows: Seq<ReadRow>) -> bool {
    forall|i: int| 0 <= i < rows.len() ==> row_readable(#[trigger] rows[i]@)
}

/// What the answer to an insertion means: done, a name that is already
/// there, or a store that failed.
pub open spec fn insert_result(reply: ReplyView) -> Result<(), AirfoilError> {
    match reply {
        ReplyView::Executed => Ok(()),
        ReplyView::Failed(Fault::Constraint) => Err(AirfoilError::DuplicateKey),
        _ => Err(AirfoilError::IoError),
    }
}

/// A store that works, seen as the rows of its table: what an insertion
/// leaves in it and what it answers. A row whose name is in the table is
/// refused and changes nothing.
pub open spec fn model_insert(table: Seq<RowView>, row: RowView) -> (Seq<RowView>, ReplyView) {
    if exists|i: int| 0 <= i < table.len() && (#[trigger] table[i]).name == row.name {
        (table, ReplyView::Failed(Fault::Constraint))
    } else {
        (table.push(row), ReplyView::Executed)
    }
}

/// The rows of a table that have a given name.
pub open spec fn rows_named(table: Seq<RowView>, name: Seq<char>) -> Seq<RowView> {
    table.filter(|row: RowView| row.name == name)
}

/// Builds the row that stores a record. The tokens are the numbers of the
/// record's two coordinate sequences as they are to be written.
pub fn add_airfoil_to_database(airfoil: &Airfoil, x_tokens: &Vec<String>, y_tokens: &Vec<String>)
    -> (row: StoredRow)
    ensures
        row@ == row_of(airfoil@, views(x_tokens@), views(y_tokens@)),
{
    StoredRow {
        name: airfoil.name.clone(),
        camber: airfoil.camber,
        camber_pos: airfoil.camber_pos,
        max_thickness: airfoil.max_thickness,
        max_thick_pos: airfoil.max_thick_pos,
        x_coord: join_fields(x_tokens),
        y_coord: join_fields(y_tokens),
    }
}

/// What the store's answer to an insertion means.
pub fn insert_outcome(reply: &StoreReply) -> (outcome: Result<(), AirfoilError>)
    ensures
        outcome == insert_result(reply@),
{
    match reply {
        StoreReply::Executed => Ok(()),
        StoreReply::Failed(Fault::Constraint) => Err(AirfoilError::DuplicateKey),
        _ => Err(AirfoilError::IoError),
    }
}

/// Turns the rows of a listing into records. One token that was not read
/// as a number spoils the whole listing: no record is returned then.
pub fn read_airfoil_from_database(rows: &Vec<ReadRow>) -> (listing: Result<
    Vec<Airfoil>,
    AirfoilError,
>)
    ensures
        match listing {
            Ok(records) => {
                &&& all_readable(rows@)
                &&& records.len() == rows.len()
                &&& forall|i: int|
                    0 <= i < rows.len() ==> (#[trigger] records[i])@ == record_of(rows[i]@)
            },
            Err(e) => !all_readable(rows@) && e == AirfoilError::ParseError,
        },
{
    let n: usize = rows.len();
    let mut records: Vec<Airfoil> = Vec::new();
    let mut i: usize = 0;
    while i < n
        invariant
            i <= n == rows.len(),
            records.len() == i,
            forall|j: int| 0 <= j < i ==> row_readable(#[trigger] rows[j]@),
            forall|j: int| 0 <= j < i ==> (#[trigger] records[j])@ == record_of(rows[j]@),
        decreases n - i,
    {
        let row = &rows[i];
        let x_coord = match collect_values(&row.x_coord) {
            Ok(values) => values,
            Err(e) => {
                assert(!row_readable(rows[i as int]@));
                return Err(e);
            },
        };
        let y_coord = match collect_values(&row.y_coord) {
            Ok(values) => values,
            Err(e) => {
                assert(!row_readable(rows[i as int]@));
                return Err(e);
            },
        };
        records.push(
            Airfoil {
                name: row.name.clone(),
                camber: row.camber,
                camber_pos: row.camber_pos,
                max_thickness: row.max_thickness,
                max_thick_pos: row.max_thick_pos,
                x_coord,
                y_coord,
            },
        );
        i += 1;
    }
    Ok(records)
}

/// What removing the store reports: never a failure. A store that is
/// there and could not be removed is worth a warning, and no more.
pub fn delete_database(present: bool, removed: bool) -> (report: (Result<(), AirfoilError>, bool))
    ensures
        report.0 is Ok,
        report.1 == (present && !removed),
{
    (Ok(()), present && !removed)
}

/// A record comes back from the store as it went in.
///
/// The record is written with a token for each coordinate and the row is
/// read again. Where each token is read as the number it was written for,
/// no token holds a comma, and the record has at least one point, the
/// row is readable and its record is the one that was written: the same
/// name, the same four summary values, the same coordinates.
pub proof fn lemma_record_round_trip(
    airfoil: AirfoilView,
    x_tokens: Seq<Seq<char>>,
    y_tokens: Seq<Seq<char>>,
    read: spec_fn(Seq<char>) -> Option<Binary64>,
)
    requires
        x_tokens.len() == airfoil.x_coord.len() >= 1,
        y_tokens.len() == airfoil.y_coord.len() >= 1,
        all_separator_free(x_tokens),
        all_separator_free(y_tokens),
        forall|i: int| 0 <= i < x_tokens.len() ==> read(#[trigger] x_tokens[i]) == Some(
            airfoil.x_coord[i],
        ),
        forall|i: int| 0 <= i < y_tokens.len() ==> read(#[trigger] y_tokens[i]) == Some(
            airfoil.y_coord[i],
        ),
    ensures
        row_readable(read_row_of(row_of(airfoil, x_tokens, y_tokens), read)),
        record_of(read_row_of(row_of(airfoil, x_tokens, y_tokens), read)) == airfoil,
{
    lemma_split_join(x_tokens);
    lemma_split_join(y_tokens);
    let back = read_row_of(row_of(airfoil, x_tokens, y_tokens), read);
    assert(back.x_coord =~= readings_of(x_tokens, read));
    assert(back.y_coord =~= readings_of(y_tokens, read));
    assert(values_read(back.x_coord) =~= airfoil.x_coord);
    assert(values_read(back.y_coord) =~= airfoil.y_coord);
}

/// A name is stored once. After a row was inserted, a second row with the
/// same name is refused as a duplicate and the table stays as it was; a
/// table that did not hold the name before holds exactly one row of it.
pub proof fn lemma_duplicate_insert_rejected(table: Seq<RowView>, first: RowView, second: RowView)
    requires
        first.name == second.name,
    ensures
        ({
            let (after_first, _) = model_insert(table, first);
            let (after_second, reply) = model_insert(after_first, second);
            &&& insert_result(reply) == Err::<(), AirfoilError>(AirfoilError::DuplicateKey)
            &&& after_second == after_first
            &&& rows_named(table, first.name).len() == 0 ==> rows_named(
                after_second,
                first.name,
            ) == seq![first]
        }),
{
    let (after_first, first_reply) = model_insert(table, first);
    let named = |row: RowView| row.name == first.name;
    if first_reply is Executed {
        assert(after_first[table.len() as int].name == second.name);
        assert(after_first.drop_last() =~= table);
        assert(after_first.last() == first);
        reveal(Seq::filter);
        assert(rows_named(after_first, first.name) == rows_named(table, first.name).push(first));
        if rows_named(table, first.name).len() == 0 {
            assert(rows_named(table, first.name).push(first) =~= seq![first]);
        }
    } else {
        let i = choose|i: int| 0 <= i < table.len() && (#[trigger] table[i]).name == first.name;
        assert(named(table[i]));
        table.lemma_filter_contains_rev(named, table[i]);
        assert(rows_named(table, first.name).contains(table[i]));
    }
}

} // verus!
