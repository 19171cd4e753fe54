//! The table of the catalog and the procedure that makes sure of it.
//!
//! The catalog is one table, `airfoils`, with seven columns in a fixed
//! order. The store is asked one thing at a time; each answer decides what
//! is asked next, until the table is accepted or refused. The procedure
//! never changes a table that is already there.

use vstd::prelude::*;
use crate::error::AirfoilError;
use crate::text::{same_when_trimmed, trimmed};

verus! {

/// What a statement that creates a table begins with.
pub const CREATE_HEAD: &'static str = "CREATE TABLE ";

/// The clause that makes creation do nothing where the table exists. The
/// store does not keep it in the definition that it records.
pub const CREATE_GUARD: &'static str = "IF NOT EXISTS ";

/// The name of the table and its columns. The white space inside is part
/// of the definition, since definitions are compared character by
/// character.
pub const TABLE_BODY: &'static str =
    "airfoils (\n            name TEXT PRIMARY KEY,\n            camber REAL,\n            camber_pos REAL,\n            max_thickness REAL,\n            max_thick_pos REAL,\n            x_coord TEXT,\n            y_coord TEXT\n        )";

/// The statement that adds one record, its seven values in column order.
pub const INSERT_STATEMENT: &'static str =
    "INSERT INTO airfoils (name, camber, camber_pos, max_thickness, max_thick_pos, x_coord, y_coord) VALUES (?1, ?2, ?3, ?4, ?5, ?6, ?7)";

/// The query that reads every record, its seven values in column order.
pub const SELECT_STATEMENT: &'static str =
    "SELECT name, camber, camber_pos, max_thickness, max_thick_pos, x_coord, y_coord FROM airfoils";

/// The query that counts the tables named `airfoils`.
pub const COUNT_STATEMENT: &'static str =
    "SELECT COUNT(*) FROM sqlite_master WHERE type='table' AND name='airfoils'";

/// The query that reads the recorded definition of the table.
pub const DEFINITION_STATEMENT: &'static str =
    "SELECT sql FROM sqlite_master WHERE type='table' AND name='airfoils'";

/// The definition that the store records for the table of the catalog.
pub open spec fn expected_definition() -> Seq<char> {
    CREATE_HEAD@ + TABLE_BODY@
}

/// The statement that creates the table of the catalog.
pub open spec fn creation_statement() -> Seq<char> {
    CREATE_HEAD@ + CREATE_GUARD@ + TABLE_BODY@
}

/// Whether a recorded definition is the expected one, white space at
/// either end set aside.
pub open spec fn definition_accepted(recorded: Seq<char>) -> bool {
    trimmed(recorded) == trimmed(expected_definition())
}

/// Why the store did not do what it was asked.
#[derive(Clone, Copy, Debug, PartialEq, Eq, Structural)]
pub enum Fault {
    /// A constraint of the table forbids the change.
    Constraint,
    /// Anything else: the store cannot be opened, read or written.
    Other,
}

/// What the store answered.
#[derive(Debug)]
pub enum StoreReply {
    /// The request was carried out and has nothing to report.
    Executed,
    /// The number that a counting query found.
    Count(i64),
    /// The text that a query found.
    Text(String),
    /// The request failed.
    Failed(Fault),
}

/// A reply with its text as a sequence of characters.
pub enum ReplyView {
    Executed,
    Count(i64),
    Text(Seq<char>),
    Failed(Fault),
}

impl View for StoreReply {
    type V = ReplyView;

    open spec fn view(&self) -> ReplyView {
        match *self {
            StoreReply::Executed => ReplyView::Executed,
            StoreReply::Count(n) => ReplyView::Count(n),
            StoreReply::Text(text) => ReplyView::Text(text@),
            StoreReply::Failed(fault) => ReplyView::Failed(fault),
        }
    }
}

/// A step of the procedure: a request to the store, or how it ended.
#[derive(Clone, Copy, Debug, PartialEq, Eq, Structural)]
pub enum SchemaStep {
    /// Open the store.
    OpenStore,
    /// Count the tables named `airfoils`.
    CountTables,
    /// Execute the statement that creates the table.
    CreateTable,
    /// Read the recorded definition of the table.
    ReadDefinition,
    /// The table is there and is the expected one.
    Accepted,
    /// The procedure failed.
    Refused(AirfoilError),
}

/// The step that follows a step, given the store's answer to it.
///
/// A store that cannot be opened ends the procedure. A count that is not
/// known, or is zero, means that the table is missing and has to be
/// created; a failed creation ends the procedure. A table that exists is
/// accepted when its recorded definition is the expected one, and refused
/// as a mismatch when it is another or cannot be read. A step that ended
/// the procedure stays.
pub open spec fn schema_transition(step: SchemaStep, reply: ReplyView) -> SchemaStep {
    match step {
        SchemaStep::OpenStore => match reply {
            ReplyView::Executed => SchemaStep::CountTables,
            _ => SchemaStep::Refused(AirfoilError::IoError),
        },
        SchemaStep::CountTables => match reply {
            ReplyView::Count(n) => if n != 0 {
                SchemaStep::ReadDefinition
            } else {
                SchemaStep::CreateTable
            },
            _ => SchemaStep::CreateTable,
        },
        SchemaStep::CreateTable => match reply {
            ReplyView::Executed => SchemaStep::Accepted,
            _ => SchemaStep::Refused(AirfoilError::IoError),
        },
        SchemaStep::ReadDefinition => match reply {
            ReplyView::Text(recorded) => if definition_accepted(recorded) {
                SchemaStep::Accepted
            } else {
                SchemaStep::Refused(AirfoilError::SchemaMismatch)
            },
            _ => SchemaStep::Refused(AirfoilError::SchemaMismatch),
        },
        SchemaStep::Accepted => SchemaStep::Accepted,
        SchemaStep::Refused(e) => SchemaStep::Refused(e),
    }
}

/// Whether a step ends the procedure.
pub open spec fn is_final_step(step: SchemaStep) -> bool {
    step is Accepted || step is Refused
}

/// A store that works, seen as the definition it records for the table
/// named `airfoils`, if it has one: what it answers to a request.
pub open spec fn model_reply(table: Option<Seq<char>>, step: SchemaStep) -> ReplyView {
    match step {
        SchemaStep::CountTables => ReplyView::Count(
            if table is Some {
                1
            } else {
                0
            },
        ),
        SchemaStep::ReadDefinition => match table {
            Some(recorded) => ReplyView::Text(recorded),
            None => ReplyView::Failed(Fault::Other),
        },
        _ => ReplyView::Executed,
    }
}

/// What a request leaves in a store that works: creation records the
/// expected definition where there was no table, and nothing else changes
/// anything.
pub open spec fn model_effect(table: Option<Seq<char>>, step: SchemaStep) -> Option<Seq<char>> {
    match step {
        SchemaStep::CreateTable => if table is None {
            Some(expected_definition())
        } else {
            table
        },
        _ => table,
    }
}

/// The procedure run against a store that works, for at most `budget`
/// requests: the store afterwards and the step reached.
pub open spec fn run_against_model(table: Option<Seq<char>>, step: SchemaStep, budget: nat) -> (
    Option<Seq<char>>,
    SchemaStep,
)
    decreases budget,
{
    if budget == 0 || is_final_step(step) {
        (table, step)
    } else {
        run_against_model(
            model_effect(table, step),
            schema_transition(step, model_reply(table, step)),
            (budget - 1) as nat,
        )
    }
}

/// The whole procedure against a store that works. Three requests are the
/// most it ever makes.
pub open spec fn ensure_schema_model(table: Option<Seq<char>>) -> (Option<Seq<char>>, SchemaStep) {
    run_against_model(table, SchemaStep::OpenStore, 3)
}

/// The definition that the store records for the table of the catalog.
pub fn table_definition() -> (text: String)
    ensures
        text@ == expected_definition(),
{
    let mut text = CREATE_HEAD.to_owned();
    text.append(TABLE_BODY);
    text
}

/// The statement that creates the table of the catalog.
pub fn create_statement() -> (text: String)
    ensures
        text@ == creation_statement(),
{
    let mut text = CREATE_HEAD.to_owned();
    text.append(CREATE_GUARD);
    text.append(TABLE_BODY);
    text
}

/// Whether a recorded definition is the expected one.
pub fn definition_matches(recorded: &str) -> (accepted: bool)
    ensures
        accepted == definition_accepted(recorded@),
{
    let expected = table_definition();
    same_when_trimmed(recorded, expected.as_str())
}

/// The step that the procedure begins with.
pub fn first_schema_step() -> (step: SchemaStep)
    ensures
        step == SchemaStep::OpenStore,
{
    SchemaStep::OpenStore
}

/// One step of making sure of the table: the step that follows `step`,
/// given the store's answer to it.
pub fn create_database(step: SchemaStep, reply: &StoreReply) -> (next: SchemaStep)
    ensures
        next == schema_transition(step, reply@),
{
    match step {
        SchemaStep::OpenStore => match reply {
            StoreReply::Executed => SchemaStep::CountTables,
            _ => SchemaStep::Refused(AirfoilError::IoError),
        },
        SchemaStep::CountTables => match reply {
            StoreReply::Count(n) => if *n != 0 {
                SchemaStep::ReadDefinition
            } else {
                SchemaStep::CreateTable
            },
            _ => SchemaStep::CreateTable,
        },
        SchemaStep::CreateTable => match reply {
            StoreReply::Executed => SchemaStep::Accepted,
            _ => SchemaStep::Refused(AirfoilError::IoError),
        },
        SchemaStep::ReadDefinition => match reply {
            StoreReply::Text(recorded) => if definition_matches(recorded.as_str()) {
                SchemaStep::Accepted
            } else {
                SchemaStep::Refused(AirfoilError::SchemaMismatch)
            },
            _ => SchemaStep::Refused(AirfoilError::SchemaMismatch),
        },
        SchemaStep::Accepted => SchemaStep::Accepted,
        SchemaStep::Refused(e) => SchemaStep::Refused(e),
    }
}

/// What the procedure reports once it has ended.
pub fn schema_result(step: SchemaStep) -> (result: Option<Result<(), AirfoilError>>)
    ensures
        result == match step {
            SchemaStep::Accepted => Some(Ok::<(), AirfoilError>(())),
            SchemaStep::Refused(e) => Some(Err::<(), AirfoilError>(e)),
            _ => None::<Result<(), AirfoilError>>,
        },
{
    match step {
        SchemaStep::Accepted => Some(Ok(())),
        SchemaStep::Refused(e) => Some(Err(e)),
        _ => None,
    }
}

/// Against a store that works the procedure ends, and it ends in one of
/// three ways. Without a table it creates the expected one and accepts.
/// With the expected table it accepts and changes nothing. With any other
/// table named `airfoils` it reports a mismatch and changes nothing.
pub proof fn lemma_ensure_schema_outcomes(table: Option<Seq<char>>)
    ensures
        table is None ==> ensure_schema_model(table) == (
            Some(expected_definition()),
            SchemaStep::Accepted,
        ),
        table matches Some(recorded) && definition_accepted(recorded) ==> ensure_schema_model(table)
            == (table, SchemaStep::Accepted),
        table matches Some(recorded) && !definition_accepted(recorded) ==> ensure_schema_model(
            table,
        ) == (table, SchemaStep::Refused(AirfoilError::SchemaMismatch)),
{
    reveal_with_fuel(run_against_model, 4);
}

/// Making sure twice is the same as making sure once: a second run right
/// after a first one ends as the first did and leaves the table as the
/// first left it. Where the store has no table named `airfoils`, or has
/// the expected one, neither run fails.
pub proof fn lemma_ensure_schema_idempotent(table: Option<Seq<char>>)
    ensures
        ensure_schema_model(ensure_schema_model(table).0) == ensure_schema_model(table),
        (table matches Some(recorded) ==> definition_accepted(recorded)) ==> ensure_schema_model(
            table,
        ).1 == SchemaStep::Accepted,
{
    lemma_ensure_schema_outcomes(table);
    lemma_ensure_schema_outcomes(ensure_schema_model(table).0);
}

} // verus!
