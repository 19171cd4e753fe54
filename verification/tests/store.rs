use airfoil_catalog::catalog::{
    add_airfoil_to_database, delete_database, insert_outcome, read_airfoil_from_database, ReadRow,
    StoredRow,
};
use airfoil_catalog::codec::split_fields;
use airfoil_catalog::schema::{
    create_database, create_statement, definition_matches, first_schema_step, schema_result,
    table_definition, Fault, SchemaStep, StoreReply, COUNT_STATEMENT, DEFINITION_STATEMENT,
    INSERT_STATEMENT, SELECT_STATEMENT,
};
use airfoil_catalog::{Airfoil, AirfoilError, Binary64};
use rusqlite::Connection;

fn number(x: f64) -> Binary64 {
    Binary64::from_bits(x.to_bits())
}

fn float(b: Binary64) -> f64 {
    f64::from_bits(b.to_bits())
}

fn fault(error: &rusqlite::Error) -> Fault {
    match error {
        rusqlite::Error::SqliteFailure(cause, _)
            if cause.code == rusqlite::ErrorCode::ConstraintViolation =>
        {
            Fault::Constraint
        }
        _ => Fault::Other,
    }
}

fn answer(conn: &Connection, step: SchemaStep) -> StoreReply {
    match step {
        SchemaStep::CountTables => {
            match conn.query_row(COUNT_STATEMENT, [], |row| row.get::<_, i64>(0)) {
                Ok(count) => StoreReply::Count(count),
                Err(e) => StoreReply::Failed(fault(&e)),
            }
        }
        SchemaStep::CreateTable => match conn.execute_batch(&create_statement()) {
            Ok(()) => StoreReply::Executed,
            Err(e) => StoreReply::Failed(fault(&e)),
        },
        SchemaStep::ReadDefinition => {
            match conn.query_row(DEFINITION_STATEMENT, [], |row| row.get::<_, String>(0)) {
                Ok(text) => StoreReply::Text(text),
                Err(e) => StoreReply::Failed(fault(&e)),
            }
        }
        _ => StoreReply::Executed,
    }
}

fn ensure_schema(conn: &Connection) -> Result<(), AirfoilError> {
    let mut step = first_schema_step();
    let mut requests = 0;
    loop {
        if let Some(result) = schema_result(step) {
            assert!(requests <= 3);
            return result;
        }
        let reply = answer(conn, step);
        requests += 1;
        step = create_database(step, &reply);
    }
}

fn recorded_definition(conn: &Connection) -> String {
    conn.query_row(DEFINITION_STATEMENT, [], |row| row.get(0)).unwrap()
}

fn tokens(values: &[Binary64]) -> Vec<String> {
    values.iter().map(|&b| float(b).to_string()).collect()
}

fn insert(conn: &Connection, airfoil: &Airfoil) -> Result<(), AirfoilError> {
    let row: StoredRow =
        add_airfoil_to_database(airfoil, &tokens(&airfoil.x_coord), &tokens(&airfoil.y_coord));
    let reply = match conn.execute(
        INSERT_STATEMENT,
        (
            &row.name,
            float(row.camber),
            float(row.camber_pos),
            float(row.max_thickness),
            float(row.max_thick_pos),
            &row.x_coord,
            &row.y_coord,
        ),
    ) {
        Ok(_) => StoreReply::Executed,
        Err(e) => StoreReply::Failed(fault(&e)),
    };
    insert_outcome(&reply)
}

fn readings(text: &str) -> Vec<Option<Binary64>> {
    split_fields(text)
        .iter()
        .map(|token| token.parse::<f64>().ok().map(number))
        .collect()
}

fn list_all(conn: &Connection) -> Result<Vec<Airfoil>, AirfoilError> {
    let mut statement = conn.prepare(SELECT_STATEMENT).unwrap();
    let mut rows = statement.query([]).unwrap();
    let mut read: Vec<ReadRow> = Vec::new();
    while let Some(row) = rows.next().unwrap() {
        let x_text: String = row.get(5).unwrap();
        let y_text: String = row.get(6).unwrap();
        read.push(ReadRow {
            name: row.get(0).unwrap(),
            camber: number(row.get(1).unwrap()),
            camber_pos: number(row.get(2).unwrap()),
            max_thickness: number(row.get(3).unwrap()),
            max_thick_pos: number(row.get(4).unwrap()),
            x_coord: readings(&x_text),
            y_coord: readings(&y_text),
        });
    }
    read_airfoil_from_database(&read)
}

fn fixture(name: &str) -> Airfoil {
    let points = [
        (1.0, 0.0),
        (0.75, 0.031415926535),
        (0.3, 0.1),
        (0.0, 1.0e-7),
        (0.25, -0.0333333333333333),
        (0.9, -0.02),
    ];
    let outline: Vec<(Binary64, Binary64)> =
        points.iter().map(|&(x, y)| (number(x), number(y))).collect();
    Airfoil::from_coordinates(name.to_string(), &outline).unwrap()
}

fn count_named(conn: &Connection, name: &str) -> i64 {
    conn.query_row("SELECT COUNT(*) FROM airfoils WHERE name = ?1", [name], |row| row.get(0))
        .unwrap()
}

#[test]
fn store_records_the_expected_definition() {
    let conn = Connection::open_in_memory().unwrap();
    conn.execute_batch(&create_statement()).unwrap();
    let recorded = recorded_definition(&conn);
    assert_eq!(recorded, table_definition());
    assert!(definition_matches(&recorded));
}

#[test]
fn table_definition_lists_the_seven_columns() {
    assert_eq!(
        table_definition(),
        "CREATE TABLE airfoils (\n            name TEXT PRIMARY KEY,\n            camber REAL,\n            camber_pos REAL,\n            max_thickness REAL,\n            max_thick_pos REAL,\n            x_coord TEXT,\n            y_coord TEXT\n        )"
    );
    assert!(create_statement().starts_with("CREATE TABLE IF NOT EXISTS airfoils ("));
}

#[test]
fn ensure_schema_creates_the_table() {
    let conn = Connection::open_in_memory().unwrap();
    assert_eq!(ensure_schema(&conn), Ok(()));
    assert_eq!(recorded_definition(&conn), table_definition());
}

#[test]
fn ensure_schema_twice_changes_nothing() {
    let conn = Connection::open_in_memory().unwrap();
    assert_eq!(ensure_schema(&conn), Ok(()));
    let first = recorded_definition(&conn);
    assert_eq!(ensure_schema(&conn), Ok(()));
    assert_eq!(recorded_definition(&conn), first);
    assert_eq!(ensure_schema(&conn), Ok(()));
    assert_eq!(recorded_definition(&conn), first);
}

#[test]
fn ensure_schema_keeps_the_records() {
    let conn = Connection::open_in_memory().unwrap();
    ensure_schema(&conn).unwrap();
    insert(&conn, &fixture("kept")).unwrap();
    assert_eq!(ensure_schema(&conn), Ok(()));
    assert_eq!(count_named(&conn, "kept"), 1);
}

#[test]
fn other_columns_are_a_schema_mismatch() {
    let conn = Connection::open_in_memory().unwrap();
    conn.execute_batch("CREATE TABLE airfoils (name TEXT PRIMARY KEY, camber REAL)")
        .unwrap();
    let before = recorded_definition(&conn);
    assert_eq!(ensure_schema(&conn), Err(AirfoilError::SchemaMismatch));
    assert_eq!(recorded_definition(&conn), before);
}

#[test]
fn same_columns_in_another_layout_are_a_schema_mismatch() {
    let conn = Connection::open_in_memory().unwrap();
    conn.execute_batch(
        "CREATE TABLE airfoils (name TEXT PRIMARY KEY, camber REAL, camber_pos REAL, max_thickness REAL, max_thick_pos REAL, x_coord TEXT, y_coord TEXT)",
    )
    .unwrap();
    assert_eq!(ensure_schema(&conn), Err(AirfoilError::SchemaMismatch));
}

#[test]
fn definition_is_compared_without_outer_white_space() {
    let padded = format!("\n   {}  \n", table_definition());
    assert!(definition_matches(&padded));
    assert!(!definition_matches(&table_definition().replace("REAL", "TEXT")));
    assert!(!definition_matches(""));
    assert!(!definition_matches(&create_statement()));
}

#[test]
fn schema_steps_follow_the_answers() {
    let io = SchemaStep::Refused(AirfoilError::IoError);
    let mismatch = SchemaStep::Refused(AirfoilError::SchemaMismatch);
    assert_eq!(first_schema_step(), SchemaStep::OpenStore);
    assert_eq!(create_database(SchemaStep::OpenStore, &StoreReply::Executed), SchemaStep::CountTables);
    assert_eq!(create_database(SchemaStep::OpenStore, &StoreReply::Failed(Fault::Other)), io);
    assert_eq!(create_database(SchemaStep::CountTables, &StoreReply::Count(0)), SchemaStep::CreateTable);
    assert_eq!(create_database(SchemaStep::CountTables, &StoreReply::Count(1)), SchemaStep::ReadDefinition);
    assert_eq!(
        create_database(SchemaStep::CountTables, &StoreReply::Failed(Fault::Other)),
        SchemaStep::CreateTable
    );
    assert_eq!(create_database(SchemaStep::CreateTable, &StoreReply::Executed), SchemaStep::Accepted);
    assert_eq!(create_database(SchemaStep::CreateTable, &StoreReply::Failed(Fault::Other)), io);
    assert_eq!(
        create_database(SchemaStep::ReadDefinition, &StoreReply::Text(table_definition())),
        SchemaStep::Accepted
    );
    assert_eq!(
        create_database(SchemaStep::ReadDefinition, &StoreReply::Text("CREATE TABLE airfoils (name)".to_string())),
        mismatch
    );
    assert_eq!(
        create_database(SchemaStep::ReadDefinition, &StoreReply::Failed(Fault::Other)),
        mismatch
    );
    assert_eq!(create_database(SchemaStep::Accepted, &StoreReply::Count(7)), SchemaStep::Accepted);
    assert_eq!(create_database(mismatch, &StoreReply::Executed), mismatch);
    assert_eq!(schema_result(SchemaStep::Accepted), Some(Ok(())));
    assert_eq!(schema_result(io), Some(Err(AirfoilError::IoError)));
    assert_eq!(schema_result(SchemaStep::CountTables), None);
}

#[test]
fn record_comes_back_as_it_went_in() {
    let conn = Connection::open_in_memory().unwrap();
    ensure_schema(&conn).unwrap();
    let airfoil = fixture("round trip");
    assert_eq!(insert(&conn, &airfoil), Ok(()));
    let listed = list_all(&conn).unwrap();
    assert_eq!(listed.len(), 1);
    let back = &listed[0];
    assert_eq!(back.name, airfoil.name);
    assert_eq!(back.camber, airfoil.camber);
    assert_eq!(back.camber_pos, airfoil.camber_pos);
    assert_eq!(back.max_thickness, airfoil.max_thickness);
    assert_eq!(back.max_thick_pos, airfoil.max_thick_pos);
    assert_eq!(back.x_coord, airfoil.x_coord);
    assert_eq!(back.y_coord, airfoil.y_coord);
}

#[test]
fn records_are_listed_in_the_order_of_insertion() {
    let conn = Connection::open_in_memory().unwrap();
    ensure_schema(&conn).unwrap();
    for name in ["first", "second", "third"] {
        insert(&conn, &fixture(name)).unwrap();
    }
    let names: Vec<String> = list_all(&conn).unwrap().into_iter().map(|a| a.name).collect();
    assert_eq!(names, vec!["first", "second", "third"]);
}

#[test]
fn second_record_of_a_name_is_a_duplicate() {
    let conn = Connection::open_in_memory().unwrap();
    ensure_schema(&conn).unwrap();
    assert_eq!(insert(&conn, &fixture("twice")), Ok(()));
    assert_eq!(insert(&conn, &fixture("twice")), Err(AirfoilError::DuplicateKey));
    assert_eq!(count_named(&conn, "twice"), 1);
    assert_eq!(list_all(&conn).unwrap().len(), 1);
}

#[test]
fn insert_without_a_table_is_an_io_error() {
    let conn = Connection::open_in_memory().unwrap();
    assert_eq!(insert(&conn, &fixture("nowhere")), Err(AirfoilError::IoError));
}

#[test]
fn insert_outcome_tells_the_faults_apart() {
    assert_eq!(insert_outcome(&StoreReply::Executed), Ok(()));
    assert_eq!(
        insert_outcome(&StoreReply::Failed(Fault::Constraint)),
        Err(AirfoilError::DuplicateKey)
    );
    assert_eq!(insert_outcome(&StoreReply::Failed(Fault::Other)), Err(AirfoilError::IoError));
    assert_eq!(insert_outcome(&StoreReply::Count(1)), Err(AirfoilError::IoError));
}

#[test]
fn row_holds_the_coordinates_as_comma_joined_text() {
    let airfoil = fixture("row");
    let row =
        add_airfoil_to_database(&airfoil, &tokens(&airfoil.x_coord), &tokens(&airfoil.y_coord));
    assert_eq!(row.name, "row");
    assert_eq!(row.camber, airfoil.camber);
    assert_eq!(row.max_thick_pos, airfoil.max_thick_pos);
    assert_eq!(row.x_coord, "1,0.75,0.3,0,0.25,0.9");
    assert_eq!(row.y_coord, "0,0.031415926535,0.1,0.0000001,-0.0333333333333333,-0.02");
}

#[test]
fn bad_token_spoils_the_whole_listing() {
    let conn = Connection::open_in_memory().unwrap();
    ensure_schema(&conn).unwrap();
    insert(&conn, &fixture("good")).unwrap();
    conn.execute(
        INSERT_STATEMENT,
        ("bad", 1.0, 2.0, 3.0, 4.0, "0.1,0.2", "0.1,abc"),
    )
    .unwrap();
    assert_eq!(list_all(&conn).err(), Some(AirfoilError::ParseError));
}

#[test]
fn record_without_points_does_not_come_back() {
    let conn = Connection::open_in_memory().unwrap();
    ensure_schema(&conn).unwrap();
    let empty = Airfoil::from_coordinates("empty".to_string(), &Vec::new()).unwrap();
    assert_eq!(insert(&conn, &empty), Ok(()));
    // The empty column text is one empty token, which is not a number.
    assert_eq!(list_all(&conn).err(), Some(AirfoilError::ParseError));
}

#[test]
fn read_rows_become_records() {
    let one = number(1.0);
    let row = |name: &str, x: Vec<Option<Binary64>>| ReadRow {
        name: name.to_string(),
        camber: number(1.5),
        camber_pos: number(2.5),
        max_thickness: number(3.5),
        max_thick_pos: number(4.5),
        x_coord: x,
        y_coord: vec![Some(one)],
    };
    let listed =
        read_airfoil_from_database(&vec![row("a", vec![Some(one)]), row("b", vec![])]).unwrap();
    assert_eq!(listed.len(), 2);
    assert_eq!(listed[0].name, "a");
    assert_eq!(float(listed[0].camber), 1.5);
    assert_eq!(float(listed[0].camber_pos), 2.5);
    assert_eq!(float(listed[0].max_thickness), 3.5);
    assert_eq!(float(listed[0].max_thick_pos), 4.5);
    assert_eq!(listed[0].x_coord, vec![one]);
    assert_eq!(listed[1].name, "b");
    assert_eq!(listed[1].x_coord, Vec::new());
    let spoiled = read_airfoil_from_database(&vec![row("a", vec![Some(one)]), row("b", vec![None])]);
    assert_eq!(spoiled.err(), Some(AirfoilError::ParseError));
    assert_eq!(read_airfoil_from_database(&Vec::new()).unwrap().len(), 0);
}

#[test]
fn removal_never_fails() {
    assert_eq!(delete_database(false, false), (Ok(()), false));
    assert_eq!(delete_database(true, true), (Ok(()), false));
    assert_eq!(delete_database(true, false), (Ok(()), true));
    assert_eq!(delete_database(false, true), (Ok(()), false));
}
