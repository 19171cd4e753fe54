//! Airfoil geometry metrics and the rules of the airfoil catalog.
//!
//! A coordinate listing is reduced to four summary values (maximum camber,
//! maximum thickness and the chordwise position of each), and the catalog
//! rules decide how a record is laid out in the store, when the store's
//! table is acceptable, and how a stored row becomes a record again.
//!
//! Binary64 numbers are carried as their bit patterns, so every rule in
//! this crate is a statement about integers, characters and sequences.

pub mod airfoil;
pub mod arithmetic;
pub mod binary64;
pub mod catalog;
pub mod codec;
pub mod dat;
pub mod error;
pub mod geometry;
pub mod rounding;
pub mod schema;
pub mod text;

pub use airfoil::Airfoil;
pub use binary64::{Binary64, Comparison};
pub use catalog::{
    add_airfoil_to_database, delete_database, insert_outcome, read_airfoil_from_database, ReadRow,
    StoredRow,
};
pub use error::AirfoilError;
pub use geometry::{calculate_airfoil_characteristics, Characteristics, Station};
pub use schema::{create_database, first_schema_step, Fault, SchemaStep, StoreReply};
