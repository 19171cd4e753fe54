//! The failures that the library reports.

use vstd::prelude::*;

verus! {

/// Why an operation on geometry or on the catalog did not succeed.
#[derive(Clone, Copy, Debug, PartialEq, Eq, Structural)]
pub enum AirfoilError {
    /// A stored coordinate token is not a number.
    ParseError,
    /// The store holds a table `airfoils` whose definition is not the expected one.
    SchemaMismatch,
    /// A record with the same name is already in the catalog.
    DuplicateKey,
    /// The store could not be opened, read or written.
    IoError,
    /// A value that cannot be ordered reached the selection of a maximum.
    InvalidGeometry,
}

} // verus!
