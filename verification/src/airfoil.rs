//! The airfoil record.

use vstd::prelude::*;
use crate::binary64::Binary64;
use crate::dat::{base_name, record_name};
use crate::error::AirfoilError;
use crate::geometry::{
    calculate_airfoil_characteristics,
    characteristics_of,
    geometry_valid,
    Characteristics,
};

verus! {

/// An airfoil: its name, its four summary values in percent of chord, and
/// the points of its outline as two sequences of equal length.
#[derive(Debug)]
pub struct Airfoil {
    pub name: String,
    pub camber: Binary64,
    pub camber_pos: Binary64,
    pub max_thickness: Binary64,
    pub max_thick_pos: Binary64,
    pub x_coord: Vec<Binary64>,
    pub y_coord: Vec<Binary64>,
}

/// An airfoil with its name and coordinates as sequences.
pub struct AirfoilView {
    pub name: Seq<char>,
    pub camber: Binary64,
    pub camber_pos: Binary64,
    pub max_thickness: Binary64,
    pub max_thick_pos: Binary64,
    pub x_coord: Seq<Binary64>,
    pub y_coord: Seq<Binary64>,
}

impl AirfoilView {
    /// Whether the record has as many abscissas as ordinates, as a record
    /// made from the points of an outline has.
    pub open spec fn well_formed(self) -> bool {
        self.x_coord.len() == self.y_coord.len()
    }
}

impl View for Airfoil {
    type V = AirfoilView;

    open spec fn view(&self) -> AirfoilView {
        AirfoilView {
            name: self.name@,
            camber: self.camber,
            camber_pos: self.camber_pos,
            max_thickness: self.max_thickness,
            max_thick_pos: self.max_thick_pos,
            x_coord: self.x_coord@,
            y_coord: self.y_coord@,
        }
    }
}

/// The abscissas of the points of an outline.
pub open spec fn abscissas(outline: Seq<(Binary64, Binary64)>) -> Seq<Binary64> {
    Seq::new(outline.len(), |i: int| outline[i].0)
}

/// The ordinates of the points of an outline.
pub open spec fn ordinates(outline: Seq<(Binary64, Binary64)>) -> Seq<Binary64> {
    Seq::new(outline.len(), |i: int| outline[i].1)
}

/// The record of an outline under a name.
pub open spec fn airfoil_of(name: Seq<char>, outline: Seq<(Binary64, Binary64)>) -> AirfoilView {
    let values = characteristics_of(outline);
    AirfoilView {
        name,
        camber: values.camber,
        camber_pos: values.camber_pos,
        max_thickness: values.max_thickness,
        max_thick_pos: values.max_thick_pos,
        x_coord: abscissas(outline),
        y_coord: ordinates(outline),
    }
}

impl Airfoil {
    /// The record of an outline under a name.
    pub fn from_coordinates(name: String, coordinates: &Vec<(Binary64, Binary64)>) -> (made: Result<
        Airfoil,
        AirfoilError,
    >)
        ensures
            match made {
                Ok(airfoil) => {
                    &&& geometry_valid(coordinates@)
                    &&& airfoil@ == airfoil_of(name@, coordinates@)
                    &&& airfoil@.well_formed()
                },
                Err(e) => !geometry_valid(coordinates@) && e == AirfoilError::InvalidGeometry,
            },
    {
        let values: Characteristics = calculate_airfoil_characteristics(coordinates)?;
        let n: usize = coordinates.len();
        let mut x_coord: Vec<Binary64> = Vec::new();
        let mut y_coord: Vec<Binary64> = Vec::new();
        let mut i: usize = 0;
        while i < n
            invariant
                i <= n == coordinates.len(),
                x_coord.len() == i,
                y_coord.len() == i,
                forall|j: int| 0 <= j < i ==> #[trigger] x_coord[j] == coordinates[j].0,
                forall|j: int| 0 <= j < i ==> #[trigger] y_coord[j] == coordinates[j].1,
            decreases n - i,
        {
            x_coord.push(coordinates[i].0);
            y_coord.push(coordinates[i].1);
            i += 1;
        }
        proof {
            assert(x_coord@ =~= abscissas(coordinates@));
            assert(y_coord@ =~= ordinates(coordinates@));
        }
        Ok(
            Airfoil {
                name,
                camber: values.camber,
                camber_pos: values.camber_pos,
                max_thickness: values.max_thickness,
                max_thick_pos: values.max_thick_pos,
                x_coord,
                y_coord,
            },
        )
    }

    /// The record of the coordinate listing read from a file: the record
    /// of its points, named after the file.
    pub fn from_dat_file(file_path: &str, coordinates: &Vec<(Binary64, Binary64)>) -> (made: Result<
        Airfoil,
        AirfoilError,
    >)
        ensures
            match made {
                Ok(airfoil) => {
                    &&& geometry_valid(coordinates@)
                    &&& airfoil@ == airfoil_of(base_name(file_path@), coordinates@)
                    &&& airfoil@.well_formed()
                },
                Err(e) => !geometry_valid(coordinates@) && e == AirfoilError::InvalidGeometry,
            },
    {
        Airfoil::from_coordinates(record_name(file_path), coordinates)
    }
}

} // verus!
