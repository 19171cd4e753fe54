//! Chordwise stations of an airfoil outline and the choice of a maximum.
//!
//! An outline is a listing of surface points that runs along the upper
//! surface and comes back along the lower one. Its first half is the upper
//! surface; the second half, read backwards, is the lower surface. A
//! station pairs the point of the upper surface at one index with the
//! point of the reversed lower surface at the same index.
//!
//! At each station the camber is the mean of the two ordinates and the
//! thickness is their difference. The camber of the outline is the
//! greatest camber of a station; its thickness is the absolute value of
//! the greatest thickness of a station, which is chosen by its signed
//! value. Both are given in percent of chord, with the abscissa of the
//! station where each was found.

use vstd::prelude::*;
use crate::arithmetic::{
    difference_of,
    half_of,
    hundredfold_of,
    lemma_doubling_keeps_order,
    lemma_hundredfold_keeps_sign,
    lemma_same_key_same_abs,
    lemma_sum_with_itself,
    lemma_sum_with_negation,
    lemma_zero_stays_zero,
    negation_of,
    signed_zero,
    sum_of,
};
use crate::binary64::Binary64;
use crate::error::AirfoilError;

verus! {

/// One chordwise station: the upper point's abscissa and the ordinates of
/// the two surfaces that are paired there.
#[derive(Clone, Copy, Debug, PartialEq, Eq, Structural)]
pub struct Station {
    pub x: Binary64,
    pub upper: Binary64,
    pub lower: Binary64,
}

/// The station at index `i` of an outline: the point at `i`, paired with
/// the point that is `i` places before the end.
pub open spec fn station_at(outline: Seq<(Binary64, Binary64)>, i: int) -> Station {
    Station {
        x: outline[i].0,
        upper: outline[i].1,
        lower: outline[outline.len() - 1 - i].1,
    }
}

/// The stations of an outline: one for each point of the upper half, which
/// is the first `len / 2` points.
pub open spec fn stations_of(outline: Seq<(Binary64, Binary64)>) -> Seq<Station> {
    Seq::new(outline.len() / 2, |i: int| station_at(outline, i))
}

/// Whether some value of the sequence is NaN.
pub open spec fn has_nan(values: Seq<Binary64>) -> bool {
    exists|i: int| 0 <= i < values.len() && (#[trigger] values[i]).spec_is_nan()
}

/// Whether `k` is the index of the first greatest value among the first
/// `n` values.
pub open spec fn is_first_maximum_of_prefix(values: Seq<Binary64>, n: int, k: int) -> bool {
    &&& 0 <= k < n <= values.len()
    &&& forall|j: int| 0 <= j < n ==> (#[trigger] values[j]).order_key() <= values[k].order_key()
    &&& forall|j: int| 0 <= j < k ==> (#[trigger] values[j]).order_key() < values[k].order_key()
}

/// Whether `k` is the index of the first greatest value of the sequence.
pub open spec fn is_first_maximum(values: Seq<Binary64>, k: int) -> bool {
    is_first_maximum_of_prefix(values, values.len() as int, k)
}

/// Splits an outline at its midpoint and pairs the upper half with the
/// reversed lower half.
pub fn pair_stations(outline: &Vec<(Binary64, Binary64)>) -> (stations: Vec<Station>)
    ensures
        stations@ == stations_of(outline@),
{
    let n: usize = outline.len();
    let half: usize = n / 2;
    let mut stations: Vec<Station> = Vec::new();
    let mut i: usize = 0;
    while i < half
        invariant
            n == outline.len(),
            half == n / 2,
            i <= half,
            stations.len() == i,
            forall|j: int| 0 <= j < i ==> #[trigger] stations[j] == station_at(outline@, j),
        decreases half - i,
    {
        let point = outline[i];
        let mirror = outline[n - 1 - i];
        stations.push(Station { x: point.0, upper: point.1, lower: mirror.1 });
        i += 1;
    }
    assert(stations@ =~= stations_of(outline@));
    stations
}

/// Finds the first greatest value of a sequence.
///
/// A sequence that holds a NaN has no greatest value and is refused. An
/// empty sequence has none either, which is no error. Of several equal
/// greatest values the first is chosen.
pub fn select_maximum(values: &Vec<Binary64>) -> (choice: Result<Option<usize>, AirfoilError>)
    ensures
        match choice {
            Ok(Some(k)) => !has_nan(values@) && is_first_maximum(values@, k as int),
            Ok(None) => values.len() == 0,
            Err(e) => has_nan(values@) && e == AirfoilError::InvalidGeometry,
        },
{
    let n: usize = values.len();
    if n == 0 {
        return Ok(None);
    }
    if values[0].is_nan() {
        return Err(AirfoilError::InvalidGeometry);
    }
    let mut best: usize = 0;
    let mut i: usize = 1;
    while i < n
        invariant
            n == values.len(),
            1 <= i <= n,
            forall|j: int| 0 <= j < i ==> !(#[trigger] values[j]).spec_is_nan(),
            is_first_maximum_of_prefix(values@, i as int, best as int),
        decreases n - i,
    {
        if values[i].is_nan() {
            return Err(AirfoilError::InvalidGeometry);
        }
        if values[i].exceeds(values[best]) {
            best = i;
        }
        i += 1;
    }
    Ok(Some(best))
}

/// A sequence without NaN that is not empty has exactly one first
/// greatest value.
pub proof fn lemma_first_maximum_unique(values: Seq<Binary64>, k: int, m: int)
    requires
        is_first_maximum(values, k),
        is_first_maximum(values, m),
    ensures
        k == m,
{
    if k < m {
        assert(values[k].order_key() < values[m].order_key());
    } else if m < k {
        assert(values[m].order_key() < values[k].order_key());
    }
}

/// The four summary values of an outline, in percent of chord.
#[derive(Clone, Copy, Debug, PartialEq, Eq, Structural)]
pub struct Characteristics {
    pub camber: Binary64,
    pub camber_pos: Binary64,
    pub max_thickness: Binary64,
    pub max_thick_pos: Binary64,
}

/// The camber at a station: the mean of the two ordinates.
pub open spec fn camber_at(station: Station) -> Binary64 {
    half_of(sum_of(station.upper, station.lower))
}

/// The thickness at a station: the upper ordinate less the lower one.
pub open spec fn thickness_at(station: Station) -> Binary64 {
    difference_of(station.upper, station.lower)
}

/// The camber at each station.
pub open spec fn cambers(stations: Seq<Station>) -> Seq<Binary64> {
    Seq::new(stations.len(), |i: int| camber_at(stations[i]))
}

/// The thickness at each station.
pub open spec fn thicknesses(stations: Seq<Station>) -> Seq<Binary64> {
    Seq::new(stations.len(), |i: int| thickness_at(stations[i]))
}

/// The index of the first greatest value of a sequence that has one.
pub open spec fn first_maximum(values: Seq<Binary64>) -> int {
    choose|k: int| is_first_maximum(values, k)
}

/// Whether the summary values of an outline can be found: no camber and
/// no thickness of a station is NaN.
pub open spec fn geometry_valid(outline: Seq<(Binary64, Binary64)>) -> bool {
    &&& !has_nan(cambers(stations_of(outline)))
    &&& !has_nan(thicknesses(stations_of(outline)))
}

/// The summary values of an outline. An outline without stations has
/// four zeros.
pub open spec fn characteristics_of(outline: Seq<(Binary64, Binary64)>) -> Characteristics {
    let stations = stations_of(outline);
    if stations.len() == 0 {
        Characteristics {
            camber: Binary64 { bits: 0 },
            camber_pos: Binary64 { bits: 0 },
            max_thickness: Binary64 { bits: 0 },
            max_thick_pos: Binary64 { bits: 0 },
        }
    } else {
        let c = first_maximum(cambers(stations));
        let t = first_maximum(thicknesses(stations));
        Characteristics {
            camber: hundredfold_of(camber_at(stations[c])),
            camber_pos: hundredfold_of(stations[c].x),
            max_thickness: hundredfold_of(thickness_at(stations[t]).spec_abs()),
            max_thick_pos: hundredfold_of(stations[t].x),
        }
    }
}

/// Finds the camber and the thickness of an outline, each with the
/// abscissa of its station, in percent of chord.
///
/// An outline of fewer than two points has no station and gives four
/// zeros. An outline with a station whose camber or thickness is NaN is
/// refused.
pub fn calculate_airfoil_characteristics(outline: &Vec<(Binary64, Binary64)>) -> (found: Result<
    Characteristics,
    AirfoilError,
>)
    ensures
        match found {
            Ok(values) => geometry_valid(outline@) && values == characteristics_of(outline@),
            Err(e) => !geometry_valid(outline@) && e == AirfoilError::InvalidGeometry,
        },
{
    let stations = pair_stations(outline);
    let n: usize = stations.len();
    let mut camber_list: Vec<Binary64> = Vec::new();
    let mut thickness_list: Vec<Binary64> = Vec::new();
    let mut i: usize = 0;
    while i < n
        invariant
            i <= n == stations.len(),
            camber_list.len() == i,
            thickness_list.len() == i,
            forall|j: int| 0 <= j < i ==> #[trigger] camber_list[j] == camber_at(stations[j]),
            forall|j: int| 0 <= j < i ==> #[trigger] thickness_list[j] == thickness_at(stations[j]),
        decreases n - i,
    {
        let station = stations[i];
        camber_list.push(station.upper.plus(station.lower).halve());
        thickness_list.push(station.upper.minus(station.lower));
        i += 1;
    }
    proof {
        assert(camber_list@ =~= cambers(stations@));
        assert(thickness_list@ =~= thicknesses(stations@));
    }
    let camber_choice = select_maximum(&camber_list)?;
    let thickness_choice = select_maximum(&thickness_list)?;
    match (camber_choice, thickness_choice) {
        (Some(c), Some(t)) => {
            proof {
                lemma_first_maximum_unique(
                    camber_list@,
                    c as int,
                    first_maximum(camber_list@),
                );
                lemma_first_maximum_unique(
                    thickness_list@,
                    t as int,
                    first_maximum(thickness_list@),
                );
            }
            Ok(
                Characteristics {
                    camber: camber_list[c].hundredfold(),
                    camber_pos: stations[c].x.hundredfold(),
                    max_thickness: thickness_list[t].abs().hundredfold(),
                    max_thick_pos: stations[t].x.hundredfold(),
                },
            )
        },
        _ => Ok(
            Characteristics {
                camber: Binary64 { bits: 0 },
                camber_pos: Binary64 { bits: 0 },
                max_thickness: Binary64 { bits: 0 },
                max_thick_pos: Binary64 { bits: 0 },
            },
        ),
    }
}

/// The upper ordinate of each station.
pub open spec fn upper_ordinates(stations: Seq<Station>) -> Seq<Binary64> {
    Seq::new(stations.len(), |i: int| stations[i].upper)
}

/// Whether an outline is symmetric about the chord: at each station the
/// upper ordinate is finite and the lower one is its negation.
pub open spec fn is_symmetric(outline: Seq<(Binary64, Binary64)>) -> bool {
    forall|i: int|
        0 <= i < stations_of(outline).len() ==> {
            let station = #[trigger] stations_of(outline)[i];
            station.upper.spec_is_finite() && station.lower == negation_of(station.upper)
        }
}

/// A sequence that is not empty has a first greatest value.
pub proof fn lemma_first_maximum_exists(values: Seq<Binary64>) -> (k: int)
    requires
        values.len() >= 1,
    ensures
        is_first_maximum(values, k),
        k == first_maximum(values),
{
    let k = lemma_first_maximum_of_prefix(values, values.len() as int);
    lemma_first_maximum_unique(values, k, first_maximum(values));
    k
}

proof fn lemma_first_maximum_of_prefix(values: Seq<Binary64>, n: int) -> (k: int)
    requires
        1 <= n <= values.len(),
    ensures
        is_first_maximum_of_prefix(values, n, k),
    decreases n,
{
    if n == 1 {
        0
    } else {
        let before = lemma_first_maximum_of_prefix(values, n - 1);
        if values[n - 1].order_key() > values[before].order_key() {
            n - 1
        } else {
            before
        }
    }
}

/// A symmetric outline has no camber, and its thickness is twice its
/// greatest upper ordinate, as an absolute value and in percent.
///
/// The outline must have a station. Its upper ordinates must be finite:
/// an infinite one has an infinite mirror image, and the mean of the two
/// is NaN.
pub proof fn lemma_symmetric_outline(outline: Seq<(Binary64, Binary64)>)
    requires
        stations_of(outline).len() >= 1,
        is_symmetric(outline),
    ensures
        geometry_valid(outline),
        characteristics_of(outline).camber == signed_zero(false),
        ({
            let uppers = upper_ordinates(stations_of(outline));
            let highest = uppers[first_maximum(uppers)];
            characteristics_of(outline).max_thickness == hundredfold_of(
                sum_of(highest, highest).spec_abs(),
            )
        }),
{
    let stations = stations_of(outline);
    let uppers = upper_ordinates(stations);
    let flat = cambers(stations);
    let thick = thicknesses(stations);
    lemma_zero_stays_zero();
    assert forall|i: int| 0 <= i < stations.len() implies (#[trigger] flat[i]) == signed_zero(
        false,
    ) by {
        lemma_sum_with_negation(stations[i].upper);
    }
    assert forall|i: int| 0 <= i < stations.len() implies (#[trigger] thick[i]) == sum_of(
        uppers[i],
        uppers[i],
    ) && !thick[i].spec_is_nan() by {
        lemma_sum_with_negation(stations[i].upper);
        lemma_sum_with_itself(stations[i].upper);
    }
    assert(is_first_maximum(flat, 0));
    lemma_first_maximum_unique(flat, 0, first_maximum(flat));
    let k = lemma_first_maximum_exists(uppers);
    let t = lemma_first_maximum_exists(thick);
    assert(thick[k].order_key() <= thick[t].order_key());
    assert(uppers[t].order_key() <= uppers[k].order_key());
    lemma_doubling_keeps_order(uppers[t], uppers[k]);
    lemma_same_key_same_abs(thick[t], thick[k]);
}

/// An outline without a station is in order and has four zeros.
pub proof fn lemma_no_station(outline: Seq<(Binary64, Binary64)>)
    requires
        outline.len() <= 1,
    ensures
        geometry_valid(outline),
        characteristics_of(outline) == (Characteristics {
            camber: signed_zero(false),
            camber_pos: signed_zero(false),
            max_thickness: signed_zero(false),
            max_thick_pos: signed_zero(false),
        }),
{
}

/// The summary values of an outline that is in order: the camber is a
/// number, and the thickness is a number that is not negative.
pub proof fn lemma_thickness_not_negative(outline: Seq<(Binary64, Binary64)>)
    requires
        geometry_valid(outline),
    ensures
        !characteristics_of(outline).camber.spec_is_nan(),
        !characteristics_of(outline).max_thickness.spec_is_nan(),
        !characteristics_of(outline).max_thickness.sign_negative(),
{
    let stations = stations_of(outline);
    if stations.len() > 0 {
        let c = lemma_first_maximum_exists(cambers(stations));
        let t = lemma_first_maximum_exists(thicknesses(stations));
        assert(!cambers(stations)[c].spec_is_nan());
        assert(!thicknesses(stations)[t].spec_is_nan());
        lemma_hundredfold_keeps_sign(camber_at(stations[c]));
        lemma_hundredfold_keeps_sign(thickness_at(stations[t]).spec_abs());
    }
}

} // verus!
