//! Points tagged with the coordinate reference system they live in.
//!
//! A point carries its frame as a type parameter, so points of different
//! frames can never be mixed by accident: moving between frames goes only
//! through the named conversion operations, which take the project's
//! transform matrices.  The numeric component type is generic; the library
//! itself only builds, stores and hands back components.

use vstd::prelude::*;

verus! {

/// A marker trait for coordinate reference systems.
pub trait CoordinateReferenceSystem {
}

/// The GLobal Coordinate System.
#[derive(Clone, Copy, Debug, PartialEq, Eq, Structural)]
pub struct Glcs {
}

/// The PRoject Coordinate System.
#[derive(Clone, Copy, Debug, PartialEq, Eq, Structural)]
pub struct Prcs {
}

/// The Scanner's Own Coordinate System.
#[derive(Clone, Copy, Debug, PartialEq, Eq, Structural)]
pub struct Socs {
}

/// The CaMera's Coordinate System.
#[derive(Clone, Copy, Debug, PartialEq, Eq, Structural)]
pub struct Cmcs {
}

impl CoordinateReferenceSystem for Glcs {
}

impl CoordinateReferenceSystem for Prcs {
}

impl CoordinateReferenceSystem for Socs {
}

impl CoordinateReferenceSystem for Cmcs {
}

/// A three-dimensional point in the coordinate reference system `C`.
#[derive(Clone, Copy, Debug)]
pub struct Point<C: CoordinateReferenceSystem, T> {
    /// The coordinate reference system of the point.
    pub crs: C,
    /// The first component.
    pub x: T,
    /// The second component.
    pub y: T,
    /// The third component.
    pub z: T,
}

impl<T> Point<Glcs, T> {
    /// Returns a point in the global coordinate system.
    pub fn glcs(x: T, y: T, z: T) -> (p: Point<Glcs, T>)
        ensures
            p.x == x,
            p.y == y,
            p.z == z,
    {
        Point { crs: Glcs {  }, x, y, z }
    }
}

impl<T> Point<Prcs, T> {
    /// Returns a point in the project's coordinate system.
    pub fn prcs(x: T, y: T, z: T) -> (p: Point<Prcs, T>)
        ensures
            p.x == x,
            p.y == y,
            p.z == z,
    {
        Point { crs: Prcs {  }, x, y, z }
    }
}

impl<T> Point<Socs, T> {
    /// Returns a point in the scanner's own coordinate system.
    pub fn socs(x: T, y: T, z: T) -> (p: Point<Socs, T>)
        ensures
            p.x == x,
            p.y == y,
            p.z == z,
    {
        Point { crs: Socs {  }, x, y, z }
    }
}

impl<T> Point<Cmcs, T> {
    /// Returns a point in the camera's coordinate system.
    pub fn cmcs(x: T, y: T, z: T) -> (p: Point<Cmcs, T>)
        ensures
            p.x == x,
            p.y == y,
            p.z == z,
    {
        Point { crs: Cmcs {  }, x, y, z }
    }
}

} // verus!
