//! Read the metadata of a terrestrial LiDAR scanning project.
//!
//! A scanning project stores its calibrations, scan positions and per-image
//! poses in an XML file inside the project directory.  This library models
//! that file as a plain tree of named elements, parses the tree into a
//! registry of named camera calibrations, mount calibrations and scan
//! positions, resolves the symbolic references between them, and deduces
//! ownership of externally stored artifacts from conventional file paths.
//!
//! Matrix entries and calibration coefficients are kept as validated numeric
//! tokens: the registry checks their shape and hands them on unchanged, so
//! that the numeric pipeline downstream can parse them at its own precision.

use vstd::prelude::*;

pub mod camera;
pub mod camera_calibration;
pub mod dict;
pub mod element;
pub mod infratec;
pub mod mount_calibration;
pub mod point;
pub mod project;
pub mod scan;
pub mod scan_position;
pub mod text;
pub mod utils;

pub use camera::Camera;
pub use camera_calibration::CameraCalibration;
pub use element::Element;
pub use mount_calibration::MountCalibration;
pub use point::{Cmcs, CoordinateReferenceSystem, Glcs, Point, Prcs, Socs};
pub use project::Project;
pub use scan_position::ScanPosition;
pub use utils::Projective3;

verus! {

/// The reasons a project, a calibration or a path query can be rejected.
#[derive(Clone, Debug, PartialEq, Eq)]
pub enum Error {
    /// The camera calibration version is unsupported.
    CameraCalibrationVersion(String),
    /// Given a path and a scan position, could not find an image.
    ImageFromPath(String),
    /// There is no camera calibration with the given name.
    MissingCameraCalibration(String),
    /// A required camera setting is absent from a settings file.
    MissingCameraSetting(String),
    /// A requested element child does not exist: parent name, child name.
    MissingChild(String, String),
    /// There is no mount calibration with the given name.
    MissingMountCalibration(String),
    /// The named element does not have a noderef attribute.
    MissingNoderef(String),
    /// The named element does not have text, when text was required.
    NoElementText(String),
    /// The token cannot be read as a floating-point number.
    ParseFloat(String),
    /// The token cannot be read as an unsigned integer.
    ParseInt(String),
    /// The text does not hold a 4x4 projective matrix.
    ParseProjective3(String),
    /// The path is not a valid project path.
    ProjectPath(String),
    /// A header of image data is malformed.
    ReadInfratec(String),
    /// The scan position could not be found from the provided path.
    ScanPositionFromPath(String),
}

/// The errors that reading a value out of the project tree can produce:
/// a missing node or text, a malformed literal or matrix, a missing
/// reference attribute, or an unsupported calibration version.
pub open spec fn is_load_error(e: Error) -> bool {
    ||| e matches Error::CameraCalibrationVersion(_)
    ||| e matches Error::MissingChild(_, _)
    ||| e matches Error::MissingNoderef(_)
    ||| e matches Error::NoElementText(_)
    ||| e matches Error::ParseFloat(_)
    ||| e matches Error::ParseInt(_)
    ||| e matches Error::ParseProjective3(_)
}

} // verus!
