//! The fixed transform from a camera's mechanical mount to the scanner.

use vstd::prelude::*;
use crate::Error;
use crate::element::{Element, text_at};
use crate::utils::{parse_projective3, spec_parse_projective3, Projective3};

verus! {

/// A camera mount calibration.
#[derive(Clone, Debug, PartialEq)]
pub struct MountCalibration {
    /// The name of the calibration matrix.
    pub name: String,
    /// The calibration matrix.
    pub matrix: Projective3,
}

/// What a mount calibration holds, seen through views.
pub ghost struct MountCalibrationView {
    /// The name of the calibration matrix.
    pub name: Seq<char>,
    /// The 16 entry tokens of the matrix, column-major.
    pub matrix: Seq<Seq<char>>,
}

impl View for MountCalibration {
    type V = MountCalibrationView;

    open spec fn view(&self) -> MountCalibrationView {
        MountCalibrationView { name: self.name@, matrix: self.matrix@ }
    }
}

/// What parsing a mount calibration element yields: its `name` text and the
/// matrix parsed from its `matrix` text.
pub open spec fn spec_parse_mount_calibration(e: Element) -> Option<MountCalibrationView> {
    match (text_at(e, "name"@), text_at(e, "matrix"@)) {
        (Some(n), Some(m)) => match spec_parse_projective3(m) {
            Some(mat) => Some(MountCalibrationView { name: n, matrix: mat }),
            None => None,
        },
        _ => None,
    }
}

impl MountCalibration {
    /// Reads a mount calibration from its element.
    pub fn from_element(element: &Element) -> (r: Result<MountCalibration, Error>)
        ensures
            r matches Ok(mc) ==> spec_parse_mount_calibration(*element) == Some(mc@)
                && mc.matrix.well_formed(),
            r is Ok <==> spec_parse_mount_calibration(*element) is Some,
            r matches Err(e) ==> crate::is_load_error(e),
    {
        let name = element.child("name")?.as_str()?.to_owned();
        let matrix_text = element.child("matrix")?.as_str()?;
        let matrix = parse_projective3(matrix_text)?;
        Ok(MountCalibration { name, matrix })
    }
}

} // verus!
