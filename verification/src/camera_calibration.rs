//! The intrinsic model of one physical camera.
//!
//! Only the OpenCV-style intrinsic model in its version "2" is understood;
//! any other version is rejected outright, never parsed on a best effort.
//! The coefficients are kept as validated numeric tokens; the pixel counts
//! are parsed integers.

use vstd::prelude::*;
use crate::Error;
use crate::element::{text_at, Element};
use crate::text::str_eq;
use crate::utils::{float_field, float_text_at, text_field, uint_field, uint_value_at};

verus! {

/// A camera calibration.
#[derive(Clone, Debug, PartialEq)]
pub struct CameraCalibration {
    /// The name of the calibration.
    pub name: String,
    /// The horizontal principal point.
    pub cx: String,
    /// The vertical principal point.
    pub cy: String,
    /// The horizontal focal length.
    pub fx: String,
    /// The vertical focal length.
    pub fy: String,
    /// The first radial distortion coefficient.
    pub k1: String,
    /// The second radial distortion coefficient.
    pub k2: String,
    /// The third radial distortion coefficient.
    pub k3: String,
    /// The fourth radial distortion coefficient.
    pub k4: String,
    /// The first tangential distortion coefficient.
    pub p1: String,
    /// The second tangential distortion coefficient.
    pub p2: String,
    /// The upper horizontal field-of-view bound, as a tangent.
    pub tan_max_horz: String,
    /// The upper vertical field-of-view bound, as a tangent.
    pub tan_max_vert: String,
    /// The lower horizontal field-of-view bound, as a tangent.
    pub tan_min_horz: String,
    /// The lower vertical field-of-view bound, as a tangent.
    pub tan_min_vert: String,
    /// The image width in pixels.
    pub width: usize,
    /// The image height in pixels.
    pub height: usize,
}

/// What a camera calibration holds, seen through views.
pub ghost struct CameraCalibrationView {
    /// The name of the calibration.
    pub name: Seq<char>,
    /// The horizontal principal point.
    pub cx: Seq<char>,
    /// The vertical principal point.
    pub cy: Seq<char>,
    /// The horizontal focal length.
    pub fx: Seq<char>,
    /// The vertical focal length.
    pub fy: Seq<char>,
    /// The first radial distortion coefficient.
    pub k1: Seq<char>,
    /// The second radial distortion coefficient.
    pub k2: Seq<char>,
    /// The third radial distortion coefficient.
    pub k3: Seq<char>,
    /// The fourth radial distortion coefficient.
    pub k4: Seq<char>,
    /// The first tangential distortion coefficient.
    pub p1: Seq<char>,
    /// The second tangential distortion coefficient.
    pub p2: Seq<char>,
    /// The upper horizontal field-of-view bound, as a tangent.
    pub tan_max_horz: Seq<char>,
    /// The upper vertical field-of-view bound, as a tangent.
    pub tan_max_vert: Seq<char>,
    /// The lower horizontal field-of-view bound, as a tangent.
    pub tan_min_horz: Seq<char>,
    /// The lower vertical field-of-view bound, as a tangent.
    pub tan_min_vert: Seq<char>,
    /// The image width in pixels.
    pub width: int,
    /// The image height in pixels.
    pub height: int,
}

impl View for CameraCalibration {
    type V = CameraCalibrationView;

    open spec fn view(&self) -> CameraCalibrationView {
        CameraCalibrationView {
            name: self.name@,
            cx: self.cx@,
            cy: self.cy@,
            fx: self.fx@,
            fy: self.fy@,
            k1: self.k1@,
            k2: self.k2@,
            k3: self.k3@,
            k4: self.k4@,
            p1: self.p1@,
            p2: self.p2@,
            tan_max_horz: self.tan_max_horz@,
            tan_max_vert: self.tan_max_vert@,
            tan_min_horz: self.tan_min_horz@,
            tan_min_vert: self.tan_min_vert@,
            width: self.width as int,
            height: self.height as int,
        }
    }
}

/// A version "2" element with every coefficient a numeric token and the
/// pixel counts unsigned integers.
pub open spec fn camera_calibration_fields_ok(e: Element) -> bool {
    &&& text_at(e, "version"@) == Some("2"@)
    &&& text_at(e, "name"@) is Some
    &&& float_text_at(e, "internal_opencv/cx"@) is Some
    &&& float_text_at(e, "internal_opencv/cy"@) is Some
    &&& float_text_at(e, "internal_opencv/fx"@) is Some
    &&& float_text_at(e, "internal_opencv/fy"@) is Some
    &&& float_text_at(e, "internal_opencv/k1"@) is Some
    &&& float_text_at(e, "internal_opencv/k2"@) is Some
    &&& float_text_at(e, "internal_opencv/k3"@) is Some
    &&& float_text_at(e, "internal_opencv/k4"@) is Some
    &&& float_text_at(e, "internal_opencv/p1"@) is Some
    &&& float_text_at(e, "internal_opencv/p2"@) is Some
    &&& float_text_at(e, "angle_extents/tan_max_horz"@) is Some
    &&& float_text_at(e, "angle_extents/tan_max_vert"@) is Some
    &&& float_text_at(e, "angle_extents/tan_min_horz"@) is Some
    &&& float_text_at(e, "angle_extents/tan_min_vert"@) is Some
    &&& uint_value_at(e, "intrinsic_opencv/nx"@) is Some
    &&& uint_value_at(e, "intrinsic_opencv/ny"@) is Some
}

/// What parsing a camera calibration element yields.
pub open spec fn spec_parse_camera_calibration(e: Element) -> Option<CameraCalibrationView> {
    if camera_calibration_fields_ok(e) {
        Some(
            CameraCalibrationView {
                name: text_at(e, "name"@)->Some_0,
                cx: float_text_at(e, "internal_opencv/cx"@)->Some_0,
                cy: float_text_at(e, "internal_opencv/cy"@)->Some_0,
                fx: float_text_at(e, "internal_opencv/fx"@)->Some_0,
                fy: float_text_at(e, "internal_opencv/fy"@)->Some_0,
                k1: float_text_at(e, "internal_opencv/k1"@)->Some_0,
                k2: float_text_at(e, "internal_opencv/k2"@)->Some_0,
                k3: float_text_at(e, "internal_opencv/k3"@)->Some_0,
                k4: float_text_at(e, "internal_opencv/k4"@)->Some_0,
                p1: float_text_at(e, "internal_opencv/p1"@)->Some_0,
                p2: float_text_at(e, "internal_opencv/p2"@)->Some_0,
                tan_max_horz: float_text_at(e, "angle_extents/tan_max_horz"@)->Some_0,
                tan_max_vert: float_text_at(e, "angle_extents/tan_max_vert"@)->Some_0,
                tan_min_horz: float_text_at(e, "angle_extents/tan_min_horz"@)->Some_0,
                tan_min_vert: float_text_at(e, "angle_extents/tan_min_vert"@)->Some_0,
                width: uint_value_at(e, "intrinsic_opencv/nx"@)->Some_0,
                height: uint_value_at(e, "intrinsic_opencv/ny"@)->Some_0,
            },
        )
    } else {
        None
    }
}

impl CameraCalibration {
    /// Reads a camera calibration from its element, rejecting any version
    /// other than "2".
    pub fn from_element(element: &Element) -> (r: Result<CameraCalibration, Error>)
        ensures
            r matches Ok(c) ==> spec_parse_camera_calibration(*element) == Some(c@),
            r is Ok <==> spec_parse_camera_calibration(*element) is Some,
            r matches Err(e) ==> crate::is_load_error(e),
            r matches Err(e) ==> (e matches Error::CameraCalibrationVersion(v) ==> text_at(
                *element,
                "version"@,
            ) == Some(v@)),
    {
        let version = text_field(element, "version")?;
        if !str_eq(version.as_str(), "2") {
            return Err(Error::CameraCalibrationVersion(version));
        }
        Ok(
            CameraCalibration {
                name: text_field(element, "name")?,
                cx: float_field(element, "internal_opencv/cx")?,
                cy: float_field(element, "internal_opencv/cy")?,
                fx: float_field(element, "internal_opencv/fx")?,
                fy: float_field(element, "internal_opencv/fy")?,
                k1: float_field(element, "internal_opencv/k1")?,
                k2: float_field(element, "internal_opencv/k2")?,
                k3: float_field(element, "internal_opencv/k3")?,
                k4: float_field(element, "internal_opencv/k4")?,
                p1: float_field(element, "internal_opencv/p1")?,
                p2: float_field(element, "internal_opencv/p2")?,
                tan_max_horz: float_field(element, "angle_extents/tan_max_horz")?,
                tan_max_vert: float_field(element, "angle_extents/tan_max_vert")?,
                tan_min_horz: float_field(element, "angle_extents/tan_min_horz")?,
                tan_min_vert: float_field(element, "angle_extents/tan_min_vert")?,
                width: uint_field(element, "intrinsic_opencv/nx")?,
                height: uint_field(element, "intrinsic_opencv/ny")?,
            },
        )
    }
}

} // verus!
