//! A camera calibration stored as a plain settings file.
//!
//! The file holds `key=value` lines.  Keys are matched without regard to
//! ASCII letter case; a line whose value is not a numeric token is skipped;
//! of several lines with the same key, the last wins.

use vstd::prelude::*;
use crate::Error;
use crate::text::{split, split_seq, strs_view};
use crate::utils::{is_float_literal, is_float_token, is_uint_literal, parse_usize, uint_value};

verus! {

/// A camera calibration from a settings file.
#[derive(Clone, Debug, PartialEq)]
pub struct Camera {
    /// The horizontal focal length.
    pub fx: String,
    /// The vertical focal length.
    pub fy: String,
    /// The horizontal principal point.
    pub cx: String,
    /// The vertical principal point.
    pub cy: String,
    /// The first radial distortion coefficient.
    pub k1: String,
    /// The second radial distortion coefficient.
    pub k2: String,
    /// The third radial distortion coefficient.
    pub k3: String,
    /// The fourth radial distortion coefficient.
    pub k4: String,
    /// The first tangential distortion coefficient.
    pub p1: String,
    /// The second tangential distortion coefficient.
    pub p2: String,
    /// The image width in pixels.
    pub nx: usize,
    /// The image height in pixels.
    pub ny: usize,
    /// The horizontal pixel pitch.
    pub dx: String,
    /// The vertical pixel pitch.
    pub dy: String,
}

/// What a camera calibration holds, seen through views.
#[verifier::ext_equal]
pub ghost struct CameraView {
    /// The horizontal focal length.
    pub fx: Seq<char>,
    /// The vertical focal length.
    pub fy: Seq<char>,
    /// The horizontal principal point.
    pub cx: Seq<char>,
    /// The vertical principal point.
    pub cy: Seq<char>,
    /// The first radial distortion coefficient.
    pub k1: Seq<char>,
    /// The second radial distortion coefficient.
    pub k2: Seq<char>,
    /// The third radial distortion coefficient.
    pub k3: Seq<char>,
    /// The fourth radial distortion coefficient.
    pub k4: Seq<char>,
    /// The first tangential distortion coefficient.
    pub p1: Seq<char>,
    /// The second tangential distortion coefficient.
    pub p2: Seq<char>,
    /// The image width in pixels.
    pub nx: int,
    /// The image height in pixels.
    pub ny: int,
    /// The horizontal pixel pitch.
    pub dx: Seq<char>,
    /// The vertical pixel pitch.
    pub dy: Seq<char>,
}

impl View for Camera {
    type V = CameraView;

    open spec fn view(&self) -> CameraView {
        CameraView {
            fx: self.fx@,
            fy: self.fy@,
            cx: self.cx@,
            cy: self.cy@,
            k1: self.k1@,
            k2: self.k2@,
            k3: self.k3@,
            k4: self.k4@,
            p1: self.p1@,
            p2: self.p2@,
            nx: self.nx as int,
            ny: self.ny as int,
            dx: self.dx@,
            dy: self.dy@,
        }
    }
}

/// The character equals the lower-case reference character, up to ASCII
/// letter case.
pub open spec fn ci_char(a: char, b: char) -> bool {
    a == b || ('a' <= b && b <= 'z' && a as int == b as int - 32)
}

/// The string equals the lower-case reference string, up to ASCII letter
/// case.
pub open spec fn ci_eq(a: Seq<char>, b: Seq<char>) -> bool {
    a.len() == b.len() && forall|i: int| 0 <= i < a.len() ==> ci_char(a[i], #[trigger] b[i])
}

/// The value of the last settings line carrying the key: the line splits
/// on `=` into the key (up to letter case) and a numeric token.
pub open spec fn setting_of(lines: Seq<Seq<char>>, key: Seq<char>) -> Option<Seq<char>>
    decreases lines.len(),
{
    if lines.len() == 0 {
        None
    } else {
        let parts = split_seq(lines.last(), '=');
        if parts.len() == 2 && is_float_literal(parts[1]) && ci_eq(parts[0], key) {
            Some(parts[1])
        } else {
            setting_of(lines.drop_last(), key)
        }
    }
}

/// Compares a string to a lower-case key, up to ASCII letter case.
fn ci_token_eq(a: &str, b: &str) -> (r: bool)
    ensures
        r == ci_eq(a@, b@),
{
    let na = a.unicode_len();
    let nb = b.unicode_len();
    if na != nb {
        return false;
    }
    let mut i: usize = 0;
    while i < na
        invariant
            i <= na,
            na == a@.len(),
            na == b@.len(),
            forall|k: int| 0 <= k < i ==> ci_char(a@[k], #[trigger] b@[k]),
        decreases na - i,
    {
        let c = a.get_char(i);
        let d = b.get_char(i);
        if !(c == d || ('a' <= d && d <= 'z' && c as u32 == d as u32 - 32)) {
            return false;
        }
        i += 1;
    }
    true
}

/// Finds the value of the last settings line carrying the key.
fn find_setting(lines: &Vec<String>, key: &str) -> (r: Option<String>)
    ensures
        match r {
            Some(t) => setting_of(strs_view(lines@), key@) == Some(t@),
            None => setting_of(strs_view(lines@), key@) is None,
        },
{
    let ghost views = strs_view(lines@);
    let mut i = lines.len();
    proof {
        assert(views.subrange(0, i as int) =~~= views);
    }
    while i > 0
        invariant
            i <= lines@.len(),
            views == strs_view(lines@),
            setting_of(views, key@) == setting_of(views.subrange(0, i as int), key@),
        decreases i,
    {
        proof {
            let cur = views.subrange(0, i as int);
            assert(cur.drop_last() =~= views.subrange(0, i - 1));
            assert(cur.last() == views[i - 1]);
        }
        let parts = split(lines[i - 1].as_str(), '=');
        proof {
            assert(strs_view(parts@) == split_seq(views[i - 1], '='));
        }
        if parts.len() == 2 {
            proof {
                assert(strs_view(parts@)[0] == parts@[0]@);
                assert(strs_view(parts@)[1] == parts@[1]@);
            }
            if is_float_token(parts[1].as_str()) && ci_token_eq(parts[0].as_str(), key) {
                return Some(parts[1].clone());
            }
        }
        i -= 1;
    }
    proof {
        assert(views.subrange(0, 0) =~~= Seq::<Seq<char>>::empty());
    }
    None
}

/// A numeric setting that is present.
pub open spec fn float_setting(lines: Seq<Seq<char>>, key: Seq<char>) -> bool {
    setting_of(lines, key) is Some
}

/// A setting that is present and holds an unsigned integer that fits.
pub open spec fn uint_setting(lines: Seq<Seq<char>>, key: Seq<char>) -> Option<int> {
    match setting_of(lines, key) {
        Some(t) => if is_uint_literal(t) && uint_value(t) <= usize::MAX {
            Some(uint_value(t))
        } else {
            None
        },
        None => None,
    }
}

/// What parsing a settings file yields.
pub open spec fn spec_parse_camera(lines: Seq<Seq<char>>) -> Option<CameraView> {
    if {
        &&& float_setting(lines, "fx"@)
        &&& float_setting(lines, "fy"@)
        &&& float_setting(lines, "cx"@)
        &&& float_setting(lines, "cy"@)
        &&& float_setting(lines, "k1"@)
        &&& float_setting(lines, "k2"@)
        &&& float_setting(lines, "k3"@)
        &&& float_setting(lines, "k4"@)
        &&& float_setting(lines, "p1"@)
        &&& float_setting(lines, "p2"@)
        &&& uint_setting(lines, "nx"@) is Some
        &&& uint_setting(lines, "ny"@) is Some
        &&& float_setting(lines, "dx"@)
        &&& float_setting(lines, "dy"@)
    } {
        Some(
            CameraView {
                fx: setting_of(lines, "fx"@)->Some_0,
                fy: setting_of(lines, "fy"@)->Some_0,
                cx: setting_of(lines, "cx"@)->Some_0,
                cy: setting_of(lines, "cy"@)->Some_0,
                k1: setting_of(lines, "k1"@)->Some_0,
                k2: setting_of(lines, "k2"@)->Some_0,
                k3: setting_of(lines, "k3"@)->Some_0,
                k4: setting_of(lines, "k4"@)->Some_0,
                p1: setting_of(lines, "p1"@)->Some_0,
                p2: setting_of(lines, "p2"@)->Some_0,
                nx: uint_setting(lines, "nx"@)->Some_0,
                ny: uint_setting(lines, "ny"@)->Some_0,
                dx: setting_of(lines, "dx"@)->Some_0,
                dy: setting_of(lines, "dy"@)->Some_0,
            },
        )
    } else {
        None
    }
}

impl Camera {
    /// Reads a camera calibration from the lines of a settings file.
    pub fn from_settings(lines: &Vec<String>) -> (r: Result<Camera, Error>)
        ensures
            r matches Ok(c) ==> spec_parse_camera(strs_view(lines@)) == Some(c@),
            r is Ok <==> spec_parse_camera(strs_view(lines@)) is Some,
            r matches Err(e) ==> e matches Error::MissingCameraSetting(t) || e matches Error::ParseInt(t),
    {
        let fx = Self::require(lines, "fx")?;
        let fy = Self::require(lines, "fy")?;
        let cx = Self::require(lines, "cx")?;
        let cy = Self::require(lines, "cy")?;
        let k1 = Self::require(lines, "k1")?;
        let k2 = Self::require(lines, "k2")?;
        let k3 = Self::require(lines, "k3")?;
        let k4 = Self::require(lines, "k4")?;
        let p1 = Self::require(lines, "p1")?;
        let p2 = Self::require(lines, "p2")?;
        let nx = parse_usize(Self::require(lines, "nx")?.as_str())?;
        let ny = parse_usize(Self::require(lines, "ny")?.as_str())?;
        let dx = Self::require(lines, "dx")?;
        let dy = Self::require(lines, "dy")?;
        Ok(Camera { fx, fy, cx, cy, k1, k2, k3, k4, p1, p2, nx, ny, dx, dy })
    }

    /// Reads a required setting, or rejects the file naming the setting.
    fn require(lines: &Vec<String>, key: &str) -> (r: Result<String, Error>)
        ensures
            r matches Ok(t) ==> setting_of(strs_view(lines@), key@) == Some(t@),
            r is Ok <==> setting_of(strs_view(lines@), key@) is Some,
            r matches Err(e) ==> e matches Error::MissingCameraSetting(t) && t@ == key@,
    {
        match find_setting(lines, key) {
            Some(t) => Ok(t),
            None => Err(Error::MissingCameraSetting(key.to_owned())),
        }
    }
}

} // verus!
