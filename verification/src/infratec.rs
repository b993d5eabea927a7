//! Headers of thermal-camera image exports.
//!
//! A thermal image export opens with a `[Settings]` line, continues with
//! `key=value` settings lines, and hands over to the pixel rows after a
//! `[Data]` line.  Only the image size and the format version are read;
//! unknown settings are skipped.

use vstd::prelude::*;
use crate::Error;
use crate::text::{split, split_seq, str_eq, strs_view};
use crate::utils::{is_uint_literal, parse_usize, uint_value};

verus! {

/// The header of a thermal image export.
#[derive(Clone, Copy, Debug, PartialEq, Eq, Structural)]
pub struct Header {
    /// The format version.
    pub version: u8,
    /// The image width in pixels.
    pub width: usize,
    /// The image height in pixels.
    pub height: usize,
}

/// What a header holds, seen through views.
#[verifier::ext_equal]
pub ghost struct HeaderView {
    /// The format version.
    pub version: int,
    /// The image width in pixels.
    pub width: int,
    /// The image height in pixels.
    pub height: int,
}

impl View for Header {
    type V = HeaderView;

    open spec fn view(&self) -> HeaderView {
        HeaderView {
            version: self.version as int,
            width: self.width as int,
            height: self.height as int,
        }
    }
}

/// One settings line updates the header when its key is known, provided its
/// value is an unsigned integer that fits the field.
pub open spec fn header_line_ok(parts: Seq<Seq<char>>, acc: HeaderView) -> Option<HeaderView> {
    if parts[0] == "ImageHeight"@ {
        if is_uint_literal(parts[1]) && uint_value(parts[1]) <= usize::MAX {
            Some(HeaderView { height: uint_value(parts[1]), ..acc })
        } else {
            None
        }
    } else if parts[0] == "ImageWidth"@ {
        if is_uint_literal(parts[1]) && uint_value(parts[1]) <= usize::MAX {
            Some(HeaderView { width: uint_value(parts[1]), ..acc })
        } else {
            None
        }
    } else if parts[0] == "Version"@ {
        if is_uint_literal(parts[1]) && uint_value(parts[1]) <= u8::MAX {
            Some(HeaderView { version: uint_value(parts[1]), ..acc })
        } else {
            None
        }
    } else {
        Some(acc)
    }
}

/// The header read from the lines at or after position `i`, together with
/// the position of the first line after `[Data]`.
pub open spec fn spec_header_scan(lines: Seq<Seq<char>>, i: int, acc: HeaderView) -> Option<
    (HeaderView, int),
>
    decreases lines.len() - i when 0 <= i
{
    if i >= lines.len() {
        None
    } else if lines[i] == "[Data]"@ {
        Some((acc, i + 1))
    } else if lines[i].len() == 0 {
        spec_header_scan(lines, i + 1, acc)
    } else {
        let parts = split_seq(lines[i], '=');
        if parts.len() != 2 {
            None
        } else {
            match header_line_ok(parts, acc) {
                Some(next) => spec_header_scan(lines, i + 1, next),
                None => None,
            }
        }
    }
}

/// The header read from the lines of an export: a `[Settings]` line, then
/// settings lines up to a `[Data]` line.
pub open spec fn spec_parse_header(lines: Seq<Seq<char>>) -> Option<(HeaderView, int)> {
    if lines.len() == 0 || lines[0] != "[Settings]"@ {
        None
    } else {
        spec_header_scan(lines, 1, HeaderView { version: 0, width: 0, height: 0 })
    }
}

impl Header {
    /// Reads the header from the lines of an export, returning it together
    /// with the position of the first pixel row.
    pub fn new(lines: &Vec<String>) -> (r: Result<(Header, usize), Error>)
        ensures
            r matches Ok(h) ==> spec_parse_header(strs_view(lines@)) == Some(
                (h.0@, h.1 as int),
            ),
            r is Ok <==> spec_parse_header(strs_view(lines@)) is Some,
            r matches Err(e) ==> e matches Error::ReadInfratec(t) || e matches Error::ParseInt(t),
    {
        let ghost views = strs_view(lines@);
        if lines.len() == 0 {
            return Err(Error::ReadInfratec("Unexpected EOF".to_owned()));
        }
        if !str_eq(lines[0].as_str(), "[Settings]") {
            let mut msg = "Invalid first line: ".to_owned();
            msg.append(lines[0].as_str());
            return Err(Error::ReadInfratec(msg));
        }
        let mut header = Header { version: 0, width: 0, height: 0 };
        let mut i: usize = 1;
        while i < lines.len()
            invariant
                1 <= i <= lines@.len(),
                views == strs_view(lines@),
                spec_parse_header(views) == spec_header_scan(views, i as int, header@),
            decreases lines@.len() - i,
        {
            let line = &lines[i];
            if str_eq(line.as_str(), "[Data]") {
                return Ok((header, i + 1));
            }
            if !line.as_str().is_empty() {
                let parts = split(line.as_str(), '=');
                proof {
                    assert(strs_view(parts@) == split_seq(views[i as int], '='));
                }
                if parts.len() != 2 {
                    let mut msg = "Invalid header line: ".to_owned();
                    msg.append(line.as_str());
                    return Err(Error::ReadInfratec(msg));
                }
                proof {
                    assert(strs_view(parts@)[0] == parts@[0]@);
                    assert(strs_view(parts@)[1] == parts@[1]@);
                }
                if str_eq(parts[0].as_str(), "ImageHeight") {
                    header.height = parse_usize(parts[1].as_str())?;
                } else if str_eq(parts[0].as_str(), "ImageWidth") {
                    header.width = parse_usize(parts[1].as_str())?;
                } else if str_eq(parts[0].as_str(), "Version") {
                    let v = parse_usize(parts[1].as_str())?;
                    if v > 255 {
                        return Err(Error::ParseInt(parts[1].clone()));
                    }
                    header.version = v as u8;
                }
            }
            i += 1;
        }
        Err(Error::ReadInfratec("Unexpected EOF".to_owned()))
    }
}

} // verus!
