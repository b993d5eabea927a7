//! Numeric tokens and the 4x4 projective transform they make up.
//!
//! The registry stores every matrix entry and calibration coefficient as a
//! validated numeric token.  A token is accepted exactly when it follows the
//! shape of a decimal floating-point literal: an optional sign, then either
//! one of the words `inf`, `infinity` or `nan` (in any letter case) or a
//! digit run with an optional dot, optional fraction digits and an optional
//! exponent.

use vstd::prelude::*;
use crate::Error;
use crate::element::{text_at, Element};
use crate::text::{strs_view, whitespace_tokens, ws_tokens};

verus! {

/// A decimal digit.
pub open spec fn is_digit(c: char) -> bool {
    '0' <= c && c <= '9'
}

/// The numeric value of a decimal digit.
pub open spec fn digit_val(c: char) -> int {
    c as int - '0' as int
}

/// The first position at or after `i` that does not hold a digit.
pub open spec fn digits_end(s: Seq<char>, i: int) -> int
    decreases s.len() - i when 0 <= i <= s.len()
{
    if i < s.len() && is_digit(s[i]) {
        digits_end(s, i + 1)
    } else {
        i
    }
}

/// The character equals the lower-case or the upper-case letter.
pub open spec fn eqi(c: char, lower: char, upper: char) -> bool {
    c == lower || c == upper
}

/// One of the words `inf`, `infinity` or `nan`, in any case, at position `i`.
pub open spec fn is_special_from(s: Seq<char>, i: int) -> bool {
    (s.len() - i == 3 && eqi(s[i], 'i', 'I') && eqi(s[i + 1], 'n', 'N') && eqi(s[i + 2], 'f', 'F'))
        || (s.len() - i == 8 && eqi(s[i], 'i', 'I') && eqi(s[i + 1], 'n', 'N') && eqi(
        s[i + 2],
        'f',
        'F',
    ) && eqi(s[i + 3], 'i', 'I') && eqi(s[i + 4], 'n', 'N') && eqi(s[i + 5], 'i', 'I') && eqi(
        s[i + 6],
        't',
        'T',
    ) && eqi(s[i + 7], 'y', 'Y')) || (s.len() - i == 3 && eqi(s[i], 'n', 'N') && eqi(
        s[i + 1],
        'a',
        'A',
    ) && eqi(s[i + 2], 'n', 'N'))
}

/// An exponent part at position `i`: `e` or `E`, an optional sign, then
/// digits running to the end of the token.
pub open spec fn is_exponent_from(s: Seq<char>, i: int) -> bool {
    i < s.len() && (s[i] == 'e' || s[i] == 'E') && {
        let j = if i + 1 < s.len() && (s[i + 1] == '+' || s[i + 1] == '-') {
            i + 2
        } else {
            i + 1
        };
        j < s.len() && digits_end(s, j) == s.len()
    }
}

/// A number at position `i`: digits, an optional dot with optional further
/// digits (at least one digit in all), then an optional exponent.
pub open spec fn is_number_from(s: Seq<char>, i: int) -> bool {
    let a = digits_end(s, i);
    let dot = a < s.len() && s[a] == '.';
    let b = if dot {
        digits_end(s, a + 1)
    } else {
        a
    };
    (a > i || (dot && b > a + 1)) && (b == s.len() || is_exponent_from(s, b))
}

/// A floating-point literal: an optional sign, then a special word or a
/// number.
pub open spec fn is_float_literal(s: Seq<char>) -> bool {
    let i: int = if s.len() > 0 && (s[0] == '+' || s[0] == '-') {
        1
    } else {
        0
    };
    is_special_from(s, i) || is_number_from(s, i)
}

/// An unsigned integer literal: an optional plus sign, then only digits.
pub open spec fn is_uint_literal(s: Seq<char>) -> bool {
    let i: int = if s.len() > 0 && s[0] == '+' {
        1
    } else {
        0
    };
    s.len() > i && digits_end(s, i) == s.len()
}

/// The value of a digit string, most significant digit first.
pub open spec fn dec_value(s: Seq<char>) -> int
    decreases s.len(),
{
    if s.len() == 0 {
        0
    } else {
        dec_value(s.drop_last()) * 10 + digit_val(s.last())
    }
}

/// The value of an unsigned integer literal, its optional sign dropped.
pub open spec fn uint_value(s: Seq<char>) -> int {
    if s.len() > 0 && s[0] == '+' {
        dec_value(s.drop_first())
    } else {
        dec_value(s)
    }
}

pub proof fn lemma_dec_value_nonneg(s: Seq<char>)
    requires
        forall|k: int| 0 <= k < s.len() ==> is_digit(s[k]),
    ensures
        dec_value(s) >= 0,
    decreases s.len(),
{
    if s.len() > 0 {
        lemma_dec_value_nonneg(s.drop_last());
    }
}

/// A digit string is worth at least any of its prefixes.
pub proof fn lemma_dec_value_prefix(s: Seq<char>, k: int)
    requires
        forall|m: int| 0 <= m < s.len() ==> is_digit(s[m]),
        0 <= k <= s.len(),
    ensures
        dec_value(s) >= dec_value(s.subrange(0, k)),
    decreases s.len() - k,
{
    if k < s.len() {
        lemma_dec_value_prefix(s, k + 1);
        let p = s.subrange(0, k + 1);
        assert(p.drop_last() =~= s.subrange(0, k));
        lemma_dec_value_nonneg(s.subrange(0, k));
    } else {
        assert(s.subrange(0, k) =~= s);
    }
}
/// A digit run that reaches the end of the string is digits throughout.
pub proof fn lemma_digits_end_all(s: Seq<char>, from: int)
    requires
        0 <= from <= s.len(),
        digits_end(s, from) == s.len(),
    ensures
        forall|k: int| from <= k < s.len() ==> is_digit(s[k]),
    decreases s.len() - from,
{
    if from < s.len() {
        if !is_digit(s[from]) {
            assert(digits_end(s, from) == from);
        } else {
            lemma_digits_end_all(s, from + 1);
        }
    }
}

/// Scans the digit run that starts at `from`.
fn scan_digits(s: &str, from: usize) -> (end: usize)
    requires
        from <= s@.len(),
    ensures
        end == digits_end(s@, from as int),
        from <= end <= s@.len(),
{
    let n = s.unicode_len();
    let mut j = from;
    while j < n
        invariant_except_break
            from <= j <= n,
            n == s@.len(),
            digits_end(s@, from as int) == digits_end(s@, j as int),
        ensures
            from <= j <= n,
            n == s@.len(),
            digits_end(s@, from as int) == j,
        decreases n - j,
    {
        let c = s.get_char(j);
        if !('0' <= c && c <= '9') {
            break;
        }
        j += 1;
    }
    j
}

/// Reads an unsigned integer, rejecting any other shape and any value that
/// does not fit.
pub fn parse_usize(s: &str) -> (r: Result<usize, Error>)
    ensures
        r matches Ok(v) ==> is_uint_literal(s@) && uint_value(s@) == v as int,
        r is Ok <==> is_uint_literal(s@) && uint_value(s@) <= usize::MAX,
        r matches Err(e) ==> e matches Error::ParseInt(t) && t@ == s@,
{
    let n = s.unicode_len();
    let start: usize = if n > 0 {
        let c = s.get_char(0);
        if c == '+' {
            1
        } else {
            0
        }
    } else {
        0
    };
    let end = scan_digits(s, start);
    if start >= n || end != n {
        return Err(Error::ParseInt(s.to_owned()));
    }
    let ghost digits = s@.subrange(start as int, n as int);
    proof {
        lemma_digits_end_all(s@, start as int);
        assert(forall|k: int| 0 <= k < digits.len() ==> digits[k] == s@[start + k]);
        if s@.len() > 0 && s@[0] == '+' {
            assert(s@.drop_first() =~= s@.subrange(1, n as int));
            assert(digits =~= s@.drop_first());
        } else {
            assert(digits =~= s@);
        }
        assert(uint_value(s@) == dec_value(digits));
        assert(is_uint_literal(s@));
    }
    let mut acc: usize = 0;
    let mut i = start;
    proof {
        assert(digits.subrange(0, 0) =~= Seq::<char>::empty());
    }
    while i < n
        invariant
            start <= i <= n,
            n == s@.len(),
            start < n,
            digits == s@.subrange(start as int, n as int),
            forall|k: int| 0 <= k < digits.len() ==> is_digit(digits[k]),
            acc as int == dec_value(digits.subrange(0, i - start)),
            uint_value(s@) == dec_value(digits),
            is_uint_literal(s@),
        decreases n - i,
    {
        let c = s.get_char(i);
        proof {
            assert(s@[i as int] == digits[i - start]);
            assert(is_digit(digits[i - start]));
        }
        let d = (c as u32 - 48) as usize;
        proof {
            let p = digits.subrange(0, i - start + 1);
            assert(p.drop_last() =~= digits.subrange(0, i - start));
            assert(p.last() == digits[i - start]);
            assert(dec_value(p) == acc as int * 10 + d);
        }
        let step = acc.checked_mul(10);
        let next = match step {
            Some(m) => m.checked_add(d),
            None => None,
        };
        match next {
            Some(v) => {
                acc = v;
            },
            None => {
                proof {
                    lemma_dec_value_prefix(digits, i - start + 1);
                    assert(dec_value(digits.subrange(0, i - start + 1)) > usize::MAX as int);
                    assert(dec_value(digits) > usize::MAX as int);
                }
                return Err(Error::ParseInt(s.to_owned()));
            },
        }
        i += 1;
    }
    proof {
        assert(digits.subrange(0, n - start) =~= digits);
    }
    Ok(acc)
}

/// Decides whether a token has the shape of a floating-point literal.
pub fn is_float_token(s: &str) -> (r: bool)
    ensures
        r == is_float_literal(s@),
{
    let n = s.unicode_len();
    let start: usize = if n > 0 {
        let c = s.get_char(0);
        if c == '+' || c == '-' {
            1
        } else {
            0
        }
    } else {
        0
    };
    if n - start == 3 || n - start == 8 {
        let c0 = s.get_char(start);
        let c1 = s.get_char(start + 1);
        let c2 = s.get_char(start + 2);
        if n - start == 3 {
            if (c0 == 'i' || c0 == 'I') && (c1 == 'n' || c1 == 'N') && (c2 == 'f' || c2 == 'F') {
                return true;
            }
            if (c0 == 'n' || c0 == 'N') && (c1 == 'a' || c1 == 'A') && (c2 == 'n' || c2 == 'N') {
                return true;
            }
        } else {
            let c3 = s.get_char(start + 3);
            let c4 = s.get_char(start + 4);
            let c5 = s.get_char(start + 5);
            let c6 = s.get_char(start + 6);
            let c7 = s.get_char(start + 7);
            if (c0 == 'i' || c0 == 'I') && (c1 == 'n' || c1 == 'N') && (c2 == 'f' || c2 == 'F') && (
            c3 == 'i' || c3 == 'I') && (c4 == 'n' || c4 == 'N') && (c5 == 'i' || c5 == 'I') && (c6
                == 't' || c6 == 'T') && (c7 == 'y' || c7 == 'Y') {
                return true;
            }
        }
    }
    let a = scan_digits(s, start);
    let dot = a < n && s.get_char(a) == '.';
    let b = if dot {
        scan_digits(s, a + 1)
    } else {
        a
    };
    if !(a > start || (dot && b > a + 1)) {
        return false;
    }
    if b == n {
        return true;
    }
    let e = s.get_char(b);
    if !(e == 'e' || e == 'E') {
        return false;
    }
    let mut j = b + 1;
    if j < n {
        let sign = s.get_char(j);
        if sign == '+' || sign == '-' {
            j += 1;
        }
    }
    if j >= n {
        return false;
    }
    let d = scan_digits(s, j);
    d == n
}

/// A 4x4 homogeneous projective transform, held as 16 numeric tokens in
/// column-major order.
///
/// The tokens are exactly as they stood in the source text, so the numeric
/// pipeline downstream decides their precision; this type only guarantees
/// their shape.
#[derive(Clone, Debug, PartialEq)]
pub struct Projective3 {
    entries: Vec<String>,
}

impl View for Projective3 {
    type V = Seq<Seq<char>>;

    /// The views of the 16 entry tokens, column-major.
    closed spec fn view(&self) -> Seq<Seq<char>> {
        strs_view(self.entries@)
    }
}

impl Projective3 {
    /// Every well-formed transform holds exactly 16 numeric tokens.
    pub open spec fn well_formed(&self) -> bool {
        self@.len() == 16 && forall|i: int| 0 <= i < 16 ==> is_float_literal(#[trigger] self@[i])
    }

    /// Returns the entry token at the given row and column.
    pub fn entry(&self, row: usize, col: usize) -> (r: &String)
        requires
            row < 4,
            col < 4,
            self.well_formed(),
        ensures
            r@ == self@[col * 4 + row],
    {
        &self.entries[col * 4 + row]
    }

    /// Returns all 16 entry tokens, column-major.
    pub fn entries(&self) -> (r: &Vec<String>)
        ensures
            strs_view(r@) == self@,
    {
        &self.entries
    }
}

/// The transpose of 16 row-major tokens into column-major order.
pub open spec fn transpose_tokens(toks: Seq<Seq<char>>) -> Seq<Seq<char>> {
    Seq::new(16, |i: int| toks[(i % 4) * 4 + i / 4])
}

/// What parsing a matrix text yields: the whitespace-separated tokens,
/// transposed from row-major to column-major, provided there are exactly 16
/// and each is numeric.
pub open spec fn spec_parse_projective3(text: Seq<char>) -> Option<Seq<Seq<char>>> {
    let toks = ws_tokens(text);
    if toks.len() == 16 && (forall|i: int| 0 <= i < 16 ==> is_float_literal(#[trigger] toks[i])) {
        Some(transpose_tokens(toks))
    } else {
        None
    }
}

/// Parses 16 whitespace-separated numeric tokens, read in row-major order
/// and stored as a column-major homogeneous transform.
pub fn parse_projective3(s: &str) -> (r: Result<Projective3, Error>)
    ensures
        r matches Ok(m) ==> spec_parse_projective3(s@) == Some(m@) && m.well_formed(),
        r is Ok <==> spec_parse_projective3(s@) is Some,
        r matches Err(e) ==> match e {
            Error::ParseFloat(t) => ws_tokens(s@).contains(t@) && !is_float_literal(t@),
            Error::ParseProjective3(t) => t@ == s@ && ws_tokens(s@).len() != 16,
            _ => false,
        },
{
    let tokens = whitespace_tokens(s);
    let mut i: usize = 0;
    while i < tokens.len()
        invariant
            i <= tokens@.len(),
            strs_view(tokens@) == ws_tokens(s@),
            forall|k: int| 0 <= k < i ==> is_float_literal(#[trigger] tokens@[k]@),
        decreases tokens@.len() - i,
    {
        if !is_float_token(tokens[i].as_str()) {
            proof {
                assert(ws_tokens(s@)[i as int] == tokens@[i as int]@);
                assert(ws_tokens(s@).contains(tokens@[i as int]@));
            }
            return Err(Error::ParseFloat(tokens[i].clone()));
        }
        i += 1;
    }
    if tokens.len() != 16 {
        return Err(Error::ParseProjective3(s.to_owned()));
    }
    let mut entries: Vec<String> = Vec::new();
    let mut j: usize = 0;
    proof {
        assert(strs_view(entries@) =~~= Seq::<Seq<char>>::empty());
    }
    while j < 16
        invariant
            j <= 16,
            tokens@.len() == 16,
            strs_view(tokens@) == ws_tokens(s@),
            forall|k: int| 0 <= k < 16 ==> is_float_literal(#[trigger] tokens@[k]@),
            strs_view(entries@) =~~= transpose_tokens(strs_view(tokens@)).subrange(0, j as int),
        decreases 16 - j,
    {
        let idx = (j % 4) * 4 + j / 4;
        let item = tokens[idx].clone();
        proof {
            assert(strs_view(entries@.push(item)) =~~= strs_view(entries@).push(
                strs_view(tokens@)[(j as int % 4) * 4 + j as int / 4],
            ));
            assert(transpose_tokens(strs_view(tokens@)).subrange(0, j + 1) =~~= transpose_tokens(
                strs_view(tokens@),
            ).subrange(0, j as int).push(strs_view(tokens@)[(j as int % 4) * 4 + j as int / 4]));
        }
        entries.push(item);
        j += 1;
    }
    let m = Projective3 { entries };
    proof {
        assert(m@ =~~= transpose_tokens(strs_view(tokens@)));
    }
    Ok(m)
}

/// The text at a path, provided it is a floating-point token.
pub open spec fn float_text_at(e: Element, path: Seq<char>) -> Option<Seq<char>> {
    match text_at(e, path) {
        Some(t) => if is_float_literal(t) {
            Some(t)
        } else {
            None
        },
        None => None,
    }
}

/// The value of the text at a path, provided it is an unsigned integer
/// token whose value fits in a `usize`.
pub open spec fn uint_value_at(e: Element, path: Seq<char>) -> Option<int> {
    match text_at(e, path) {
        Some(t) => if is_uint_literal(t) && uint_value(t) <= usize::MAX {
            Some(uint_value(t))
        } else {
            None
        },
        None => None,
    }
}

/// Reads the text of the element at a path.
pub fn text_field(element: &Element, path: &str) -> (r: Result<String, Error>)
    ensures
        r matches Ok(t) ==> text_at(*element, path@) == Some(t@),
        r is Ok <==> text_at(*element, path@) is Some,
        r matches Err(e) ==> e matches Error::MissingChild(p, c) || e matches Error::NoElementText(
            n,
        ),
{
    Ok(element.child(path)?.as_str()?.to_owned())
}

/// Reads the text of the element at a path as a floating-point token.
pub fn float_field(element: &Element, path: &str) -> (r: Result<String, Error>)
    ensures
        r matches Ok(t) ==> float_text_at(*element, path@) == Some(t@),
        r is Ok <==> float_text_at(*element, path@) is Some,
        r matches Err(e) ==> e matches Error::MissingChild(p, c) || e matches Error::NoElementText(
            n,
        ) || e matches Error::ParseFloat(t),
{
    let t = element.child(path)?.as_str()?;
    if is_float_token(t) {
        Ok(t.to_owned())
    } else {
        Err(Error::ParseFloat(t.to_owned()))
    }
}

/// Reads the text of the element at a path as an unsigned integer.
pub fn uint_field(element: &Element, path: &str) -> (r: Result<usize, Error>)
    ensures
        r matches Ok(v) ==> uint_value_at(*element, path@) == Some(v as int),
        r is Ok <==> uint_value_at(*element, path@) is Some,
        r matches Err(e) ==> e matches Error::MissingChild(p, c) || e matches Error::NoElementText(
            n,
        ) || e matches Error::ParseInt(t),
{
    let t = element.child(path)?.as_str()?;
    parse_usize(t)
}

} // verus!
