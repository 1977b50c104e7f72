use vstd::prelude::*;

use crate::error::ParseError;

verus! {

/// A decoded EBML size field: either a concrete byte count or the
/// distinguished all-ones "unknown size" marker used by streamed elements.
#[derive(Clone, Copy, Debug, PartialEq, Eq, Structural)]
pub enum SizeVal {
    Known(u64),
    Unknown,
}

/// Width in bytes of a variable-length integer whose leading byte is `b`:
/// the position of the first set bit decides it (1 to 8); a zero byte has no
/// marker bit and yields 9, which every caller rejects.
pub open spec fn spec_vint_width(b: u8) -> u8 {
    if b >= 0x80 {
        1
    } else if b >= 0x40 {
        2
    } else if b >= 0x20 {
        3
    } else if b >= 0x10 {
        4
    } else if b >= 0x08 {
        5
    } else if b >= 0x04 {
        6
    } else if b >= 0x02 {
        7
    } else if b >= 0x01 {
        8
    } else {
        9
    }
}

pub fn vint_width(b: u8) -> (w: u8)
    ensures
        w == spec_vint_width(b),
{
    if b >= 0x80 {
        1
    } else if b >= 0x40 {
        2
    } else if b >= 0x20 {
        3
    } else if b >= 0x10 {
        4
    } else if b >= 0x08 {
        5
    } else if b >= 0x04 {
        6
    } else if b >= 0x02 {
        7
    } else if b >= 0x01 {
        8
    } else {
        9
    }
}

/// Big-endian value of the `w` bytes at `pos`, marker bit kept: this is how
/// element IDs are compared against their registered constants.
pub open spec fn spec_id_value(s: Seq<u8>, pos: int, w: int) -> u64 {
    if w == 1 {
        s[pos] as u64
    } else if w == 2 {
        ((s[pos] as u64) << 8) | (s[pos + 1] as u64)
    } else if w == 3 {
        ((s[pos] as u64) << 16) | ((s[pos + 1] as u64) << 8) | (s[pos + 2] as u64)
    } else {
        ((s[pos] as u64) << 24) | ((s[pos + 1] as u64) << 16) | ((s[pos + 2] as u64) << 8) | (s[
            pos + 3
        ] as u64)
    }
}

/// Reads a variable-length element ID (1 to 4 bytes) at `pos`.
///
/// A leading byte of zero, a width over 4, or a buffer that ends before all
/// declared ID bytes yields `MalformedId`; an empty remainder yields
/// `Truncated`.
pub open spec fn spec_read_id(s: Seq<u8>, pos: int) -> Result<(u64, usize), ParseError> {
    if pos >= s.len() {
        Err(ParseError::Truncated)
    } else {
        let w = spec_vint_width(s[pos]);
        if w > 4 {
            Err(ParseError::MalformedId)
        } else if pos + w > s.len() {
            Err(ParseError::MalformedId)
        } else {
            Ok((spec_id_value(s, pos, w as int), w as usize))
        }
    }
}

pub fn read_id(s: &Vec<u8>, pos: usize) -> (r: Result<(u64, usize), ParseError>)
    ensures
        r == spec_read_id(s@, pos as int),
{
    if pos >= s.len() {
        return Err(ParseError::Truncated);
    }
    let b = s[pos];
    let w = vint_width(b);
    if w > 4 {
        return Err(ParseError::MalformedId);
    }
    if s.len() - pos < w as usize {
        return Err(ParseError::MalformedId);
    }
    let v: u64 = if w == 1 {
        b as u64
    } else if w == 2 {
        ((b as u64) << 8) | (s[pos + 1] as u64)
    } else if w == 3 {
        ((b as u64) << 16) | ((s[pos + 1] as u64) << 8) | (s[pos + 2] as u64)
    } else {
        ((b as u64) << 24) | ((s[pos + 1] as u64) << 16) | ((s[pos + 2] as u64) << 8) | (s[pos
            + 3] as u64)
    };
    Ok((v, w as usize))
}

/// Big-endian value of the `w` bytes at `pos` with the marker bit removed:
/// the numeric content of a size field (and of a block's track number).
pub open spec fn spec_size_value(s: Seq<u8>, pos: int, w: int) -> u64 {
    if w == 1 {
        (s[pos] & 0x7f) as u64
    } else if w == 2 {
        (((s[pos] & 0x3f) as u64) << 8) | (s[pos + 1] as u64)
    } else if w == 3 {
        (((s[pos] & 0x1f) as u64) << 16) | ((s[pos + 1] as u64) << 8) | (s[pos + 2] as u64)
    } else if w == 4 {
        (((s[pos] & 0x0f) as u64) << 24) | ((s[pos + 1] as u64) << 16) | ((s[pos + 2] as u64)
            << 8) | (s[pos + 3] as u64)
    } else if w == 5 {
        (((s[pos] & 0x07) as u64) << 32) | ((s[pos + 1] as u64) << 24) | ((s[pos + 2] as u64)
            << 16) | ((s[pos + 3] as u64) << 8) | (s[pos + 4] as u64)
    } else if w == 6 {
        (((s[pos] & 0x03) as u64) << 40) | ((s[pos + 1] as u64) << 32) | ((s[pos + 2] as u64)
            << 24) | ((s[pos + 3] as u64) << 16) | ((s[pos + 4] as u64) << 8) | (s[pos + 5] as u64)
    } else if w == 7 {
        (((s[pos] & 0x01) as u64) << 48) | ((s[pos + 1] as u64) << 40) | ((s[pos + 2] as u64)
            << 32) | ((s[pos + 3] as u64) << 24) | ((s[pos + 4] as u64) << 16) | ((s[pos
            + 5] as u64) << 8) | (s[pos + 6] as u64)
    } else {
        ((s[pos + 1] as u64) << 48) | ((s[pos + 2] as u64) << 40) | ((s[pos + 3] as u64) << 32) | ((
        s[pos + 4] as u64) << 24) | ((s[pos + 5] as u64) << 16) | ((s[pos + 6] as u64) << 8) | (s[
            pos + 7
        ] as u64)
    }
}

/// The all-ones value of a `w`-byte size field, which denotes "unknown size".
pub open spec fn spec_size_all_ones(w: int) -> u64 {
    if w == 1 {
        0x7f
    } else if w == 2 {
        0x3fff
    } else if w == 3 {
        0x1f_ffff
    } else if w == 4 {
        0x0fff_ffff
    } else if w == 5 {
        0x07_ffff_ffff
    } else if w == 6 {
        0x03ff_ffff_ffff
    } else if w == 7 {
        0x01_ffff_ffff_ffff
    } else {
        0x00ff_ffff_ffff_ffff
    }
}

/// Reads a variable-length size field (1 to 8 bytes) at `pos`.
///
/// A zero leading byte yields `MalformedId`; a buffer that ends before the
/// declared bytes yields `Truncated`; an all-ones value decodes to
/// `SizeVal::Unknown`.
pub open spec fn spec_read_size(s: Seq<u8>, pos: int) -> Result<(SizeVal, usize), ParseError> {
    if pos >= s.len() {
        Err(ParseError::Truncated)
    } else {
        let w = spec_vint_width(s[pos]);
        if w > 8 {
            Err(ParseError::MalformedId)
        } else if pos + w > s.len() {
            Err(ParseError::Truncated)
        } else {
            let v = spec_size_value(s, pos, w as int);
            if v == spec_size_all_ones(w as int) {
                Ok((SizeVal::Unknown, w as usize))
            } else {
                Ok((SizeVal::Known(v), w as usize))
            }
        }
    }
}

/// Computes the marker-stripped value of a `w`-byte variable-length integer
/// whose bytes are known to be in bounds.
pub fn size_value_at(s: &Vec<u8>, pos: usize, w: u8) -> (v: u64)
    requires
        1 <= w <= 8,
        pos + w <= s@.len(),
    ensures
        v == spec_size_value(s@, pos as int, w as int),
{
    // bind the length so the arithmetic below is known to stay within usize
    let _len = s.len();
    if w == 1 {
        (s[pos] & 0x7f) as u64
    } else if w == 2 {
        (((s[pos] & 0x3f) as u64) << 8) | (s[pos + 1] as u64)
    } else if w == 3 {
        (((s[pos] & 0x1f) as u64) << 16) | ((s[pos + 1] as u64) << 8) | (s[pos + 2] as u64)
    } else if w == 4 {
        (((s[pos] & 0x0f) as u64) << 24) | ((s[pos + 1] as u64) << 16) | ((s[pos + 2] as u64)
            << 8) | (s[pos + 3] as u64)
    } else if w == 5 {
        (((s[pos] & 0x07) as u64) << 32) | ((s[pos + 1] as u64) << 24) | ((s[pos + 2] as u64)
            << 16) | ((s[pos + 3] as u64) << 8) | (s[pos + 4] as u64)
    } else if w == 6 {
        (((s[pos] & 0x03) as u64) << 40) | ((s[pos + 1] as u64) << 32) | ((s[pos + 2] as u64)
            << 24) | ((s[pos + 3] as u64) << 16) | ((s[pos + 4] as u64) << 8) | (s[pos + 5] as u64)
    } else if w == 7 {
        (((s[pos] & 0x01) as u64) << 48) | ((s[pos + 1] as u64) << 40) | ((s[pos + 2] as u64)
            << 32) | ((s[pos + 3] as u64) << 24) | ((s[pos + 4] as u64) << 16) | ((s[pos
            + 5] as u64) << 8) | (s[pos + 6] as u64)
    } else {
        ((s[pos + 1] as u64) << 48) | ((s[pos + 2] as u64) << 40) | ((s[pos + 3] as u64) << 32) | ((
        s[pos + 4] as u64) << 24) | ((s[pos + 5] as u64) << 16) | ((s[pos + 6] as u64) << 8) | (s[
            pos + 7
        ] as u64)
    }
}

pub fn read_size(s: &Vec<u8>, pos: usize) -> (r: Result<(SizeVal, usize), ParseError>)
    ensures
        r == spec_read_size(s@, pos as int),
{
    if pos >= s.len() {
        return Err(ParseError::Truncated);
    }
    let b = s[pos];
    let w = vint_width(b);
    if w > 8 {
        return Err(ParseError::MalformedId);
    }
    if s.len() - pos < w as usize {
        return Err(ParseError::Truncated);
    }
    let v = size_value_at(s, pos, w);
    let all_ones: u64 = if w == 1 {
        0x7f
    } else if w == 2 {
        0x3fff
    } else if w == 3 {
        0x1f_ffff
    } else if w == 4 {
        0x0fff_ffff
    } else if w == 5 {
        0x07_ffff_ffff
    } else if w == 6 {
        0x03ff_ffff_ffff
    } else if w == 7 {
        0x01_ffff_ffff_ffff
    } else {
        0x00ff_ffff_ffff_ffff
    };
    if v == all_ones {
        Ok((SizeVal::Unknown, w as usize))
    } else {
        Ok((SizeVal::Known(v), w as usize))
    }
}

/// Big-endian value of an unsigned-integer element payload of `n` bytes
/// (0 to 8); an empty payload means zero.
pub open spec fn spec_uint_value(s: Seq<u8>, pos: int, n: int) -> u64 {
    if n <= 0 {
        0
    } else if n == 1 {
        s[pos] as u64
    } else if n == 2 {
        ((s[pos] as u64) << 8) | (s[pos + 1] as u64)
    } else if n == 3 {
        ((s[pos] as u64) << 16) | ((s[pos + 1] as u64) << 8) | (s[pos + 2] as u64)
    } else if n == 4 {
        ((s[pos] as u64) << 24) | ((s[pos + 1] as u64) << 16) | ((s[pos + 2] as u64) << 8) | (s[
            pos + 3
        ] as u64)
    } else if n == 5 {
        ((s[pos] as u64) << 32) | ((s[pos + 1] as u64) << 24) | ((s[pos + 2] as u64) << 16) | ((s[
            pos + 3
        ] as u64) << 8) | (s[pos + 4] as u64)
    } else if n == 6 {
        ((s[pos] as u64) << 40) | ((s[pos + 1] as u64) << 32) | ((s[pos + 2] as u64) << 24) | ((s[
            pos + 3
        ] as u64) << 16) | ((s[pos + 4] as u64) << 8) | (s[pos + 5] as u64)
    } else if n == 7 {
        ((s[pos] as u64) << 48) | ((s[pos + 1] as u64) << 40) | ((s[pos + 2] as u64) << 32) | ((s[
            pos + 3
        ] as u64) << 24) | ((s[pos + 4] as u64) << 16) | ((s[pos + 5] as u64) << 8) | (s[pos
            + 6] as u64)
    } else {
        ((s[pos] as u64) << 56) | ((s[pos + 1] as u64) << 48) | ((s[pos + 2] as u64) << 40) | ((s[
            pos + 3
        ] as u64) << 32) | ((s[pos + 4] as u64) << 24) | ((s[pos + 5] as u64) << 16) | ((s[pos
            + 6] as u64) << 8) | (s[pos + 7] as u64)
    }
}

/// Computes the big-endian value of an unsigned-integer element payload whose
/// bytes are known to be in bounds.
pub fn uint_value_at(s: &Vec<u8>, pos: usize, n: usize) -> (v: u64)
    requires
        n <= 8,
        pos + n <= s@.len(),
    ensures
        v == spec_uint_value(s@, pos as int, n as int),
{
    // bind the length so the arithmetic below is known to stay within usize
    let _len = s.len();
    if n == 0 {
        0
    } else if n == 1 {
        s[pos] as u64
    } else if n == 2 {
        ((s[pos] as u64) << 8) | (s[pos + 1] as u64)
    } else if n == 3 {
        ((s[pos] as u64) << 16) | ((s[pos + 1] as u64) << 8) | (s[pos + 2] as u64)
    } else if n == 4 {
        ((s[pos] as u64) << 24) | ((s[pos + 1] as u64) << 16) | ((s[pos + 2] as u64) << 8) | (s[
            pos + 3
        ] as u64)
    } else if n == 5 {
        ((s[pos] as u64) << 32) | ((s[pos + 1] as u64) << 24) | ((s[pos + 2] as u64) << 16) | ((s[
            pos + 3
        ] as u64) << 8) | (s[pos + 4] as u64)
    } else if n == 6 {
        ((s[pos] as u64) << 40) | ((s[pos + 1] as u64) << 32) | ((s[pos + 2] as u64) << 24) | ((s[
            pos + 3
        ] as u64) << 16) | ((s[pos + 4] as u64) << 8) | (s[pos + 5] as u64)
    } else if n == 7 {
        ((s[pos] as u64) << 48) | ((s[pos + 1] as u64) << 40) | ((s[pos + 2] as u64) << 32) | ((s[
            pos + 3
        ] as u64) << 24) | ((s[pos + 4] as u64) << 16) | ((s[pos + 5] as u64) << 8) | (s[pos
            + 6] as u64)
    } else {
        ((s[pos] as u64) << 56) | ((s[pos + 1] as u64) << 48) | ((s[pos + 2] as u64) << 40) | ((s[
            pos + 3
        ] as u64) << 32) | ((s[pos + 4] as u64) << 24) | ((s[pos + 5] as u64) << 16) | ((s[pos
            + 6] as u64) << 8) | (s[pos + 7] as u64)
    }
}

/// Copies the byte range `[ps, pe)` out of the buffer.
pub fn bytes_range(s: &Vec<u8>, ps: usize, pe: usize) -> (r: Vec<u8>)
    requires
        ps <= pe <= s@.len(),
    ensures
        r@ == s@.subrange(ps as int, pe as int),
{
    let sl = vstd::slice::slice_subrange(s.as_slice(), ps, pe);
    vstd::slice::slice_to_vec(sl)
}

/// Reads a full element header (ID followed by size) at `pos`, returning the
/// ID, the size, and the total header width.
pub open spec fn spec_read_head(s: Seq<u8>, pos: int) -> Result<(u64, SizeVal, usize), ParseError> {
    match spec_read_id(s, pos) {
        Err(e) => Err(e),
        Ok((id, wi)) => match spec_read_size(s, pos + wi) {
            Err(e) => Err(e),
            Ok((sz, ws)) => Ok((id, sz, (wi + ws) as usize)),
        },
    }
}

pub fn read_head(s: &Vec<u8>, pos: usize) -> (r: Result<(u64, SizeVal, usize), ParseError>)
    requires
        pos <= s@.len(),
    ensures
        r == spec_read_head(s@, pos as int),
{
    // bind the length so the arithmetic below is known to stay within usize
    let _len = s.len();
    match read_id(s, pos) {
        Err(e) => Err(e),
        Ok((id, wi)) => match read_size(s, pos + wi) {
            Err(e) => Err(e),
            Ok((sz, ws)) => Ok((id, sz, wi + ws)),
        },
    }
}

} // verus!
