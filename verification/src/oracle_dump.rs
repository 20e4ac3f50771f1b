//! Framing of intermediate-value dump files: a 48-byte little-endian header
//! (magic `S2D1`, element type, x size, y size, channels, stride, payload
//! byte count, two reserved words) followed by the packed payload.
use vstd::prelude::*;
use crate::bytes::{le_u32_at, le_u64_at, le_u32_words, le_u64_words, read_le_u32, read_le_u64, le_u32_words_from, le_u64_words_from};

verus! {

/// The header magic, "S2D1" read as a little-endian `u32`.
pub const DUMP_MAGIC: u32 = 0x31443253u32;

/// Element type code of 32-bit unsigned integers.
pub const DTYPE_U32: u32 = 3u32;

/// Element type code of 32-bit floats.
pub const DTYPE_F32: u32 = 4u32;

/// Element type code of 64-bit floats.
pub const DTYPE_F64: u32 = 8u32;

/// Why a byte stream is not a dump.
#[derive(Clone, Copy, Debug, PartialEq, Eq, Structural)]
pub enum DumpError {
    /// Fewer than 48 bytes.
    TooShort,
    /// The magic is wrong (the value found is carried).
    BadMagic(u32),
    /// The header's payload byte count disagrees with the stream's length.
    PayloadSizeMismatch,
    /// An element type other than u32, f32 or f64 (the code is carried).
    UnsupportedDtype(u32),
}

/// A dump's header fields and its payload as raw words: 32-bit words for
/// u32 and f32 payloads (the bit patterns), 64-bit words for f64 payloads;
/// the other vector is empty.
#[derive(Debug)]
pub struct DumpWords {
    pub dtype: u32,
    pub xsize: u32,
    pub ysize: u32,
    pub channels: u32,
    pub words32: Vec<u32>,
    pub words64: Vec<u64>,
}

/// The error a dump byte stream `b` is refused with, if any.
pub open spec fn dump_error(b: Seq<u8>) -> Option<DumpError> {
    if b.len() < 48 {
        Some(DumpError::TooShort)
    } else if le_u32_at(b, 0) != DUMP_MAGIC {
        Some(DumpError::BadMagic(le_u32_at(b, 0) as u32))
    } else if 48 + le_u64_at(b, 24) != b.len() {
        Some(DumpError::PayloadSizeMismatch)
    } else if !(le_u32_at(b, 4) == DTYPE_F32 || le_u32_at(b, 4) == DTYPE_F64 || le_u32_at(b, 4)
        == DTYPE_U32) {
        Some(DumpError::UnsupportedDtype(le_u32_at(b, 4) as u32))
    } else {
        None
    }
}

/// Parses a dump byte stream: checks length, magic and payload size, reads
/// the header fields, and decodes the payload into words of the element
/// type's width (a trailing partial word is not read).
pub fn parse_dump(bytes: &[u8]) -> (r: Result<DumpWords, DumpError>)
    ensures
        dump_error(bytes@) matches Some(e) ==> (r matches Err(f) && f == e),
        dump_error(bytes@) is None ==> (r matches Ok(d) && {
            let b = bytes@;
            let payload = b.subrange(48, b.len() as int);
            &&& d.dtype == le_u32_at(b, 4)
            &&& d.xsize == le_u32_at(b, 8)
            &&& d.ysize == le_u32_at(b, 12)
            &&& d.channels == le_u32_at(b, 16)
            &&& d.dtype == DTYPE_F64 ==> d.words64@ == le_u64_words(payload) && d.words32@.len()
                == 0
            &&& d.dtype != DTYPE_F64 ==> d.words32@ == le_u32_words(payload) && d.words64@.len()
                == 0
        }),
{
    if bytes.len() < 48 {
        return Err(DumpError::TooShort);
    }
    let magic = read_le_u32(bytes, 0);
    if magic != DUMP_MAGIC {
        return Err(DumpError::BadMagic(magic));
    }
    let dtype = read_le_u32(bytes, 4);
    let xsize = read_le_u32(bytes, 8);
    let ysize = read_le_u32(bytes, 12);
    let channels = read_le_u32(bytes, 16);
    let payload = read_le_u64(bytes, 24);
    if payload as u128 + 48 != bytes.len() as u128 {
        return Err(DumpError::PayloadSizeMismatch);
    }
    if dtype == DTYPE_F32 || dtype == DTYPE_U32 {
        let words32 = le_u32_words_from(bytes, 48);
        Ok(DumpWords { dtype, xsize, ysize, channels, words32, words64: Vec::new() })
    } else if dtype == DTYPE_F64 {
        let words64 = le_u64_words_from(bytes, 48);
        Ok(DumpWords { dtype, xsize, ysize, channels, words32: Vec::new(), words64 })
    } else {
        Err(DumpError::UnsupportedDtype(dtype))
    }
}

} // verus!
