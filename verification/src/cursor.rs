//! Reads of unsigned integers at positions of the image.
//!
//! The image is never copied: every read takes the whole slice and a position,
//! checks that the bytes asked for lie inside it, and decodes them.

use byteorder::{BigEndian, ByteOrder, LittleEndian};
use vstd::prelude::*;

use crate::errors::{DiskError, IoErrorKind};

verus! {

/// The value of two bytes read as a big-endian number.
pub open spec fn spec_be_u16(bytes: Seq<u8>) -> int {
    bytes[0] * 0x100 + bytes[1]
}

/// The value of four bytes read as a big-endian number.
pub open spec fn spec_be_u32(bytes: Seq<u8>) -> int {
    bytes[0] * 0x100_0000 + bytes[1] * 0x1_0000 + bytes[2] * 0x100 + bytes[3]
}

/// The value of eight bytes read as a big-endian number.
pub open spec fn spec_be_u64(bytes: Seq<u8>) -> int {
    spec_be_u32(bytes.subrange(0, 4)) * 0x1_0000_0000 + spec_be_u32(bytes.subrange(4, 8))
}

/// The value of four bytes read as a little-endian number.
pub open spec fn spec_le_u32(bytes: Seq<u8>) -> int {
    bytes[0] + bytes[1] * 0x100 + bytes[2] * 0x1_0000 + bytes[3] * 0x100_0000
}

/// Whether the `count` bytes from `pos` on lie inside an image of `len` bytes.
pub open spec fn in_image(len: nat, pos: int, count: int) -> bool {
    0 <= pos && 0 <= count && pos + count <= len
}

/// The `count` bytes of `image` from `pos` on.
pub open spec fn bytes_at(image: Seq<u8>, pos: int, count: int) -> Seq<u8> {
    image.subrange(pos, pos + count)
}

/// Calls `byteorder::BigEndian::read_u16`. Taken on trust, not proved: it
/// gives the number whose two bytes are the first two of `buf`, the most
/// significant first. It panics on a shorter buffer, which the precondition
/// rules out.
#[verifier::external_body]
pub(crate) fn be_u16(buf: &[u8]) -> (value: u16)
    requires
        buf@.len() >= 2,
    ensures
        value == spec_be_u16(buf@),
{
    BigEndian::read_u16(buf)
}

/// Calls `byteorder::BigEndian::read_u32`. Taken on trust, not proved: it
/// gives the number whose four bytes are the first four of `buf`, the most
/// significant first. It panics on a shorter buffer, which the precondition
/// rules out.
#[verifier::external_body]
pub(crate) fn be_u32(buf: &[u8]) -> (value: u32)
    requires
        buf@.len() >= 4,
    ensures
        value == spec_be_u32(buf@),
{
    BigEndian::read_u32(buf)
}

/// Calls `byteorder::BigEndian::read_u64`. Taken on trust, not proved: it
/// gives the number whose eight bytes are the first eight of `buf`, the most
/// significant first. It panics on a shorter buffer, which the precondition
/// rules out.
#[verifier::external_body]
pub(crate) fn be_u64(buf: &[u8]) -> (value: u64)
    requires
        buf@.len() >= 8,
    ensures
        value == spec_be_u64(buf@),
{
    BigEndian::read_u64(buf)
}

/// Calls `byteorder::LittleEndian::read_u32`. Taken on trust, not proved: it
/// gives the number whose four bytes are the first four of `buf`, the least
/// significant first. It panics on a shorter buffer, which the precondition
/// rules out.
#[verifier::external_body]
pub(crate) fn le_u32(buf: &[u8]) -> (value: u32)
    requires
        buf@.len() >= 4,
    ensures
        value == spec_le_u32(buf@),
{
    LittleEndian::read_u32(buf)
}

/// Whether `count` bytes can be read at `pos`.
pub fn fits(data: &[u8], pos: u64, count: u64) -> (ok: bool)
    ensures
        ok == in_image(data@.len(), pos as int, count as int),
        data@.len() <= usize::MAX,
{
    let len: u64 = data.len() as u64;
    pos <= len && count <= len - pos
}

/// What reading one byte at `pos` gives.
pub open spec fn spec_read_u8(image: Seq<u8>, pos: int) -> Result<u8, DiskError> {
    if in_image(image.len(), pos, 1) {
        Ok(image[pos])
    } else {
        Err(DiskError::IoError(IoErrorKind::UnexpectedEof))
    }
}

/// What reading a big-endian `u16` at `pos` gives.
pub open spec fn spec_read_u16_be(image: Seq<u8>, pos: int) -> Result<u16, DiskError> {
    if in_image(image.len(), pos, 2) {
        Ok(spec_be_u16(bytes_at(image, pos, 2)) as u16)
    } else {
        Err(DiskError::IoError(IoErrorKind::UnexpectedEof))
    }
}

/// What reading a big-endian `u32` at `pos` gives.
pub open spec fn spec_read_u32_be(image: Seq<u8>, pos: int) -> Result<u32, DiskError> {
    if in_image(image.len(), pos, 4) {
        Ok(spec_be_u32(bytes_at(image, pos, 4)) as u32)
    } else {
        Err(DiskError::IoError(IoErrorKind::UnexpectedEof))
    }
}

/// What reading a big-endian `u64` at `pos` gives.
pub open spec fn spec_read_u64_be(image: Seq<u8>, pos: int) -> Result<u64, DiskError> {
    if in_image(image.len(), pos, 8) {
        Ok(spec_be_u64(bytes_at(image, pos, 8)) as u64)
    } else {
        Err(DiskError::IoError(IoErrorKind::UnexpectedEof))
    }
}

/// What reading a little-endian `u32` at `pos` gives.
pub open spec fn spec_read_u32_le(image: Seq<u8>, pos: int) -> Result<u32, DiskError> {
    if in_image(image.len(), pos, 4) {
        Ok(spec_le_u32(bytes_at(image, pos, 4)) as u32)
    } else {
        Err(DiskError::IoError(IoErrorKind::UnexpectedEof))
    }
}

/// What reading `count` bytes at `pos` gives.
pub open spec fn spec_read_bytes(image: Seq<u8>, pos: int, count: int) -> Result<
    Seq<u8>,
    DiskError,
> {
    if in_image(image.len(), pos, count) {
        Ok(bytes_at(image, pos, count))
    } else {
        Err(DiskError::IoError(IoErrorKind::UnexpectedEof))
    }
}

/// What a read of bytes returned, as the contracts see it.
pub open spec fn spec_bytes_result(r: Result<&[u8], DiskError>) -> Result<Seq<u8>, DiskError> {
    match r {
        Ok(bytes) => Ok(bytes@),
        Err(e) => Err(e),
    }
}

/// Reads the `count` bytes at `pos`.
pub fn read_bytes<'a>(data: &'a [u8], pos: u64, count: u64) -> (r: Result<&'a [u8], DiskError>)
    ensures
        spec_bytes_result(r) == spec_read_bytes(data@, pos as int, count as int),
{
    if !fits(data, pos, count) {
        return Err(DiskError::unexpected_eof());
    }
    let start: usize = pos as usize;
    Ok(&data[start..start + count as usize])
}

/// Reads the byte at `pos`.
pub fn read_u8(data: &[u8], pos: u64) -> (r: Result<u8, DiskError>)
    ensures
        r == spec_read_u8(data@, pos as int),
{
    if !fits(data, pos, 1) {
        return Err(DiskError::unexpected_eof());
    }
    Ok(data[pos as usize])
}

/// Reads a big-endian `u16` at `pos`.
pub fn read_u16_be(data: &[u8], pos: u64) -> (r: Result<u16, DiskError>)
    ensures
        r == spec_read_u16_be(data@, pos as int),
{
    if !fits(data, pos, 2) {
        return Err(DiskError::unexpected_eof());
    }
    let start: usize = pos as usize;
    Ok(be_u16(&data[start..start + 2]))
}

/// Reads a big-endian `u32` at `pos`.
pub fn read_u32_be(data: &[u8], pos: u64) -> (r: Result<u32, DiskError>)
    ensures
        r == spec_read_u32_be(data@, pos as int),
{
    if !fits(data, pos, 4) {
        return Err(DiskError::unexpected_eof());
    }
    let start: usize = pos as usize;
    Ok(be_u32(&data[start..start + 4]))
}

/// Reads a big-endian `u64` at `pos`.
pub fn read_u64_be(data: &[u8], pos: u64) -> (r: Result<u64, DiskError>)
    ensures
        r == spec_read_u64_be(data@, pos as int),
{
    if !fits(data, pos, 8) {
        return Err(DiskError::unexpected_eof());
    }
    let start: usize = pos as usize;
    Ok(be_u64(&data[start..start + 8]))
}

/// Reads a little-endian `u32` at `pos`.
pub fn read_u32_le(data: &[u8], pos: u64) -> (r: Result<u32, DiskError>)
    ensures
        r == spec_read_u32_le(data@, pos as int),
{
    if !fits(data, pos, 4) {
        return Err(DiskError::unexpected_eof());
    }
    let start: usize = pos as usize;
    Ok(le_u32(&data[start..start + 4]))
}

} // verus!
