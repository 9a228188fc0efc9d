//! Fixed-size fields read from the front of a byte source.
//!
//! A byte source is a slice that shrinks as it is read: a successful read
//! drops the bytes it returned from the front, and a read that finds too few
//! bytes leaves the source empty, so that every later read fails as well.

use vstd::prelude::*;
use vstd::slice::slice_subrange;
use vstd::slice::slice_to_vec;
use std::io::Read;
use byteorder::LittleEndian;
use byteorder::ReadBytesExt;

verus! {

/// `std::io::Error`, carried as it comes: nothing is known of what it holds.
#[verifier::external_type_specification]
#[verifier::external_body]
pub struct ExIoError(std::io::Error);

/// The number that four bytes spell when the least significant byte comes first.
pub open spec fn le_u32(bytes: Seq<u8>) -> nat
    recommends
        bytes.len() == 4,
{
    (bytes[0] + 256 * bytes[1] + 65536 * bytes[2] + 16777216 * bytes[3]) as nat
}

/// The four bytes that spell `value` with the least significant byte first.
pub open spec fn le_bytes(value: nat) -> Seq<u8> {
    seq![
        (value % 256) as u8,
        (value / 256 % 256) as u8,
        (value / 65536 % 256) as u8,
        (value / 16777216 % 256) as u8,
    ]
}

/// Reading back the four bytes of a 32-bit number gives the number.
pub proof fn lemma_le_u32_of_le_bytes(value: nat)
    requires
        value <= u32::MAX,
    ensures
        le_bytes(value).len() == 4,
        le_u32(le_bytes(value)) == value,
{
}

/// Calls `byteorder::ReadBytesExt::read_u32::<LittleEndian>` on a reader over
/// `source`. That method fills four bytes with `Read::read_exact` and decodes
/// them with `u32::from_le_bytes`: it fails exactly when `source` holds fewer
/// than four bytes, and otherwise gives the little-endian value of the first
/// four.
#[verifier::external_body]
fn decode_u32(source: &[u8]) -> (result: Result<u32, std::io::Error>)
    ensures
        result is Ok <==> source@.len() >= 4,
        result is Ok ==> result->Ok_0 == le_u32(source@.take(4)),
{
    let mut reader = source;
    reader.read_u32::<LittleEndian>()
}

/// Calls `std::io::Read::read_exact` on a reader over `source` with a buffer
/// of four bytes. It fails exactly when `source` holds fewer than four bytes,
/// and otherwise the buffer holds a copy of the first four.
#[verifier::external_body]
fn copy_tag(source: &[u8]) -> (result: Result<[u8; 4], std::io::Error>)
    ensures
        result is Ok <==> source@.len() >= 4,
        result is Ok ==> result->Ok_0@ == source@.take(4),
{
    let mut reader = source;
    let mut tag = [0u8; 4];
    reader.read_exact(&mut tag)?;
    Ok(tag)
}

/// Moves `reader` past its first `count` bytes.
fn advance(reader: &mut &[u8], count: usize)
    requires
        count <= old(reader)@.len(),
    ensures
        final(reader)@ == old(reader)@.skip(count as int),
{
    let source: &[u8] = *reader;
    *reader = slice_subrange(source, count, source.len());
}

/// Reads a four-byte tag.
pub fn read_tag(reader: &mut &[u8]) -> (result: Result<[u8; 4], std::io::Error>)
    ensures
        result is Ok <==> old(reader)@.len() >= 4,
        result is Ok ==> result->Ok_0@ == old(reader)@.take(4) && final(reader)@ == old(
            reader,
        )@.skip(4),
        result is Err ==> final(reader)@ == Seq::<u8>::empty(),
{
    let result = copy_tag(*reader);
    let count: usize = if result.is_ok() {
        4
    } else {
        reader.len()
    };
    advance(reader, count);
    result
}

/// Reads a little-endian 32-bit number.
pub fn read_u32(reader: &mut &[u8]) -> (result: Result<u32, std::io::Error>)
    ensures
        result is Ok <==> old(reader)@.len() >= 4,
        result is Ok ==> result->Ok_0 == le_u32(old(reader)@.take(4)) && final(reader)@ == old(
            reader,
        )@.skip(4),
        result is Err ==> final(reader)@ == Seq::<u8>::empty(),
{
    let result = decode_u32(*reader);
    let count: usize = if result.is_ok() {
        4
    } else {
        reader.len()
    };
    advance(reader, count);
    result
}

/// Leaves `reader` empty.
pub fn drain(reader: &mut &[u8])
    ensures
        final(reader)@ == Seq::<u8>::empty(),
{
    let count = reader.len();
    advance(reader, count);
}

/// Takes the first `count` bytes off `reader`, without copying them.
pub fn read_slice<'a>(reader: &mut &'a [u8], count: usize) -> (result: Option<&'a [u8]>)
    ensures
        result is Some <==> count <= old(reader)@.len(),
        result is Some ==> result->0@ == old(reader)@.take(count as int) && final(reader)@ == old(
            reader,
        )@.skip(count as int),
        result is None ==> final(reader)@ == Seq::<u8>::empty(),
{
    let source: &'a [u8] = *reader;
    if count <= source.len() {
        advance(reader, count);
        Some(slice_subrange(source, 0, count))
    } else {
        drain(reader);
        None
    }
}

/// Reads `count` bytes.
pub fn read_bytes(reader: &mut &[u8], count: usize) -> (result: Option<Vec<u8>>)
    ensures
        result is Some <==> count <= old(reader)@.len(),
        result is Some ==> result->0@ == old(reader)@.take(count as int) && final(reader)@ == old(
            reader,
        )@.skip(count as int),
        result is None ==> final(reader)@ == Seq::<u8>::empty(),
{
    match read_slice(reader, count) {
        Some(bytes) => Some(slice_to_vec(bytes)),
        None => None,
    }
}

} // verus!
