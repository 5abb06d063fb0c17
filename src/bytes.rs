//! Byte-level primitives: big-endian integers, lossy UTF-8 text and zlib
//! inflation, each stated over sequences of bytes.
use byteorder::ByteOrder;
use vstd::prelude::*;

verus! {

/// The unsigned value of the first four bytes of `b`, most significant first.
pub open spec fn be_u32_of(b: Seq<u8>) -> int {
    b[0] as int * 0x100_0000 + b[1] as int * 0x1_0000 + b[2] as int * 0x100 + b[3] as int
}

/// The two's-complement value of the first four bytes of `b`, most
/// significant first.
pub open spec fn be_i32_of(b: Seq<u8>) -> int {
    let u = be_u32_of(b);
    if u >= 0x8000_0000 {
        u - 0x1_0000_0000
    } else {
        u
    }
}

/// Whether every byte of `b` is ASCII.
pub open spec fn is_ascii_bytes(b: Seq<u8>) -> bool {
    forall|i: int| 0 <= i < b.len() ==> b[i] < 128
}

/// ASCII bytes read as the characters with the same code.
pub open spec fn ascii_chars(b: Seq<u8>) -> Seq<char> {
    b.map_values(|x: u8| x as char)
}

/// The text that lossy UTF-8 decoding makes of `b`: invalid sequences
/// become U+FFFD.
pub uninterp spec fn utf8_lossy(b: Seq<u8>) -> Seq<char>;

/// The bytes that a zlib stream inflates to, or `None` where the stream is
/// corrupt or cut short.
pub uninterp spec fn zlib_inflated(b: Seq<u8>) -> Option<Seq<u8>>;

/// Relies on byteorder's `BigEndian::read_u32`, which reads `b[..4]` as a
/// big-endian `u32` and panics on fewer than four bytes.
#[verifier::external_body]
pub(crate) fn read_be_u32(b: &[u8]) -> (r: u32)
    requires
        b@.len() >= 4,
    ensures
        r as int == be_u32_of(b@),
{
    byteorder::BigEndian::read_u32(b)
}

/// Relies on byteorder's `BigEndian::read_i32`, the bits of `read_u32` taken
/// as an `i32`; panics on fewer than four bytes.
#[verifier::external_body]
pub(crate) fn read_be_i32(b: &[u8]) -> (r: i32)
    requires
        b@.len() >= 4,
    ensures
        r as int == be_i32_of(b@),
{
    byteorder::BigEndian::read_i32(b)
}

/// Relies on `String::from_utf8_lossy`: the result depends on the bytes
/// alone, and valid UTF-8 (so ASCII in particular) comes back unchanged.
#[verifier::external_body]
pub(crate) fn lossy_string(b: &[u8]) -> (r: String)
    ensures
        r@ == utf8_lossy(b@),
        is_ascii_bytes(b@) ==> r@ == ascii_chars(b@),
{
    String::from_utf8_lossy(b).into_owned()
}

/// Relies on flate2's `read::ZlibDecoder` read to the end: the inflated
/// bytes, or an error with its text where the stream is corrupt or
/// incomplete.
#[verifier::external_body]
pub(crate) fn inflate(b: &[u8]) -> (r: Result<Vec<u8>, String>)
    ensures
        match r {
            Ok(v) => zlib_inflated(b@) == Some(v@),
            Err(_) => zlib_inflated(b@) is None,
        },
{
    let mut decoder = flate2::read::ZlibDecoder::new(b);
    let mut out: Vec<u8> = Vec::new();
    match std::io::Read::read_to_end(&mut decoder, &mut out) {
        Ok(_) => Ok(out),
        Err(e) => Err(e.to_string()),
    }
}

} // verus!
