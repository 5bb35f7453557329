//! The length prefix as bytes, through bincode's fixed-width integer encoding.
//!
//! These items are believed, not proved: each states what the bincode call in
//! its body does.

use vstd::bytes::spec_u64_from_le_bytes;
use vstd::bytes::spec_u64_to_le_bytes;
use vstd::prelude::*;

verus! {

/// bincode's error value, carried through untouched.
#[verifier::external_type_specification]
#[verifier::external_body]
pub struct ExErrorKind(bincode::ErrorKind);

/// `bincode::serialize_into` with a `Vec<u8>` as the writer and a `u64` as the
/// value. With bincode's default configuration there is no size limit and a
/// `u64` is written as its eight bytes, least significant first; a `Vec<u8>`
/// takes every write at its end. So the call succeeds and `buf` has grown by
/// exactly those eight bytes.
#[verifier::external_body]
pub(crate) fn encode_len(buf: &mut Vec<u8>, len: u64) -> (r: Result<(), Box<bincode::ErrorKind>>)
    ensures
        r is Ok,
        final(buf)@ == old(buf)@ + spec_u64_to_le_bytes(len),
{
    bincode::serialize_into(buf, &len)
}

/// `bincode::deserialize` to a `u64`. With bincode's default configuration
/// the call takes eight bytes off the front of the slice, fails when fewer are
/// there, reads them as a little-endian integer, and ignores any bytes behind
/// them.
#[verifier::external_body]
pub(crate) fn decode_len(bytes: &[u8]) -> (r: Result<u64, Box<bincode::ErrorKind>>)
    ensures
        r is Ok <==> bytes@.len() >= 8,
        r matches Ok(len) ==> len == spec_u64_from_le_bytes(bytes@.take(8)),
{
    bincode::deserialize(bytes)
}

} // verus!
