//! The fixed four-byte, big-endian form in which a sensitive value is sealed.

use arrayvec::ArrayVec;
use vstd::prelude::*;

use crate::error::EnvelopeError;

verus! {

/// The number that four bytes spell, most significant byte first.
pub open spec fn be_value(b: Seq<u8>) -> int
    recommends
        b.len() == 4,
{
    b[0] as int * 0x100_0000 + b[1] as int * 0x1_0000 + b[2] as int * 0x100 + b[3] as int
}

/// The four bytes that spell `v`, most significant byte first.
pub open spec fn be_bytes(v: u32) -> Seq<u8> {
    seq![
        (v as int / 0x100_0000) as u8,
        (v as int / 0x1_0000 % 0x100) as u8,
        (v as int / 0x100 % 0x100) as u8,
        (v as int % 0x100) as u8,
    ]
}

/// What four-byte decoding makes of a plaintext: the value it spells, or the
/// length error when it is not four bytes long.
pub open spec fn decoded(b: Seq<u8>) -> Result<u32, EnvelopeError> {
    if b.len() == 4 {
        Ok(be_value(b) as u32)
    } else {
        Err(EnvelopeError::PlaintextLength)
    }
}

/// `arrayvec::ArrayVec`, a vector of fixed capacity, taken as it is: what
/// is known of a value is what [`array_vec_items`] names.
#[verifier::external_type_specification]
#[verifier::external_body]
#[verifier::reject_recursive_types(T)]
pub struct ExArrayVec<T, const CAP: usize>(ArrayVec<T, CAP>);

/// The items that a four-byte `ArrayVec` holds, first to last.
pub uninterp spec fn array_vec_items(v: ArrayVec<u8, 4>) -> Seq<u8>;

/// `ArrayVec::from_iter` over the bytes of a vector: the result holds the
/// same bytes in the same order.  The call panics beyond the capacity of
/// four, which `requires` rules out.
#[verifier::external_body]
fn collect_bytes(bytes: Vec<u8>) -> (r: ArrayVec<u8, 4>)
    requires
        bytes@.len() <= 4,
    ensures
        array_vec_items(r) == bytes@,
{
    bytes.into_iter().collect()
}

/// `ArrayVec::into_inner`: the array of the four items when the vector is
/// full, nothing when it holds fewer.
#[verifier::external_body]
fn into_array(v: ArrayVec<u8, 4>) -> (r: Option<[u8; 4]>)
    ensures
        match r {
            Some(a) => a@ == array_vec_items(v),
            None => array_vec_items(v).len() < 4,
        },
{
    v.into_inner().ok()
}

/// Writes a value as four bytes, most significant first.
pub fn encode_value(v: u32) -> (r: Vec<u8>)
    ensures
        r@ == be_bytes(v),
{
    let mut r: Vec<u8> = Vec::with_capacity(4);
    r.push((v / 0x100_0000) as u8);
    r.push((v / 0x1_0000 % 0x100) as u8);
    r.push((v / 0x100 % 0x100) as u8);
    r.push((v % 0x100) as u8);
    r
}

/// Reads a value back from its four bytes.  Any other length is refused.
pub fn decode_value(bytes: Vec<u8>) -> (r: Result<u32, EnvelopeError>)
    ensures
        r == decoded(bytes@),
{
    if bytes.len() > 4 {
        return Err(EnvelopeError::PlaintextLength);
    }
    match into_array(collect_bytes(bytes)) {
        Some(a) => {
            let v: u32 = a[0] as u32 * 0x100_0000 + a[1] as u32 * 0x1_0000 + a[2] as u32 * 0x100
                + a[3] as u32;
            Ok(v)
        },
        None => Err(EnvelopeError::PlaintextLength),
    }
}

/// Decoding undoes encoding: every 32-bit value comes back from its four
/// bytes unchanged.
pub proof fn lemma_decode_encode(v: u32)
    ensures
        be_bytes(v).len() == 4,
        be_value(be_bytes(v)) == v,
        decoded(be_bytes(v)) == Ok::<u32, EnvelopeError>(v),
{
}

/// Encoding undoes decoding: four bytes are the encoding of the value they
/// spell, so two different plaintexts never decode to the same value.
pub proof fn lemma_encode_decode(b: Seq<u8>)
    requires
        b.len() == 4,
    ensures
        0 <= be_value(b) <= u32::MAX,
        be_bytes(be_value(b) as u32) == b,
{
    let x = be_value(b);
    assert(x / 0x100_0000 == b[0]);
    assert(x / 0x1_0000 % 0x100 == b[1]);
    assert(x / 0x100 == b[0] as int * 0x1_0000 + b[1] as int * 0x100 + b[2] as int);
}

} // verus!
