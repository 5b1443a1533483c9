//! Message identifiers: a UUID held as its 128-bit value, with its 16-byte
//! big-endian wire form.
use vstd::prelude::*;

verus! {

/// The 16 bytes of a 128-bit identifier, most significant byte first.
pub open spec fn id_bytes(id: u128) -> Seq<u8> {
    seq![
        (id >> 120u128) as u8, (id >> 112u128) as u8, (id >> 104u128) as u8, (id >> 96u128) as u8,
        (id >> 88u128) as u8, (id >> 80u128) as u8, (id >> 72u128) as u8, (id >> 64u128) as u8,
        (id >> 56u128) as u8, (id >> 48u128) as u8, (id >> 40u128) as u8, (id >> 32u128) as u8,
        (id >> 24u128) as u8, (id >> 16u128) as u8, (id >> 8u128) as u8, id as u8,
    ]
}

/// The 128-bit value whose big-endian bytes are the 16 bytes of `b`.
pub open spec fn id_from_bytes(b: Seq<u8>) -> u128 {
    ((b[0] as u128) << 120u128) | ((b[1] as u128) << 112u128) | ((b[2] as u128) << 104u128)
        | ((b[3] as u128) << 96u128) | ((b[4] as u128) << 88u128) | ((b[5] as u128) << 80u128)
        | ((b[6] as u128) << 72u128) | ((b[7] as u128) << 64u128) | ((b[8] as u128) << 56u128)
        | ((b[9] as u128) << 48u128) | ((b[10] as u128) << 40u128) | ((b[11] as u128) << 32u128)
        | ((b[12] as u128) << 24u128) | ((b[13] as u128) << 16u128) | ((b[14] as u128) << 8u128)
        | (b[15] as u128)
}

/// Reading back the bytes of an identifier gives the identifier.
pub proof fn lemma_id_bytes_roundtrip(id: u128)
    ensures
        id_from_bytes(id_bytes(id)) == id,
        id_bytes(id).len() == 16,
{
    let b = id_bytes(id);
    let b0 = (id >> 120u128) as u8;
    let b1 = (id >> 112u128) as u8;
    let b2 = (id >> 104u128) as u8;
    let b3 = (id >> 96u128) as u8;
    let b4 = (id >> 88u128) as u8;
    let b5 = (id >> 80u128) as u8;
    let b6 = (id >> 72u128) as u8;
    let b7 = (id >> 64u128) as u8;
    let b8 = (id >> 56u128) as u8;
    let b9 = (id >> 48u128) as u8;
    let b10 = (id >> 40u128) as u8;
    let b11 = (id >> 32u128) as u8;
    let b12 = (id >> 24u128) as u8;
    let b13 = (id >> 16u128) as u8;
    let b14 = (id >> 8u128) as u8;
    let b15 = id as u8;
    assert(b[0] == b0 && b[1] == b1 && b[2] == b2 && b[3] == b3 && b[4] == b4 && b[5] == b5
        && b[6] == b6 && b[7] == b7 && b[8] == b8 && b[9] == b9 && b[10] == b10 && b[11] == b11
        && b[12] == b12 && b[13] == b13 && b[14] == b14 && b[15] == b15);
    assert(((b0 as u128) << 120u128) | ((b1 as u128) << 112u128) | ((b2 as u128) << 104u128)
        | ((b3 as u128) << 96u128) | ((b4 as u128) << 88u128) | ((b5 as u128) << 80u128)
        | ((b6 as u128) << 72u128) | ((b7 as u128) << 64u128) | ((b8 as u128) << 56u128)
        | ((b9 as u128) << 48u128) | ((b10 as u128) << 40u128) | ((b11 as u128) << 32u128)
        | ((b12 as u128) << 24u128) | ((b13 as u128) << 16u128) | ((b14 as u128) << 8u128)
        | (b15 as u128) == id) by (bit_vector)
        requires
            b0 == (id >> 120u128) as u8, b1 == (id >> 112u128) as u8,
            b2 == (id >> 104u128) as u8, b3 == (id >> 96u128) as u8,
            b4 == (id >> 88u128) as u8, b5 == (id >> 80u128) as u8,
            b6 == (id >> 72u128) as u8, b7 == (id >> 64u128) as u8,
            b8 == (id >> 56u128) as u8, b9 == (id >> 48u128) as u8,
            b10 == (id >> 40u128) as u8, b11 == (id >> 32u128) as u8,
            b12 == (id >> 24u128) as u8, b13 == (id >> 16u128) as u8,
            b14 == (id >> 8u128) as u8, b15 == id as u8,
    ;
}

/// `Uuid::new_v4()`, as its 128-bit value: random bits, except that the
/// version field (bits 76 to 79) reads 4 and the variant field (bits 62 and
/// 63) reads binary 10. Nothing else is promised of the value.
#[verifier::external_body]
pub(crate) fn new_msg_id() -> (id: u128)
    ensures
        (id >> 76u128) & 0xfu128 == 4,
        (id >> 62u128) & 0x3u128 == 2,
{
    uuid::Uuid::new_v4().as_u128()
}

/// The 16 bytes of a UUID: `uuid::Uuid::from_u128` then `as_bytes`, which
/// the uuid crate lays out most significant byte first.
#[verifier::external_body]
pub(crate) fn msg_id_to_bytes(id: u128) -> (b: [u8; 16])
    ensures
        b@ == id_bytes(id),
{
    *uuid::Uuid::from_u128(id).as_bytes()
}

/// `uuid::Uuid::from_slice`: a UUID from exactly 16 bytes, read most
/// significant byte first; an error for any other length.
#[verifier::external_body]
pub(crate) fn msg_id_from_slice(b: &[u8]) -> (r: Option<u128>)
    ensures
        r is Some <==> b@.len() == 16,
        r matches Some(id) ==> id == id_from_bytes(b@),
{
    match uuid::Uuid::from_slice(b) {
        Ok(u) => Some(u.as_u128()),
        Err(_) => None,
    }
}

} // verus!
