use vstd::prelude::*;

pub mod decoder;
pub mod definition;
pub mod device;
pub mod error;
pub mod frame;
pub mod json;
pub mod message;
pub mod parser;
pub mod payload;
pub mod serialize;

verus! {

/// Sum of a sequence of bytes, as an unbounded natural number.
pub open spec fn byte_sum(bytes: Seq<u8>) -> nat
    decreases bytes.len(),
{
    if bytes.len() == 0 {
        0
    } else {
        byte_sum(bytes.drop_last()) + bytes.last() as nat
    }
}

/// The protocol checksum of a byte sequence: the sum of its bytes modulo 2^16.
pub open spec fn checksum_of(bytes: Seq<u8>) -> u16 {
    (byte_sum(bytes) % 0x10000) as u16
}

/// Wrapping 16-bit sum of all bytes in `pack_without_payload`.
pub fn calculate_crc(pack_without_payload: &[u8]) -> (crc: u16)
    ensures
        crc == checksum_of(pack_without_payload@),
{
    let mut crc: u16 = 0;
    let mut i: usize = 0;
    while i < pack_without_payload.len()
        invariant
            i <= pack_without_payload@.len(),
            crc == checksum_of(pack_without_payload@.take(i as int)),
        decreases pack_without_payload@.len() - i,
    {
        let ghost prefix = pack_without_payload@.take(i as int);
        assert(pack_without_payload@.take(i + 1).drop_last() =~= prefix);
        crc = crc.wrapping_add(pack_without_payload[i] as u16);
        i += 1;
    }
    assert(pack_without_payload@.take(i as int) =~= pack_without_payload@);
    crc
}

} // verus!
