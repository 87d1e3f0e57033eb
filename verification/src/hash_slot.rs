//! Which of the 16384 cluster slots a key belongs to.
//!
//! A key's slot is the CRC16 (XMODEM) of the key, modulo 16384 — or of its
//! hash tag, the part between the first `{` and the first `}` after it, when
//! that part is not empty. Keys sharing a tag share a slot.
use crate::redis_error::{first_index_of, lemma_first_index_in_bounds, position};
use vstd::prelude::*;

verus! {

/// The number of hash slots of a cluster.
pub const SLOT_COUNT: u16 = 16384;

/// The CRC16 (XMODEM variant) of a byte string.
pub uninterp spec fn crc16_xmodem(data: Seq<u8>) -> u16;

/// The checksum a key's slot is taken from.
///
/// Calls `crc16::State::<crc16::XMODEM>::calculate`, a pure function of the
/// bytes it is given; its value is named rather than restated.
#[verifier::external_body]
fn crc16(data: &[u8]) -> (r: u16)
    ensures
        r == crc16_xmodem(data@),
{
    crc16::State::<crc16::XMODEM>::calculate(data)
}

/// The part of a key that is hashed: the non-empty text between its first
/// `{` and the first `}` after it, or the whole key.
pub open spec fn hash_tag(key: Seq<u8>) -> Seq<u8> {
    match first_index_of(key, 123) {
        Some(s) => {
            let rest = key.subrange(s + 1, key.len() as int);
            match first_index_of(rest, 125) {
                Some(e) => if e != 0 {
                    rest.subrange(0, e)
                } else {
                    key
                },
                None => key,
            }
        },
        None => key,
    }
}

/// The slot a checksum designates.
pub open spec fn slot_of_checksum(crc: u16) -> u16 {
    crc % SLOT_COUNT
}

/// The slot of a key.
pub open spec fn spec_hash_slot(key: Seq<u8>) -> u16 {
    slot_of_checksum(crc16_xmodem(hash_tag(key)))
}

/// The slot a checksum designates.
pub fn slot_from_checksum(crc: u16) -> (r: u16)
    ensures
        r == slot_of_checksum(crc),
        r < SLOT_COUNT,
{
    crc % SLOT_COUNT
}

/// The part of a key that is hashed.
pub fn hash_tag_of(key: &[u8]) -> (r: Vec<u8>)
    ensures
        r@ == hash_tag(key@),
{
    match position(key, 123) {
        Some(s) => {
            proof {
                lemma_first_index_in_bounds(key@, 123);
            }
            assert(s < key.len());
            let rest = crate::redis_error::copy_range(key, s + 1, key.len());
            match position(rest.as_slice(), 125) {
                Some(e) => {
                    proof {
                        lemma_first_index_in_bounds(rest@, 125);
                    }
                    assert(e < rest.len());
                    if e != 0 {
                        crate::redis_error::copy_range(rest.as_slice(), 0, e)
                    } else {
                        crate::bytes_util::slice_to_vec(key)
                    }
                },
                None => crate::bytes_util::slice_to_vec(key),
            }
        },
        None => crate::bytes_util::slice_to_vec(key),
    }
}

/// The slot of a key.
pub fn hash_slot(key: &[u8]) -> (r: u16)
    ensures
        r == spec_hash_slot(key@),
        r < SLOT_COUNT,
{
    let tag = hash_tag_of(key);
    slot_from_checksum(crc16(tag.as_slice()))
}

/// The slot of each key, in order.
pub fn hash_slots(keys: &Vec<Vec<u8>>) -> (r: Vec<u16>)
    ensures
        r@.len() == keys@.len(),
        forall|i: int| 0 <= i < keys@.len() ==> #[trigger] r@[i] == spec_hash_slot(keys@[i]@),
{
    let mut r: Vec<u16> = Vec::new();
    let mut i: usize = 0;
    while i < keys.len()
        invariant
            0 <= i <= keys@.len(),
            r@.len() == i,
            forall|j: int| 0 <= j < i ==> #[trigger] r@[j] == spec_hash_slot(keys@[j]@),
        decreases keys@.len() - i,
    {
        r.push(hash_slot(keys[i].as_slice()));
        i = i + 1;
    }
    r
}

/// Keys that share a non-empty hash tag share a slot, whatever else they
/// hold: this is what lets a caller keep related keys on one node.
pub proof fn lemma_same_tag_same_slot(a: Seq<u8>, b: Seq<u8>)
    requires
        hash_tag(a) == hash_tag(b),
    ensures
        spec_hash_slot(a) == spec_hash_slot(b),
{
}

} // verus!
