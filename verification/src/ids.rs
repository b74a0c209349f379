//! Generation-tagged 64-bit object identifiers.
//!
//! An identifier packs a 32-bit generation counter (`serial`, 1-based, never
//! 0) into the high bits and a slot index into the low bits. The arena keeps
//! indices well below `2^31`, so the low 31 bits recover the index exactly.

use vstd::prelude::*;

verus! {

/// Highest generation value; the counter wraps back to 1 past this.
pub const SERIAL_MAX: u64 = 0x7FFF_FFFF;

/// Hard ceiling on the number of arena slots.
pub const SLOT_LIMIT: usize = 0x100_0000;

/// The slot index carried in an identifier's low bits.
pub open spec fn uid_index(uid: u64) -> u64 {
    uid & 0x7FFF_FFFF
}

/// The generation carried in an identifier's high bits.
pub open spec fn uid_serial(uid: u64) -> u64 {
    uid >> 32
}

/// The identifier stamped for generation `serial` and slot `index`.
pub open spec fn spec_make_uid(serial: u64, index: u64) -> u64 {
    (serial << 32) | index
}

/// Packs a generation and a slot index into an identifier.
pub fn make_uid(serial: u64, index: u64) -> (uid: u64)
    requires
        1 <= serial <= SERIAL_MAX,
        index <= SLOT_LIMIT,
    ensures
        uid == spec_make_uid(serial, index),
        uid_index(uid) == index,
        uid_serial(uid) == serial,
{
    proof {
        lemma_uid_parts(serial, index);
    }
    (serial << 32u64) | index
}

/// Extracts the slot index from an identifier.
pub fn index_of_uid(uid: u64) -> (index: u64)
    ensures
        index == uid_index(uid),
        index <= 0x7FFF_FFFF,
{
    proof {
        assert(uid & 0x7FFF_FFFF <= 0x7FFF_FFFF) by (bit_vector);
    }
    uid & 0x7FFF_FFFF
}

/// Extracts the generation from an identifier.
pub fn serial_of_uid(uid: u64) -> (serial: u64)
    ensures
        serial == uid_serial(uid),
{
    uid >> 32u64
}

/// Packing is lossless: both fields are recovered exactly, so identifiers
/// that differ in generation or in index are distinct.
pub proof fn lemma_uid_parts(serial: u64, index: u64)
    requires
        1 <= serial <= SERIAL_MAX,
        index <= SLOT_LIMIT,
    ensures
        uid_index(spec_make_uid(serial, index)) == index,
        uid_serial(spec_make_uid(serial, index)) == serial,
{
    assert(serial <= 0x7FFF_FFFFu64 && index <= 0x100_0000u64 && 1 <= serial ==> {
        &&& ((serial << 32) | index) & 0x7FFF_FFFF == index
        &&& ((serial << 32) | index) >> 32 == serial
    }) by (bit_vector);
}

/// Two identifiers for the same slot but different generations never collide:
/// a handle from before a generation change cannot alias one from after it.
pub proof fn lemma_uid_generations_distinct(s1: u64, s2: u64, index: u64)
    requires
        1 <= s1 <= SERIAL_MAX,
        1 <= s2 <= SERIAL_MAX,
        index <= SLOT_LIMIT,
        s1 != s2,
    ensures
        spec_make_uid(s1, index) != spec_make_uid(s2, index),
{
    lemma_uid_parts(s1, index);
    lemma_uid_parts(s2, index);
}

} // verus!
