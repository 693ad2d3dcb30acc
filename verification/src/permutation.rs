//! The permutation table that is the only source of pseudo-randomness.

use vstd::prelude::*;

verus! {

/// A fixed arrangement of the numbers 0 to 255.
pub const PERMUTATION: [u8; 256] = [
    151, 160, 137, 91, 90, 15, 131, 13, 201, 95, 96, 53, 194, 233, 7, 225,
    140, 36, 103, 30, 69, 142, 8, 99, 37, 240, 21, 10, 23, 190, 6, 148,
    247, 120, 234, 75, 0, 26, 197, 62, 94, 252, 219, 203, 117, 35, 11, 32,
    57, 177, 33, 88, 237, 149, 56, 87, 174, 20, 125, 136, 171, 168, 68, 175,
    74, 165, 71, 134, 139, 48, 27, 166, 77, 146, 158, 231, 83, 111, 229, 122,
    60, 211, 133, 230, 220, 105, 92, 41, 55, 46, 245, 40, 244, 102, 143, 54,
    65, 25, 63, 161, 1, 216, 80, 73, 209, 76, 132, 187, 208, 89, 18, 169,
    200, 196, 135, 130, 116, 188, 159, 86, 164, 100, 109, 198, 173, 186, 3, 64,
    52, 217, 226, 250, 124, 123, 5, 202, 38, 147, 118, 126, 255, 82, 85, 212,
    207, 206, 59, 227, 47, 16, 58, 17, 182, 189, 28, 42, 223, 183, 170, 213,
    119, 248, 152, 2, 44, 154, 163, 70, 221, 153, 101, 155, 167, 43, 172, 9,
    129, 22, 39, 253, 19, 98, 108, 110, 79, 113, 224, 232, 178, 185, 112, 104,
    218, 246, 97, 228, 251, 34, 242, 193, 238, 210, 144, 12, 191, 179, 162, 241,
    81, 51, 145, 235, 249, 14, 239, 107, 49, 192, 214, 31, 181, 199, 106, 157,
    184, 84, 204, 176, 115, 121, 50, 45, 127, 4, 150, 254, 138, 236, 205, 93,
    222, 114, 67, 29, 24, 72, 243, 141, 128, 195, 78, 66, 215, 61, 156, 180,
];

/// For each value, the position at which `PERMUTATION` holds it.
const POSITION: [u8; 256] = [
    36, 100, 163, 126, 233, 134, 30, 14, 22, 175, 27, 46, 203, 7, 213, 5,
    149, 151, 110, 180, 57, 26, 177, 28, 244, 97, 37, 70, 154, 243, 19, 219,
    47, 50, 197, 45, 17, 24, 136, 178, 91, 87, 155, 173, 164, 231, 89, 148,
    69, 216, 230, 209, 128, 11, 95, 88, 54, 48, 150, 146, 80, 253, 39, 98,
    127, 96, 251, 242, 62, 20, 167, 66, 245, 103, 64, 35, 105, 72, 250, 184,
    102, 208, 141, 76, 225, 142, 119, 55, 51, 109, 4, 3, 86, 239, 40, 9,
    10, 194, 181, 23, 121, 170, 93, 18, 191, 85, 222, 215, 182, 122, 183, 77,
    190, 185, 241, 228, 116, 44, 138, 160, 33, 229, 79, 133, 132, 58, 139, 232,
    248, 176, 115, 6, 106, 82, 67, 114, 59, 2, 236, 68, 16, 247, 21, 94,
    202, 210, 73, 137, 31, 53, 234, 0, 162, 169, 165, 171, 254, 223, 74, 118,
    1, 99, 206, 166, 120, 65, 71, 172, 61, 111, 158, 60, 174, 124, 56, 63,
    227, 49, 188, 205, 255, 220, 152, 157, 224, 189, 125, 107, 117, 153, 29, 204,
    217, 199, 12, 249, 113, 38, 123, 221, 112, 8, 135, 43, 226, 238, 145, 144,
    108, 104, 201, 81, 143, 159, 218, 252, 101, 129, 192, 42, 84, 168, 240, 156,
    186, 15, 130, 147, 195, 78, 83, 75, 187, 13, 34, 211, 237, 52, 200, 214,
    25, 207, 198, 246, 92, 90, 193, 32, 161, 212, 131, 196, 41, 179, 235, 140,
];

/// The table entry for any integer: the table repeats with period 256.
#[verifier::opaque]
pub open spec fn spec_lookup(i: int) -> int {
    PERMUTATION[i % 256] as int
}

/// Looks `i` up in the table after masking it to its low eight bits.
pub fn lookup(i: i64) -> (r: u8)
    ensures
        r == spec_lookup(i as int),
{
    proof {
        reveal(spec_lookup);
    }
    let masked: i64 = i & 0xFF;
    assert(0 <= masked < 256 && masked == (i as int) % 256) by (bit_vector)
        requires
            masked == i & 0xFF,
    ;
    PERMUTATION[masked as usize]
}

/// Every table entry lies between 0 and 255.
pub proof fn lemma_lookup_range(i: int)
    ensures
        0 <= spec_lookup(i) <= 255,
{
    reveal(spec_lookup);
}

/// Shifting the index by a whole number of table lengths changes nothing.
pub proof fn lemma_lookup_periodic(i: int, k: int)
    ensures
        spec_lookup(i + 256 * k) == spec_lookup(i),
{
    reveal(spec_lookup);
    vstd::arithmetic::div_mod::lemma_mod_multiples_vanish(k, i, 256);
}

/// The position at which the table holds `v`.
#[verifier::opaque]
spec fn position(v: int) -> int {
    POSITION[v] as int
}

/// `position` undoes `spec_lookup` on one period.
proof fn lemma_position_of_entry(i: int)
    requires
        0 <= i < 256,
    ensures
        position(spec_lookup(i)) == i,
{
    reveal(position);
    reveal(spec_lookup);
    lemma_position_at_table(i);
    assert(i % 256 == i);
}

/// The position recorded for the value at index `i` is `i`.
proof fn lemma_position_at_table(i: int)
    requires
        0 <= i < 256,
    ensures
        POSITION[PERMUTATION[i] as int] == i,
{
}

/// At the position recorded for `v`, the table holds `v`.
proof fn lemma_table_at_position(v: int)
    requires
        0 <= v < 256,
    ensures
        PERMUTATION[POSITION[v] as int] == v,
{
}

/// `spec_lookup` undoes `position`.
proof fn lemma_entry_of_position(v: int)
    requires
        0 <= v < 256,
    ensures
        0 <= position(v) < 256,
        spec_lookup(position(v)) == v,
{
    reveal(position);
    reveal(spec_lookup);
    let p = POSITION[v] as int;
    assert(PERMUTATION[p] == v) by {
        lemma_table_at_position(v);
    }
    assert(p % 256 == p);
}

/// No value occurs at two positions of the table.
pub proof fn lemma_lookup_injective(i: int, j: int)
    requires
        0 <= i < 256,
        0 <= j < 256,
        spec_lookup(i) == spec_lookup(j),
    ensures
        i == j,
{
    lemma_position_of_entry(i);
    lemma_position_of_entry(j);
}

/// Every value from 0 to 255 occurs in the table.
pub proof fn lemma_lookup_surjective(v: int)
    requires
        0 <= v < 256,
    ensures
        exists|i: int| 0 <= i < 256 && spec_lookup(i) == v,
{
    lemma_entry_of_position(v);
    let i = position(v);
    assert(0 <= i < 256 && spec_lookup(i) == v);
}

} // verus!
