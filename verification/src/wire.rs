use vstd::prelude::*;

verus! {

/// The little-endian 32-bit value held by the four bytes of `s` starting
/// at offset `i`.
pub open spec fn le32_at(s: Seq<u8>, i: int) -> nat
    recommends
        0 <= i,
        i + 4 <= s.len(),
{
    s[i] as nat + 0x100 * (s[i + 1] as nat) + 0x1_0000 * (s[i + 2] as nat) + 0x100_0000 * (s[i
        + 3] as nat)
}

/// Reads the little-endian 32-bit value at offset `off` of `data`.
pub fn read_u32_at(data: &Vec<u8>, off: usize) -> (r: u32)
    requires
        off + 4 <= data@.len(),
    ensures
        r as nat == le32_at(data@, off as int),
{
    // Binding the length as a usize lets the prover see that the indices
    // below stay within the usize range.
    let n: usize = data.len();
    let b0 = data[off];
    let b1 = data[off + 1];
    let b2 = data[off + 2];
    let b3 = data[off + 3];
    b0 as u32 + 0x100 * (b1 as u32) + 0x1_0000 * (b2 as u32) + 0x100_0000 * (b3 as u32)
}

} // verus!
