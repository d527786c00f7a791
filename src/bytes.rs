use vstd::prelude::*;

verus! {

/// Byte `i` of `s`, or zero past either end.
pub open spec fn byte_at(s: Seq<u8>, i: int) -> nat {
    if 0 <= i < s.len() {
        s[i] as nat
    } else {
        0
    }
}

/// The little-endian integer held by the `n` bytes of `s` starting at `start`.
pub open spec fn le_value(s: Seq<u8>, start: int, n: nat) -> nat
    decreases n,
{
    if n == 0 {
        0
    } else {
        byte_at(s, start) + 256 * le_value(s, start + 1, (n - 1) as nat)
    }
}

/// Reads `n` (at most eight) bytes at `start` as a little-endian integer.
pub fn read_le(src: &Vec<u8>, start: usize, n: usize) -> (v: u64)
    requires
        1 <= n <= 8,
        start + n <= src.len(),
    ensures
        v == le_value(src@, start as int, n as nat),
        n <= 2 ==> v < 0x1_0000,
        n <= 3 ==> v < 0x100_0000,
        n <= 5 ==> v < 0x100_0000_0000,
{
    let mut v: u64 = 0;
    let mut i: usize = n;
    while i > 0
        invariant
            0 <= i <= n <= 8,
            start + n <= src.len(),
            v == le_value(src@, start + i, (n - i) as nat),
            n - i == 0 ==> v < 1,
            n - i == 1 ==> v < 0x100,
            n - i == 2 ==> v < 0x1_0000,
            n - i == 3 ==> v < 0x100_0000,
            n - i == 4 ==> v < 0x1_0000_0000,
            n - i == 5 ==> v < 0x100_0000_0000,
            n - i == 6 ==> v < 0x1_0000_0000_0000,
            n - i == 7 ==> v < 0x100_0000_0000_0000,
        decreases i,
    {
        i = i - 1;
        let b = src[start + i];
        assert(byte_at(src@, start + i) == b as nat);
        v = v * 256 + b as u64;
    }
    v
}

} // verus!
