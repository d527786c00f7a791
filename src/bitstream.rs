use vstd::prelude::*;

use crate::error::DecodeError;
use crate::fse::two_pow;

verus! {

/// Bit `k` of `s`, counting from the least significant bit of the first byte.
pub open spec fn bit_at(s: Seq<u8>, k: int) -> nat {
    (s[k / 8] as nat / two_pow((k % 8) as nat)) % 2
}

/// The `n` bits of `s` from bit `lo` upward, read as a little-endian integer.
pub open spec fn bits_value(s: Seq<u8>, lo: int, n: nat) -> nat
    decreases n,
{
    if n == 0 {
        0
    } else {
        bit_at(s, lo) + 2 * bits_value(s, lo + 1, (n - 1) as nat)
    }
}

/// `n` bits hold less than `2^n`.
pub proof fn lemma_bits_value_bound(s: Seq<u8>, lo: int, n: nat)
    ensures
        bits_value(s, lo, n) < two_pow(n),
    decreases n,
{
    if n > 0 {
        lemma_bits_value_bound(s, lo + 1, (n - 1) as nat);
    }
}

/// The `n` bits just below bit `rem` of `s`, the bits below bit 0 reading as
/// zeros.
pub open spec fn padded_bits(s: Seq<u8>, rem: nat, n: nat) -> nat {
    if n <= rem {
        bits_value(s, rem - n, n)
    } else {
        bits_value(s, 0, rem) * two_pow((n - rem) as nat)
    }
}

/// The most significant set bit of a nonzero byte.
pub open spec fn high_bit(b: u8) -> nat
    decreases b,
{
    if b <= 1 {
        0
    } else {
        1 + high_bit(b / 2)
    }
}

/// The bits of `src[start..end]`, read from the end backward: `remaining` bits
/// below the read position are still unread.
#[derive(Debug, Clone, Copy)]
pub struct BackwardBitReader {
    pub start: usize,
    pub end: usize,
    pub remaining: u64,
}

impl BackwardBitReader {
    pub open spec fn section(&self, src: Seq<u8>) -> Seq<u8> {
        src.subrange(self.start as int, self.end as int)
    }

    pub open spec fn wf(&self, src: Seq<u8>) -> bool {
        &&& self.start < self.end <= src.len()
        &&& self.remaining < 8 * (self.end - self.start)
    }
}

/// Powers of two grow with the exponent.
pub proof fn lemma_two_pow_monotone(a: nat, b: nat)
    requires
        a <= b,
    ensures
        two_pow(a) <= two_pow(b),
    decreases b,
{
    if a < b {
        lemma_two_pow_monotone(a, (b - 1) as nat);
    }
}

/// The powers of two that bound bit-field reads.
pub proof fn lemma_two_pow_values()
    ensures
        two_pow(30) == 0x4000_0000,
        two_pow(31) == 0x8000_0000,
        two_pow(32) == 0x1_0000_0000,
{
    reveal_with_fuel(two_pow, 33);
}

proof fn lemma_high_bit(b: u8)
    requires
        b > 0,
    ensures
        high_bit(b) < 8,
        two_pow(high_bit(b)) <= b,
    decreases b,
{
    reveal_with_fuel(two_pow, 9);
    if b > 1 {
        lemma_high_bit(b / 2);
    }
}

fn pow2_small(k: u64) -> (r: u32)
    requires
        k < 8,
    ensures
        r == two_pow(k as nat),
        r > 0,
{
    proof {
        reveal_with_fuel(two_pow, 9);
    }
    if k == 0 {
        1
    } else if k == 1 {
        2
    } else if k == 2 {
        4
    } else if k == 3 {
        8
    } else if k == 4 {
        16
    } else if k == 5 {
        32
    } else if k == 6 {
        64
    } else {
        128
    }
}

/// Opens the section `src[start..end]`: its last byte must hold the marker bit,
/// the highest set one, below which reading begins.
pub fn open_backward(src: &Vec<u8>, start: usize, end: usize) -> (r: Result<BackwardBitReader, DecodeError>)
    requires
        start <= end <= src.len(),
    ensures
        (start == end || src@[end - 1] == 0 || end - start > 0x1000_0000) ==> r == Err::<
            BackwardBitReader,
            DecodeError,
        >(DecodeError::MalformedHeader),
        !(start == end || src@[end - 1] == 0 || end - start > 0x1000_0000) ==> r is Ok,
        r is Ok ==> {
            let br = r->Ok_0;
            &&& br.wf(src@)
            &&& br.start == start && br.end == end
            &&& br.remaining == 8 * (end - start - 1) + high_bit(src@[end - 1])
        },
{
    if start == end || end - start > 0x1000_0000 {
        return Err(DecodeError::MalformedHeader);
    }
    let last = src[end - 1];
    if last == 0 {
        return Err(DecodeError::MalformedHeader);
    }
    proof {
        lemma_high_bit(last);
    }
    let mut h: u64 = 0;
    let mut b: u8 = last;
    while b > 1
        invariant
            b > 0,
            h + high_bit(b) == high_bit(last),
            h <= 8,
            high_bit(last) < 8,
        decreases b,
    {
        b = b / 2;
        h = h + 1;
    }
    Ok(BackwardBitReader { start, end, remaining: 8 * ((end - start - 1) as u64) + h })
}

impl BackwardBitReader {
    /// Reads the `n` bits just below the read position, the highest first, as a
    /// little-endian integer, and moves the position down past them.
    pub fn read_bits(&mut self, src: &Vec<u8>, n: u64) -> (r: Result<u64, DecodeError>)
        requires
            old(self).wf(src@),
            n <= 32,
        ensures
            n > old(self).remaining ==> r == Err::<u64, DecodeError>(DecodeError::TruncatedInput)
                && *final(self) == *old(self),
            n <= old(self).remaining ==> {
                &&& r == Ok::<u64, DecodeError>(
                    bits_value(old(self).section(src@), old(self).remaining - n, n as nat) as u64,
                )
                &&& final(self).start == old(self).start
                &&& final(self).end == old(self).end
                &&& final(self).remaining == old(self).remaining - n
            },
            r is Ok ==> r->Ok_0 < two_pow(n as nat) && r->Ok_0 < 0x1_0000_0000,
            r is Ok ==> r->Ok_0 == bits_value(
                old(self).section(src@),
                old(self).remaining - n,
                n as nat,
            ),
            final(self).wf(src@),
    {
        if n > self.remaining {
            return Err(DecodeError::TruncatedInput);
        }
        let lo = self.remaining - n;
        let ghost s = self.section(src@);
        let mut v: u64 = 0;
        let mut j: u64 = n;
        while j > 0
            invariant
                j <= n <= 32,
                lo + n == self.remaining,
                self.wf(src@),
                s == self.section(src@),
                v == bits_value(s, lo + j, (n - j) as nat),
                v < two_pow((n - j) as nat),
            decreases j,
        {
            j = j - 1;
            let k = lo + j;
            let byte = src[self.start + (k / 8) as usize];
            let d = pow2_small(k % 8);
            let bit = ((byte as u32) / d) % 2;
            proof {
                assert(s[(k / 8) as int] == byte);
                assert(bit == bit_at(s, k as int));
                lemma_two_pow_monotone((n - j) as nat, 32);
                lemma_two_pow_values();
                assert(two_pow((n - j + 1) as nat) == 2 * two_pow((n - j) as nat));
            }
            v = 2 * v + bit as u64;
        }
        proof {
            lemma_two_pow_monotone(n as nat, 32);
            lemma_two_pow_values();
        }
        self.remaining = lo;
        Ok(v)
    }

    /// Reads `n` bits as `read_bits` does, except that bits below the start of
    /// the section read as zeros; the flag tells whether any did.
    pub fn read_bits_padded(&mut self, src: &Vec<u8>, n: u64) -> (r: (u64, bool))
        requires
            old(self).wf(src@),
            n <= 32,
        ensures
            final(self).wf(src@),
            final(self).start == old(self).start && final(self).end == old(self).end,
            r.1 == (n > old(self).remaining),
            r.1 ==> final(self).remaining == 0,
            !r.1 ==> final(self).remaining == old(self).remaining - n,
            r.0 < two_pow(n as nat),
            r.0 == padded_bits(old(self).section(src@), old(self).remaining as nat, n as nat),
    {
        if n <= self.remaining {
            let ghost s0 = self.section(src@);
            let ghost rem0 = self.remaining;
            match self.read_bits(src, n) {
                Ok(v) => {
                    proof {
                        lemma_bits_value_bound(s0, rem0 - n, n as nat);
                        lemma_two_pow_monotone(n as nat, 32);
                        lemma_two_pow_values();
                    }
                    assert(v == bits_value(s0, rem0 - n, n as nat));
                    (v, false)
                },
                Err(_) => (0, false),
            }
        } else {
            let have = self.remaining;
            let mut v = match self.read_bits(src, have) {
                Ok(v) => v,
                Err(_) => 0,
            };
            let ghost base = bits_value(old(self).section(src@), 0, have as nat);
            proof {
                lemma_bits_value_bound(old(self).section(src@), 0, have as nat);
                lemma_two_pow_monotone(have as nat, 32);
                lemma_two_pow_values();
            }
            assert(v == base);
            assert(two_pow(0) == 1);
            assert(base * two_pow(0) == base);
            assert(v == base * two_pow((have - have) as nat));
            let mut k: u64 = have;
            while k < n
                invariant
                    have <= k <= n <= 32,
                    v < two_pow(k as nat),
                    v == base * two_pow((k - have) as nat),
                decreases n - k,
            {
                proof {
                    lemma_two_pow_monotone(k as nat, 31);
                    lemma_two_pow_values();
                    assert(two_pow((k + 1) as nat) == 2 * two_pow(k as nat));
                    assert(two_pow((k + 1 - have) as nat) == 2 * two_pow((k - have) as nat));
                    assert(2 * (base * two_pow((k - have) as nat)) == base * (2 * two_pow(
                        (k - have) as nat,
                    ))) by (nonlinear_arith);
                }
                v = 2 * v;
                k = k + 1;
            }
            (v, true)
        }
    }

    /// The value the next `n` padded bits hold, without reading them.
    pub fn peek_bits_padded(&self, src: &Vec<u8>, n: u64) -> (r: u64)
        requires
            self.wf(src@),
            n <= 32,
        ensures
            r < two_pow(n as nat),
            r == padded_bits(self.section(src@), self.remaining as nat, n as nat),
    {
        let mut c = *self;
        let (v, _) = c.read_bits_padded(src, n);
        v
    }
}

/// The bits of `src[start..end]`, read from the first byte forward: `pos` bits
/// have been read.
pub struct ForwardBitReader {
    pub start: usize,
    pub end: usize,
    pub pos: u64,
}

impl ForwardBitReader {
    pub open spec fn section(&self, src: Seq<u8>) -> Seq<u8> {
        src.subrange(self.start as int, self.end as int)
    }

    pub open spec fn wf(&self, src: Seq<u8>) -> bool {
        &&& self.start <= self.end <= src.len()
        &&& self.end - self.start <= 0x1000_0000
        &&& self.pos <= 8 * (self.end - self.start)
    }

    /// Starts reading `src[start..end]` at its first bit.
    pub fn new(src: &Vec<u8>, start: usize, end: usize) -> (r: Result<ForwardBitReader, DecodeError>)
        requires
            start <= end <= src.len(),
        ensures
            r is Ok ==> r->Ok_0.wf(src@) && r->Ok_0.start == start && r->Ok_0.end == end
                && r->Ok_0.pos == 0,
            end - start > 0x1000_0000 ==> r == Err::<ForwardBitReader, DecodeError>(
                DecodeError::MalformedHeader,
            ),
            end - start <= 0x1000_0000 ==> r is Ok,
    {
        if end - start > 0x1000_0000 {
            return Err(DecodeError::MalformedHeader);
        }
        Ok(ForwardBitReader { start, end, pos: 0 })
    }

    /// Number of whole bytes the bits read so far touch.
    pub fn bytes_used(&self) -> (r: usize)
        requires
            self.end - self.start <= 0x1000_0000,
            self.pos <= 8 * (self.end - self.start),
        ensures
            r == (self.pos + 7) / 8,
            r <= self.end - self.start,
    {
        ((self.pos + 7) / 8) as usize
    }

    /// Reads the next `n` bits as a little-endian integer.
    pub fn read_bits(&mut self, src: &Vec<u8>, n: u64) -> (r: Result<u64, DecodeError>)
        requires
            old(self).wf(src@),
            n <= 32,
        ensures
            final(self).wf(src@),
            final(self).start == old(self).start && final(self).end == old(self).end,
            old(self).pos + n > 8 * (old(self).end - old(self).start) ==> r == Err::<
                u64,
                DecodeError,
            >(DecodeError::TruncatedInput) && final(self).pos == old(self).pos,
            old(self).pos + n <= 8 * (old(self).end - old(self).start) ==> {
                &&& r == Ok::<u64, DecodeError>(
                    bits_value(old(self).section(src@), old(self).pos as int, n as nat) as u64,
                )
                &&& final(self).pos == old(self).pos + n
            },
            r is Ok ==> r->Ok_0 < two_pow(n as nat) && r->Ok_0 < 0x1_0000_0000,
    {
        let total = 8 * ((self.end - self.start) as u64);
        if n > total - self.pos {
            return Err(DecodeError::TruncatedInput);
        }
        let lo = self.pos;
        let ghost s = self.section(src@);
        let mut v: u64 = 0;
        let mut j: u64 = n;
        while j > 0
            invariant
                j <= n <= 32,
                lo + n <= total,
                total == 8 * (self.end - self.start),
                self.wf(src@),
                s == self.section(src@),
                v == bits_value(s, lo + j, (n - j) as nat),
                v < two_pow((n - j) as nat),
            decreases j,
        {
            j = j - 1;
            let k = lo + j;
            let byte = src[self.start + (k / 8) as usize];
            let d = pow2_small(k % 8);
            let bit = ((byte as u32) / d) % 2;
            proof {
                assert(s[(k / 8) as int] == byte);
                assert(bit == bit_at(s, k as int));
                lemma_two_pow_monotone((n - j) as nat, 32);
                lemma_two_pow_values();
                assert(two_pow((n - j + 1) as nat) == 2 * two_pow((n - j) as nat));
            }
            v = 2 * v + bit as u64;
        }
        proof {
            lemma_two_pow_monotone(n as nat, 32);
            lemma_two_pow_values();
        }
        self.pos = lo + n;
        Ok(v)
    }
}

} // verus!
