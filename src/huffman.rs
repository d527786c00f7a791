use vstd::prelude::*;

use crate::bitstream::{
    high_bit, lemma_two_pow_monotone, lemma_two_pow_values, open_backward, padded_bits,
    BackwardBitReader,
};
use crate::error::DecodeError;
use crate::fse::{read_fse_description, two_pow, FseTable};

verus! {

/// The largest code length of a literals prefix code.
pub const MAX_CODE_BITS: u32 = 11;

/// A prefix-code decoding table: `2^max_bits` entries, indexed by the next
/// `max_bits` bits of the stream; each gives a symbol and its code length.
#[derive(Debug, Clone, PartialEq, Eq)]
pub struct HuffmanTable {
    pub max_bits: u32,
    pub symbols: Vec<u8>,
    pub lengths: Vec<u32>,
}

impl HuffmanTable {
    pub open spec fn wf(&self) -> bool {
        &&& 1 <= self.max_bits <= MAX_CODE_BITS
        &&& self.symbols@.len() == two_pow(self.max_bits as nat)
        &&& self.lengths@.len() == self.symbols@.len()
        &&& forall|i: int| 0 <= i < self.lengths@.len() ==> #[trigger] self.lengths@[i] <= self.max_bits
    }
}

fn pow2_u32(k: u32) -> (r: u32)
    requires
        k <= 12,
    ensures
        r == two_pow(k as nat),
        1 <= r <= 4096,
{
    let mut r: u32 = 1;
    let mut i: u32 = 0;
    while i < k
        invariant
            i <= k <= 12,
            r == two_pow(i as nat),
            1 <= r <= 4096,
            r <= two_pow(i as nat),
            i < 12 ==> r <= 2048,
            i < 11 ==> r <= 1024,
            i < 10 ==> r <= 512,
            i < 9 ==> r <= 256,
            i < 8 ==> r <= 128,
            i < 7 ==> r <= 64,
            i < 6 ==> r <= 32,
            i < 5 ==> r <= 16,
            i < 4 ==> r <= 8,
            i < 3 ==> r <= 4,
            i < 2 ==> r <= 2,
            i < 1 ==> r <= 1,
        decreases k - i,
    {
        r = r * 2;
        i = i + 1;
    }
    r
}

/// The highest set bit of a positive value.
pub open spec fn high_bit_nat(v: nat) -> nat
    decreases v,
{
    if v <= 1 {
        0
    } else {
        1 + high_bit_nat(v / 2)
    }
}

fn high_bit_u32(v: u32) -> (r: u32)
    requires
        0 < v,
    ensures
        r == high_bit_nat(v as nat),
        r < v,
{
    let mut r: u32 = 0;
    let mut b: u32 = v;
    while b > 1
        invariant
            1 <= b,
            r + high_bit_nat(b as nat) == high_bit_nat(v as nat),
            r + b <= v,
        decreases b,
    {
        b = b / 2;
        r = r + 1;
    }
    r
}

proof fn lemma_two_pow_values_small()
    ensures
        two_pow(14) == 16384,
        two_pow(15) == 32768,
{
    reveal_with_fuel(two_pow, 16);
}

/// Weight `i` of the ones packed two per byte after the header byte at `p`, the
/// high half of each byte first.
pub open spec fn packed_weight(s: Seq<u8>, p: int, i: int) -> u8 {
    let b = s[p + 1 + i / 2];
    if i % 2 == 0 {
        b / 16
    } else {
        b % 16
    }
}

/// Reads the code-length weights at `src[p..end]`: a header byte, then either
/// 4-bit weights packed two per byte or weights coded with a two-state table.
/// Returns the weights of all symbols but the last, and the bytes used.
pub fn read_weights(src: &Vec<u8>, p: usize, end: usize) -> (r: Result<(Vec<u8>, usize), DecodeError>)
    requires
        p <= end <= src.len(),
    ensures
        p == end ==> r == Err::<(Vec<u8>, usize), DecodeError>(DecodeError::TruncatedInput),
        p < end && src@[p as int] >= 128 ==> {
            let n = src@[p as int] - 127;
            let nbytes = (n + 1) / 2;
            &&& p + 1 + nbytes > end ==> r == Err::<(Vec<u8>, usize), DecodeError>(
                DecodeError::TruncatedInput,
            )
            &&& p + 1 + nbytes <= end ==> r is Ok && r->Ok_0.1 == 1 + nbytes && r->Ok_0.0@
                == Seq::new(n as nat, |i: int| packed_weight(src@, p as int, i))
        },
        r is Ok ==> {
            let (w, used) = r->Ok_0;
            &&& p + used <= end
            &&& w@.len() <= 255
        },
{
    if p >= end {
        return Err(DecodeError::TruncatedInput);
    }
    let hb = src[p] as usize;
    let mut weights: Vec<u8> = Vec::new();
    if hb >= 128 {
        let n = hb - 127;
        let nbytes = (n + 1) / 2;
        if nbytes > end - p - 1 {
            return Err(DecodeError::TruncatedInput);
        }
        let mut i: usize = 0;
        while i < n
            invariant
                i <= n <= 128,
                p + 1 + (n + 1) / 2 <= end <= src.len(),
                n == src@[p as int] - 127,
                weights@ == Seq::new(i as nat, |j: int| packed_weight(src@, p as int, j)),
            decreases n - i,
        {
            let b = src[p + 1 + i / 2];
            weights.push(
                if i % 2 == 0 {
                    b / 16
                } else {
                    b % 16
                },
            );
            i = i + 1;
            assert(weights@ =~= Seq::new(i as nat, |j: int| packed_weight(src@, p as int, j)));
        }
        return Ok((weights, 1 + nbytes));
    }
    if hb == 0 || hb > end - p - 1 {
        return Err(DecodeError::HuffmanDecodeFailure);
    }
    let region_end = p + 1 + hb;
    let (t, used) = read_fse_description(src, p + 1, region_end, 11)?;
    if t.accuracy_log > 6 {
        return Err(DecodeError::HuffmanDecodeFailure);
    }
    let mut br = open_backward(src, p + 1 + used, region_end)?;
    let mut s1 = fse_state(&mut br, src, &t)?;
    let mut s2 = fse_state(&mut br, src, &t)?;
    let mut done = false;
    while !done
        invariant
            br.wf(src@),
            s1 < t.entries@.len(),
            s2 < t.entries@.len(),
            weights@.len() <= 255,
            p < end <= src@.len(),
            src@[p as int] < 128,
        decreases 255 - weights@.len(), if done { 0int } else { 1int },
    {
        if weights.len() > 252 {
            return Err(DecodeError::HuffmanDecodeFailure);
        }
        weights.push(t.entries[s1].symbol);
        let (n1, over1) = fse_step(&mut br, src, &t, s1)?;
        s1 = n1;
        if over1 {
            weights.push(t.entries[s2].symbol);
            done = true;
        } else {
            weights.push(t.entries[s2].symbol);
            let (n2, over2) = fse_step(&mut br, src, &t, s2)?;
            s2 = n2;
            if over2 {
                weights.push(t.entries[s1].symbol);
                done = true;
            }
        }
    }
    Ok((weights, 1 + hb))
}

fn fse_state(br: &mut BackwardBitReader, src: &Vec<u8>, t: &FseTable) -> (r: Result<usize, DecodeError>)
    requires
        old(br).wf(src@),
    ensures
        final(br).wf(src@),
        r is Ok ==> r->Ok_0 < t.entries@.len(),
{
    if t.accuracy_log > 32 {
        return Err(DecodeError::HuffmanDecodeFailure);
    }
    let v = br.read_bits(src, t.accuracy_log as u64)?;
    if v >= t.entries.len() as u64 {
        return Err(DecodeError::HuffmanDecodeFailure);
    }
    Ok(v as usize)
}

/// Moves a weight-decoding state on, reading its fresh bits with zeros past the
/// start of the stream; the flag tells whether any were past it.
fn fse_step(br: &mut BackwardBitReader, src: &Vec<u8>, t: &FseTable, state: usize) -> (r: Result<
    (usize, bool),
    DecodeError,
>)
    requires
        old(br).wf(src@),
        state < t.entries@.len(),
    ensures
        final(br).wf(src@),
        r is Ok ==> r->Ok_0.0 < t.entries@.len(),
{
    let e = t.entries[state];
    if e.nb_bits > 32 {
        return Err(DecodeError::HuffmanDecodeFailure);
    }
    let (v, over) = br.read_bits_padded(src, e.nb_bits as u64);
    proof {
        lemma_two_pow_monotone(e.nb_bits as nat, 32);
        lemma_two_pow_values();
    }
    let n = e.baseline as u64 + v;
    if n >= t.entries.len() as u64 {
        return Err(DecodeError::HuffmanDecodeFailure);
    }
    Ok((n as usize, over))
}

/// The share of the code space a symbol of weight `w` takes.
pub open spec fn wcost(w: u8) -> nat {
    if w == 0 {
        0
    } else {
        two_pow((w - 1) as nat)
    }
}

pub open spec fn weight_sum(ws: Seq<u8>) -> nat
    decreases ws.len(),
{
    if ws.len() == 0 {
        0
    } else {
        weight_sum(ws.drop_last()) + wcost(ws.last())
    }
}

/// The shares of the symbols whose weight is between 1 and `lim`.
pub open spec fn part_sum(ws: Seq<u8>, lim: nat) -> nat
    decreases ws.len(),
{
    if ws.len() == 0 {
        0
    } else {
        part_sum(ws.drop_last(), lim) + if 1 <= ws.last() <= lim {
            wcost(ws.last())
        } else {
            0
        }
    }
}

/// The shares of the symbols whose weight is `w`.
pub open spec fn eq_sum(ws: Seq<u8>, w: nat) -> nat
    decreases ws.len(),
{
    if ws.len() == 0 {
        0
    } else {
        eq_sum(ws.drop_last(), w) + if ws.last() == w {
            wcost(ws.last())
        } else {
            0
        }
    }
}

/// The table entries of the symbols of weight `w` among `ws`, in symbol order:
/// each symbol fills `2^(w-1)` entries.
pub open spec fn entries_of_weight(ws: Seq<u8>, w: nat) -> Seq<u8>
    decreases ws.len(),
{
    if ws.len() == 0 {
        Seq::empty()
    } else {
        entries_of_weight(ws.drop_last(), w) + if ws.last() == w {
            Seq::new(wcost(ws.last()), |k: int| (ws.len() - 1) as u8)
        } else {
            Seq::empty()
        }
    }
}

/// The canonical code's table: the entries of weight 1, then 2, ... up to `w`.
pub open spec fn canonical_entries(ws: Seq<u8>, w: nat) -> Seq<u8>
    decreases w,
{
    if w == 0 {
        Seq::empty()
    } else {
        canonical_entries(ws, (w - 1) as nat) + entries_of_weight(ws, w)
    }
}

/// The weights of all symbols: the given ones, then the last symbol's.
pub open spec fn all_weights(ws: Seq<u8>) -> Seq<u8> {
    ws.push(last_weight_of(weight_sum(ws)) as u8)
}

/// Code length bound of weights summing to `t`.
pub open spec fn max_bits_of(t: nat) -> nat {
    high_bit_nat(t) + 1
}

/// The weight the last symbol gets so that the code is complete.
pub open spec fn last_weight_of(t: nat) -> nat {
    high_bit_nat((two_pow(max_bits_of(t)) - t) as nat) + 1
}

/// Whether `ws` (all symbols but the last) describe a complete prefix code.
pub open spec fn valid_weights(ws: Seq<u8>) -> bool {
    let t = weight_sum(ws);
    let mb = max_bits_of(t);
    let lw = last_weight_of(t);
    &&& forall|i: int| 0 <= i < ws.len() ==> #[trigger] ws[i] <= MAX_CODE_BITS
    &&& 0 < t < 2048
    &&& mb <= MAX_CODE_BITS
    &&& two_pow(mb) > t
    &&& lw <= mb
    &&& two_pow((lw - 1) as nat) == two_pow(mb) - t
    &&& forall|i: int| 0 <= i < ws.len() ==> #[trigger] ws[i] <= mb
}

proof fn lemma_part_step(ws: Seq<u8>, w: nat)
    requires
        w >= 1,
    ensures
        part_sum(ws, w) == part_sum(ws, (w - 1) as nat) + eq_sum(ws, w),
    decreases ws.len(),
{
    if ws.len() > 0 {
        lemma_part_step(ws.drop_last(), w);
    }
}

proof fn lemma_part_all(ws: Seq<u8>, lim: nat)
    requires
        forall|i: int| 0 <= i < ws.len() ==> #[trigger] ws[i] <= lim,
    ensures
        part_sum(ws, lim) == weight_sum(ws),
    decreases ws.len(),
{
    if ws.len() > 0 {
        let d = ws.drop_last();
        assert forall|i: int| 0 <= i < d.len() implies #[trigger] d[i] <= lim by {
            assert(d[i] == ws[i]);
        }
        lemma_part_all(d, lim);
    }
}

proof fn lemma_part_zero(ws: Seq<u8>)
    ensures
        part_sum(ws, 0) == 0,
    decreases ws.len(),
{
    if ws.len() > 0 {
        lemma_part_zero(ws.drop_last());
    }
}

proof fn lemma_part_monotone(ws: Seq<u8>, a: nat, b: nat)
    requires
        a <= b,
    ensures
        part_sum(ws, a) <= part_sum(ws, b),
    decreases ws.len(),
{
    if ws.len() > 0 {
        lemma_part_monotone(ws.drop_last(), a, b);
    }
}

proof fn lemma_eq_prefix(ws: Seq<u8>, k: int, w: nat)
    requires
        0 <= k < ws.len(),
    ensures
        eq_sum(ws.subrange(0, k + 1), w) == eq_sum(ws.subrange(0, k), w) + if ws[k] == w {
            wcost(ws[k])
        } else {
            0
        },
        eq_sum(ws.subrange(0, k + 1), w) <= eq_sum(ws, w),
    decreases ws.len() - k,
{
    assert(ws.subrange(0, k + 1).drop_last() =~= ws.subrange(0, k));
    if k + 1 < ws.len() {
        lemma_eq_prefix(ws, k + 1, w);
    } else {
        assert(ws.subrange(0, k + 1) =~= ws);
    }
}

/// Builds the decoding table of the given weights; the last symbol's weight is
/// the one that completes the code.
pub fn build_huffman_table(weights: &Vec<u8>) -> (r: Result<HuffmanTable, DecodeError>)
    requires
        weights@.len() <= 255,
    ensures
        r is Ok <==> valid_weights(weights@),
        r is Err ==> r == Err::<HuffmanTable, DecodeError>(DecodeError::HuffmanDecodeFailure),
        r is Ok ==> r->Ok_0.wf() && r->Ok_0.max_bits == max_bits_of(weight_sum(weights@)),
        r is Ok ==> r->Ok_0.symbols@ == canonical_entries(
            all_weights(weights@),
            r->Ok_0.max_bits as nat,
        ),

{
    let n = weights.len();
    let mut total: u32 = 0;
    let mut i: usize = 0;
    while i < n
        invariant
            i <= n <= 255,
            n == weights@.len(),
            total <= 4096 * i,
            total == weight_sum(weights@.subrange(0, i as int)),
            forall|j: int| 0 <= j < i ==> #[trigger] weights@[j] <= MAX_CODE_BITS,
        decreases n - i,
    {
        let w = weights[i];
        assert(weights@.subrange(0, i + 1).drop_last() =~= weights@.subrange(0, i as int));
        if w as u32 > MAX_CODE_BITS {
            return Err(DecodeError::HuffmanDecodeFailure);
        }
        if w > 0 {
            let c = pow2_u32(w as u32 - 1);
            total = total + c;
        }
        i = i + 1;
    }
    assert(weights@.subrange(0, n as int) =~= weights@);
    if total == 0 || total >= 2048 {
        return Err(DecodeError::HuffmanDecodeFailure);
    }
    let hb = high_bit_u32(total);
    if hb + 1 > MAX_CODE_BITS {
        return Err(DecodeError::HuffmanDecodeFailure);
    }
    let max_bits = hb + 1;
    let size = pow2_u32(max_bits);
    if size <= total {
        return Err(DecodeError::HuffmanDecodeFailure);
    }
    let rest = size - total;
    let last_hb = high_bit_u32(rest);
    if last_hb + 1 > max_bits {
        return Err(DecodeError::HuffmanDecodeFailure);
    }
    let last_w = last_hb + 1;
    if pow2_u32(last_w - 1) != rest {
        return Err(DecodeError::HuffmanDecodeFailure);
    }
    let mut all: Vec<u8> = Vec::new();
    let mut i: usize = 0;
    while i < n
        invariant
            i <= n <= 255,
            n == weights@.len(),
            all@ == weights@.subrange(0, i as int),
            forall|j: int| 0 <= j < i ==> #[trigger] weights@[j] <= max_bits,
            forall|j: int| 0 <= j < n ==> #[trigger] weights@[j] <= MAX_CODE_BITS,
            total == weight_sum(weights@),
            0 < total < 2048,
            max_bits == max_bits_of(total as nat),
            max_bits <= MAX_CODE_BITS,
            size == two_pow(max_bits as nat),
            size > total,
            rest == size - total,
            last_w == last_weight_of(total as nat),
            last_w <= max_bits,
            two_pow((last_w - 1) as nat) == rest,
        decreases n - i,
    {
        let w = weights[i];
        if w as u32 > max_bits {
            return Err(DecodeError::HuffmanDecodeFailure);
        }
        all.push(w);
        i = i + 1;
        assert(all@ =~= weights@.subrange(0, i as int));
    }
    assert(all@ =~= weights@);
    assert(valid_weights(weights@));
    let ghost ws = weights@;
    all.push(last_w as u8);
    assert(all@ == all_weights(weights@));
    proof {
        assert(all@.drop_last() =~= ws);
        assert(weight_sum(all@) == size);
        assert forall|j: int| 0 <= j < all@.len() implies #[trigger] all@[j] <= max_bits by {
            if j < ws.len() {
                assert(all@[j] == ws[j]);
            }
        }
        lemma_part_all(all@, max_bits as nat);
        lemma_part_zero(all@);
    }
    let mut symbols: Vec<u8> = Vec::new();
    let mut lengths: Vec<u32> = Vec::new();
    let mut w: u32 = 1;
    while w <= max_bits
        invariant
            1 <= w <= max_bits + 1,
            max_bits <= MAX_CODE_BITS,
            size <= 4096,
            size == part_sum(all@, max_bits as nat),
            size == two_pow(max_bits as nat),
            valid_weights(weights@),
            max_bits == max_bits_of(weight_sum(weights@)),
            symbols@.len() == lengths@.len(),
            symbols@.len() == part_sum(all@, (w - 1) as nat),
            all@.len() <= 256,
            forall|j: int| 0 <= j < lengths@.len() ==> #[trigger] lengths@[j] <= max_bits,
            all@ == all_weights(weights@),
            symbols@ == canonical_entries(all@, (w - 1) as nat),
        decreases max_bits + 1 - w,
    {
        proof {
            lemma_part_step(all@, w as nat);
            lemma_part_monotone(all@, w as nat, max_bits as nat);
        }
        let mut s: usize = 0;
        while s < all.len()
            invariant
                1 <= w <= max_bits <= MAX_CODE_BITS,
                size <= 4096,
                s <= all@.len() <= 256,
                symbols@.len() == lengths@.len(),
                symbols@.len() == part_sum(all@, (w - 1) as nat) + eq_sum(
                    all@.subrange(0, s as int),
                    w as nat,
                ),
                part_sum(all@, (w - 1) as nat) + eq_sum(all@, w as nat) <= size,
                valid_weights(weights@),
                forall|j: int| 0 <= j < lengths@.len() ==> #[trigger] lengths@[j] <= max_bits,
                symbols@ == canonical_entries(all@, (w - 1) as nat) + entries_of_weight(
                    all@.subrange(0, s as int),
                    w as nat,
                ),
            decreases all@.len() - s,
        {
            proof {
                lemma_eq_prefix(all@, s as int, w as nat);
            }
            if all[s] as u32 == w {
                let c = pow2_u32(w - 1);
                if c as usize > size as usize - symbols.len() {
                    return Err(DecodeError::HuffmanDecodeFailure);
                }
                let ghost before_len = symbols@.len();
                let ghost before = symbols@;
                let mut k: u32 = 0;
                while k < c
                    invariant
                        k <= c,
                        symbols@.len() == before_len + k,
                        symbols@ == before + Seq::new(k as nat, |j: int| s as u8),
                        s < all@.len() <= 256,
                        all@[s as int] == w,
                        1 <= w <= max_bits <= MAX_CODE_BITS,
                        symbols@.len() == lengths@.len(),
                        symbols@.len() + (c - k) <= size,
                        forall|j: int|
                            0 <= j < lengths@.len() ==> #[trigger] lengths@[j] <= max_bits,
                    decreases c - k,
                {
                    let ghost os = symbols@;
                    let ghost ol = lengths@;
                    symbols.push(s as u8);
                    lengths.push(max_bits + 1 - w);
                    assert(symbols@ == os.push(s as u8));
                    assert(lengths@ == ol.push((max_bits + 1 - w) as u32));
                    assert(symbols@ =~= before + Seq::new((k + 1) as nat, |j: int| s as u8));
                    k = k + 1;
                }
            }
            proof {
                assert(all@.subrange(0, s + 1).drop_last() =~= all@.subrange(0, s as int));
            }
            s = s + 1;
        }
        assert(all@.subrange(0, all@.len() as int) =~= all@);
        w = w + 1;
    }
    if symbols.len() != size as usize {
        return Err(DecodeError::HuffmanDecodeFailure);
    }
    Ok(HuffmanTable { max_bits, symbols, lengths })
}

/// Decoding `count` more symbols of the stream section `s`, `rem` bits still
/// unread, onto `acc`: each symbol is the entry the next `max_bits` bits (zeros
/// past the start) select, and uses up that entry's length; the bits must run
/// out exactly with the last symbol.
pub open spec fn prefix_decode(t: HuffmanTable, s: Seq<u8>, rem: nat, count: nat, acc: Seq<u8>) -> Option<
    Seq<u8>,
>
    decreases count,
{
    if count == 0 {
        if rem == 0 {
            Some(acc)
        } else {
            None
        }
    } else {
        let v = padded_bits(s, rem, t.max_bits as nat) as int;
        let len = t.lengths@[v] as nat;
        if len > rem {
            None
        } else {
            prefix_decode(t, s, (rem - len) as nat, (count - 1) as nat, acc.push(t.symbols@[v]))
        }
    }
}

/// Decoding `count` symbols of the stream `src[start..end]` onto `acc`; the last
/// byte's highest set bit marks where the stream's bits end.
pub open spec fn stream_decode(
    t: HuffmanTable,
    src: Seq<u8>,
    start: int,
    end: int,
    count: nat,
    acc: Seq<u8>,
) -> Option<Seq<u8>> {
    if start >= end || src[end - 1] == 0 || end - start > 0x1000_0000 {
        None
    } else {
        prefix_decode(
            t,
            src.subrange(start, end),
            (8 * (end - start - 1) + high_bit(src[end - 1])) as nat,
            count,
            acc,
        )
    }
}

/// Decodes `count` symbols from the stream `src[start..end]`, which must be used
/// up exactly.
fn decode_stream(src: &Vec<u8>, start: usize, end: usize, t: &HuffmanTable, count: usize, out: &mut Vec<u8>) -> (r:
    Result<(), DecodeError>)
    requires
        start <= end <= src.len(),
        t.wf(),
    ensures
        r is Ok <==> stream_decode(*t, src@, start as int, end as int, count as nat, old(out)@) is Some,
        r is Ok ==> Some(final(out)@) == stream_decode(
            *t,
            src@,
            start as int,
            end as int,
            count as nat,
            old(out)@,
        ),
        r is Ok ==> final(out)@.len() == old(out)@.len() + count,
{
    let ghost target = stream_decode(*t, src@, start as int, end as int, count as nat, old(out)@);
    let mut br = open_backward(src, start, end)?;
    proof {
        if target is Some {
            lemma_prefix_len(*t, br.section(src@), br.remaining as nat, count as nat, old(out)@);
        }
    }
    let mut i: usize = 0;
    while i < count
        invariant
            i <= count,
            br.wf(src@),
            br.start == start && br.end == end,
            t.wf(),
            prefix_decode(*t, br.section(src@), br.remaining as nat, (count - i) as nat, out@)
                == target,
            target == stream_decode(*t, src@, start as int, end as int, count as nat, old(out)@),
        decreases count - i,
    {
        let v = br.peek_bits_padded(src, t.max_bits as u64);
        proof {
            lemma_two_pow_monotone(t.max_bits as nat, 32);
            lemma_two_pow_values();
        }
        let sym = t.symbols[v as usize];
        let len = t.lengths[v as usize];
        if len as u64 > br.remaining {
            return Err(DecodeError::HuffmanDecodeFailure);
        }
        let _ = br.read_bits(src, len as u64);
        out.push(sym);
        i = i + 1;
    }
    if br.remaining != 0 {
        return Err(DecodeError::HuffmanDecodeFailure);
    }
    Ok(())
}

fn read_u16(src: &Vec<u8>, i: usize) -> (r: usize)
    requires
        i + 2 <= src.len(),
    ensures
        r < 65536,
        r == src@[i as int] + 256 * src@[i + 1],
{
    src[i] as usize + 256 * src[i + 1] as usize
}

/// Decoded symbols come one per count.
proof fn lemma_prefix_len(t: HuffmanTable, s: Seq<u8>, rem: nat, count: nat, acc: Seq<u8>)
    requires
        prefix_decode(t, s, rem, count, acc) is Some,
    ensures
        prefix_decode(t, s, rem, count, acc)->Some_0.len() == acc.len() + count,
    decreases count,
{
    if count > 0 {
        let v = padded_bits(s, rem, t.max_bits as nat) as int;
        let len = t.lengths@[v] as nat;
        lemma_prefix_len(t, s, (rem - len) as nat, (count - 1) as nat, acc.push(t.symbols@[v]));
    }
}

/// The stream size the jump table at `q` gives at index `k`.
pub open spec fn jump_len(src: Seq<u8>, q: int, k: int) -> int {
    src[q + 2 * k] + 256 * src[q + 2 * k + 1]
}

/// The literals that `regen` symbols coded with `t` in `src[q..end]` decode to:
/// one stream, or a six-byte jump table of three stream sizes and four streams,
/// the first three of a quarter of the symbols (rounded up) each.
pub open spec fn streams_decode(
    t: HuffmanTable,
    src: Seq<u8>,
    q: int,
    end: int,
    regen: nat,
    four: bool,
) -> Option<Seq<u8>> {
    if !four {
        stream_decode(t, src, q, end, regen, Seq::empty())
    } else if end - q < 6 {
        None
    } else {
        let l1 = jump_len(src, q, 0);
        let l2 = jump_len(src, q, 1);
        let l3 = jump_len(src, q, 2);
        let d = q + 6;
        let seg = (regen / 4 + if regen % 4 != 0 {
            1int
        } else {
            0
        }) as nat;
        if l1 + l2 + l3 > end - d || 3 * seg > regen {
            None
        } else {
            match stream_decode(t, src, d, d + l1, seg, Seq::empty()) {
                None => None,
                Some(a) => match stream_decode(t, src, d + l1, d + l1 + l2, seg, a) {
                    None => None,
                    Some(b) => match stream_decode(t, src, d + l1 + l2, d + l1 + l2 + l3, seg, b) {
                        None => None,
                        Some(c) => stream_decode(
                            t,
                            src,
                            d + l1 + l2 + l3,
                            end,
                            (regen - 3 * seg) as nat,
                            c,
                        ),
                    },
                },
            }
        }
    }
}

/// Decodes `regen` literals coded with `t` from `src[q..end]`: one stream, or
/// a jump table of three stream sizes and four streams.
fn decode_streams(src: &Vec<u8>, q: usize, end: usize, t: &HuffmanTable, regen: usize, four_streams: bool) -> (r:
    Result<Vec<u8>, DecodeError>)
    requires
        q <= end <= src.len(),
        t.wf(),
    ensures
        r is Ok <==> streams_decode(*t, src@, q as int, end as int, regen as nat, four_streams) is Some,
        r is Ok ==> Some(r->Ok_0@) == streams_decode(
            *t,
            src@,
            q as int,
            end as int,
            regen as nat,
            four_streams,
        ),
        r is Ok ==> r->Ok_0@.len() == regen,
{
    let mut out: Vec<u8> = Vec::new();
    assert(out@ =~= Seq::<u8>::empty());
    if !four_streams {
        decode_stream(src, q, end, t, regen, &mut out)?;
    } else {
        if end - q < 6 {
            return Err(DecodeError::HuffmanDecodeFailure);
        }
        let l1 = read_u16(src, q);
        let l2 = read_u16(src, q + 2);
        let l3 = read_u16(src, q + 4);
        let data = q + 6;
        if l1 + l2 + l3 > end - data {
            return Err(DecodeError::HuffmanDecodeFailure);
        }
        let seg = regen / 4 + if regen % 4 != 0 {
            1
        } else {
            0
        };
        if 3 * seg > regen {
            return Err(DecodeError::HuffmanDecodeFailure);
        }
        decode_stream(src, data, data + l1, t, seg, &mut out)?;
        decode_stream(src, data + l1, data + l1 + l2, t, seg, &mut out)?;
        decode_stream(src, data + l1 + l2, data + l1 + l2 + l3, t, seg, &mut out)?;
        decode_stream(src, data + l1 + l2 + l3, end, t, regen - 3 * seg, &mut out)?;
    }
    proof {
        let ghost res = streams_decode(*t, src@, q as int, end as int, regen as nat, four_streams);
        assert(res == Some(out@));
    }
    Ok(out)
}

/// Decodes `regen` entropy-coded literals from `src[p..p + size]`, with the
/// code `previous` where it is given, else with the code described at the start
/// of that range. Returns the literals and the newly described code, if any.
pub fn decode_huffman_literals(
    src: &Vec<u8>,
    p: usize,
    size: usize,
    regen: usize,
    four_streams: bool,
    previous: &Option<HuffmanTable>,
) -> (r: Result<(Vec<u8>, Option<HuffmanTable>), DecodeError>)
    requires
        p + size <= src.len(),
        previous is Some ==> previous->Some_0.wf(),
    ensures
        r is Ok ==> r->Ok_0.0@.len() == regen,
        r is Ok && r->Ok_0.1 is Some ==> r->Ok_0.1->Some_0.wf(),
        previous is Some ==> {
            let s = streams_decode(
                previous->Some_0,
                src@,
                p as int,
                (p + size) as int,
                regen as nat,
                four_streams,
            );
            &&& r is Ok <==> s is Some
            &&& r is Ok ==> Some(r->Ok_0.0@) == s && r->Ok_0.1 is None
        },
        previous is None && r is Ok ==> r->Ok_0.1 is Some && exists|q: int|
            p <= q <= p + size && Some(r->Ok_0.0@) == #[trigger] streams_decode(
                r->Ok_0.1->Some_0,
                src@,
                q,
                (p + size) as int,
                regen as nat,
                four_streams,
            ),
{
    let end = p + size;
    match previous {
        Some(t) => {
            let out = decode_streams(src, p, end, t, regen, four_streams)?;
            Ok((out, None))
        },
        None => {
            let (weights, used) = read_weights(src, p, end)?;
            let t = build_huffman_table(&weights)?;
            let out = decode_streams(src, p + used, end, &t, regen, four_streams)?;
            let ghost q = (p + used) as int;
            assert(p <= q <= p + size && Some(out@) == streams_decode(
                t,
                src@,
                q,
                (p + size) as int,
                regen as nat,
                four_streams,
            ));
            let res = (out, Some(t));
            assert(res.1->Some_0 == t);
            Ok(res)
        },
    }
}

} // verus!
