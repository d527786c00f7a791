use vstd::prelude::*;

use crate::bitstream::{
    bits_value, high_bit, lemma_two_pow_monotone, lemma_two_pow_values, open_backward, BackwardBitReader,
};
use crate::error::DecodeError;
use crate::fse::{build_fse_table, read_fse_description, two_pow, FseEntry, FseTable};
use crate::huffman::HuffmanTable;
use crate::sequences::Sequence;

verus! {

/// Baseline and extra-bit count of a literal-length code.
pub open spec fn ll_code_spec(code: u8) -> (u32, u32) {
    if code < 16 {
        (code as u32, 0)
    } else if code == 16 {
        (16, 1)
    } else if code == 17 {
        (18, 1)
    } else if code == 18 {
        (20, 1)
    } else if code == 19 {
        (22, 1)
    } else if code == 20 {
        (24, 2)
    } else if code == 21 {
        (28, 2)
    } else if code == 22 {
        (32, 3)
    } else if code == 23 {
        (40, 3)
    } else if code == 24 {
        (48, 4)
    } else if code == 25 {
        (64, 6)
    } else if code == 26 {
        (128, 7)
    } else if code == 27 {
        (256, 8)
    } else if code == 28 {
        (512, 9)
    } else if code == 29 {
        (1024, 10)
    } else if code == 30 {
        (2048, 11)
    } else if code == 31 {
        (4096, 12)
    } else if code == 32 {
        (8192, 13)
    } else if code == 33 {
        (16384, 14)
    } else if code == 34 {
        (32768, 15)
    } else {
        (65536, 16)
    }
}

/// Baseline and extra-bit count of a match-length code.
pub open spec fn ml_code_spec(code: u8) -> (u32, u32) {
    if code < 32 {
        ((code + 3) as u32, 0)
    } else if code == 32 {
        (35, 1)
    } else if code == 33 {
        (37, 1)
    } else if code == 34 {
        (39, 1)
    } else if code == 35 {
        (41, 1)
    } else if code == 36 {
        (43, 2)
    } else if code == 37 {
        (47, 2)
    } else if code == 38 {
        (51, 3)
    } else if code == 39 {
        (59, 3)
    } else if code == 40 {
        (67, 4)
    } else if code == 41 {
        (83, 4)
    } else if code == 42 {
        (99, 5)
    } else if code == 43 {
        (131, 7)
    } else if code == 44 {
        (259, 8)
    } else if code == 45 {
        (515, 9)
    } else if code == 46 {
        (1027, 10)
    } else if code == 47 {
        (2051, 11)
    } else if code == 48 {
        (4099, 12)
    } else if code == 49 {
        (8195, 13)
    } else if code == 50 {
        (16387, 14)
    } else if code == 51 {
        (32771, 15)
    } else {
        (65539, 16)
    }
}

fn ll_code(code: u8) -> (r: (u32, u32))
    requires
        code <= 35,
    ensures
        r == ll_code_spec(code),
        r.1 <= 16,
        r.0 <= 65536,
{
    if code < 16 {
        (code as u32, 0)
    } else if code < 20 {
        (16 + 2 * (code as u32 - 16), 1)
    } else if code == 20 {
        (24, 2)
    } else if code == 21 {
        (28, 2)
    } else if code == 22 {
        (32, 3)
    } else if code == 23 {
        (40, 3)
    } else if code == 24 {
        (48, 4)
    } else if code == 25 {
        (64, 6)
    } else if code == 26 {
        (128, 7)
    } else if code == 27 {
        (256, 8)
    } else if code == 28 {
        (512, 9)
    } else if code == 29 {
        (1024, 10)
    } else if code == 30 {
        (2048, 11)
    } else if code == 31 {
        (4096, 12)
    } else if code == 32 {
        (8192, 13)
    } else if code == 33 {
        (16384, 14)
    } else if code == 34 {
        (32768, 15)
    } else {
        (65536, 16)
    }
}

fn ml_code(code: u8) -> (r: (u32, u32))
    requires
        code <= 52,
    ensures
        r == ml_code_spec(code),
        r.1 <= 16,
        r.0 <= 65539,
{
    if code < 32 {
        (code as u32 + 3, 0)
    } else if code < 36 {
        (35 + 2 * (code as u32 - 32), 1)
    } else if code == 36 {
        (43, 2)
    } else if code == 37 {
        (47, 2)
    } else if code == 38 {
        (51, 3)
    } else if code == 39 {
        (59, 3)
    } else if code == 40 {
        (67, 4)
    } else if code == 41 {
        (83, 4)
    } else if code == 42 {
        (99, 5)
    } else if code == 43 {
        (131, 7)
    } else if code == 44 {
        (259, 8)
    } else if code == 45 {
        (515, 9)
    } else if code == 46 {
        (1027, 10)
    } else if code == 47 {
        (2051, 11)
    } else if code == 48 {
        (4099, 12)
    } else if code == 49 {
        (8195, 13)
    } else if code == 50 {
        (16387, 14)
    } else if code == 51 {
        (32771, 15)
    } else {
        (65539, 16)
    }
}

/// The three most recent offsets, most recent first.
#[derive(Debug, Clone, Copy, PartialEq, Eq, Structural)]
pub struct RepeatOffsets {
    pub rep0: u64,
    pub rep1: u64,
    pub rep2: u64,
}

/// The offset a decoded offset value stands for, and the repeat offsets after it.
pub open spec fn resolve_offset_spec(rep: RepeatOffsets, value: u64, literal_length: u64) -> (
    u64,
    RepeatOffsets,
) {
    if value > 3 {
        let o = (value - 3) as u64;
        (o, RepeatOffsets { rep0: o, rep1: rep.rep0, rep2: rep.rep1 })
    } else {
        let idx = if literal_length == 0 {
            value + 1
        } else {
            value as int
        };
        if idx <= 1 {
            (rep.rep0, rep)
        } else if idx == 2 {
            (rep.rep1, RepeatOffsets { rep0: rep.rep1, rep1: rep.rep0, rep2: rep.rep2 })
        } else if idx == 3 {
            (rep.rep2, RepeatOffsets { rep0: rep.rep2, rep1: rep.rep0, rep2: rep.rep1 })
        } else {
            let o = if rep.rep0 > 0 {
                (rep.rep0 - 1) as u64
            } else {
                0
            };
            (o, RepeatOffsets { rep0: o, rep1: rep.rep0, rep2: rep.rep1 })
        }
    }
}

/// Resolves a decoded offset value against the repeat offsets.
pub fn resolve_offset(rep: &mut RepeatOffsets, value: u64, literal_length: u64) -> (r: u64)
    ensures
        (r, *final(rep)) == resolve_offset_spec(*old(rep), value, literal_length),
{
    if value > 3 {
        let o = value - 3;
        *rep = RepeatOffsets { rep0: o, rep1: rep.rep0, rep2: rep.rep1 };
        o
    } else {
        let idx = if literal_length == 0 {
            value + 1
        } else {
            value
        };
        if idx <= 1 {
            rep.rep0
        } else if idx == 2 {
            let o = rep.rep1;
            *rep = RepeatOffsets { rep0: o, rep1: rep.rep0, rep2: rep.rep2 };
            o
        } else if idx == 3 {
            let o = rep.rep2;
            *rep = RepeatOffsets { rep0: o, rep1: rep.rep0, rep2: rep.rep1 };
            o
        } else {
            let o = if rep.rep0 > 0 {
                rep.rep0 - 1
            } else {
                0
            };
            *rep = RepeatOffsets { rep0: o, rep1: rep.rep0, rep2: rep.rep1 };
            o
        }
    }
}

/// What carries from one block of a frame to the next: the last tables used for
/// each symbol class, the repeat offsets, and the last literals code.
#[derive(Debug, Clone)]
pub struct SequenceContext {
    pub ll_table: Option<FseTable>,
    pub ml_table: Option<FseTable>,
    pub of_table: Option<FseTable>,
    pub rep: RepeatOffsets,
    pub huffman: Option<HuffmanTable>,
    /// The tables each block with sequences used, in block order.
    pub used: Vec<BlockFseTables>,
}

/// The three sequence decoding tables one block used.
#[derive(Debug, Clone, PartialEq, Eq)]
pub struct BlockFseTables {
    pub block_idx: u64,
    pub literal_lengths: Option<FseTable>,
    pub offsets: Option<FseTable>,
    pub match_lengths: Option<FseTable>,
}

impl SequenceContext {
    pub open spec fn wf(&self) -> bool {
        self.huffman is Some ==> self.huffman->Some_0.wf()
    }
}

impl SequenceContext {
    /// The context at the start of a frame.
    pub fn new() -> (r: SequenceContext)
        ensures
            r.ll_table is None && r.ml_table is None && r.of_table is None,
            r.rep == (RepeatOffsets { rep0: 1, rep1: 4, rep2: 8 }),
            r.huffman is None,
            r.wf(),
    {
        SequenceContext {
            ll_table: None,
            ml_table: None,
            of_table: None,
            rep: RepeatOffsets { rep0: 1, rep1: 4, rep2: 8 },
            huffman: None,
            used: Vec::new(),
        }
    }
}

/// The number of sequences the header at `q` declares, and its width.
pub open spec fn num_sequences_spec(s: Seq<u8>, q: int) -> (nat, nat) {
    let b0 = s[q] as nat;
    if b0 < 128 {
        (b0, 1)
    } else if b0 < 255 {
        (((b0 - 128) * 256 + s[q + 1] as nat) as nat, 2)
    } else {
        (s[q + 1] as nat + 256 * s[q + 2] as nat + 0x7F00, 3)
    }
}

/// Reads the sequence count at `q`, reading nothing at or past `end`.
pub fn read_num_sequences(src: &Vec<u8>, q: usize, end: usize) -> (r: Result<(u64, usize), DecodeError>)
    requires
        q < end <= src.len(),
    ensures
        r is Ok ==> {
            let (n, w) = r->Ok_0;
            &&& q + w <= end
            &&& (n as nat, w as nat) == num_sequences_spec(src@, q as int)
        },
        r is Err ==> r == Err::<(u64, usize), DecodeError>(DecodeError::TruncatedInput) && q
            + num_sequences_spec(src@, q as int).1 > end,
{
    let b0 = src[q] as u64;
    if b0 < 128 {
        Ok((b0, 1))
    } else if b0 < 255 {
        if end - q < 2 {
            return Err(DecodeError::TruncatedInput);
        }
        Ok(((b0 - 128) * 256 + src[q + 1] as u64, 2))
    } else {
        if end - q < 3 {
            return Err(DecodeError::TruncatedInput);
        }
        Ok((src[q + 1] as u64 + 256 * (src[q + 2] as u64) + 0x7F00, 3))
    }
}

/// The predefined table of a symbol class: 0 literal lengths, 1 match lengths,
/// 2 offsets.
fn predefined_table(class: u8) -> (r: Result<FseTable, DecodeError>) {
    if class == 0 {
        let norm: Vec<i16> = vec![
            4, 3, 2, 2, 2, 2, 2, 2, 2, 2, 2, 2, 2, 1, 1, 1, 2, 2, 2, 2, 2, 2, 2, 2, 2, 3, 2,
            1, 1, 1, 1, 1, -1, -1, -1, -1,
        ];
        build_fse_table(&norm, 6)
    } else if class == 1 {
        let norm: Vec<i16> = vec![
            1, 4, 3, 2, 2, 2, 2, 2, 2, 1, 1, 1, 1, 1, 1, 1, 1, 1, 1, 1, 1, 1, 1, 1, 1, 1, 1,
            1, 1, 1, 1, 1, 1, 1, 1, 1, 1, 1, 1, 1, 1, 1, 1, 1, 1, 1, -1, -1, -1, -1, -1, -1,
            -1,
        ];
        build_fse_table(&norm, 6)
    } else {
        let norm: Vec<i16> = vec![
            1, 1, 1, 1, 1, 1, 2, 2, 2, 1, 1, 1, 1, 1, 1, 1, 1, 1, 1, 1, 1, 1, 1, 1, -1, -1,
            -1, -1, -1,
        ];
        build_fse_table(&norm, 5)
    }
}

/// Picks the table of one symbol class by its mode (0 predefined, 1 a single
/// symbol, 2 described in the stream, 3 the previous one); returns it and the
/// number of bytes its description took from `src[p..end]`.
fn select_table(
    src: &Vec<u8>,
    p: usize,
    end: usize,
    mode: u8,
    class: u8,
    previous: &Option<FseTable>,
) -> (r: Result<(FseTable, usize), DecodeError>)
    requires
        p <= end <= src.len(),
    ensures
        r is Ok ==> p + r->Ok_0.1 <= end,
{
    if mode == 0 {
        let t = predefined_table(class)?;
        Ok((t, 0))
    } else if mode == 1 {
        if p >= end {
            return Err(DecodeError::TruncatedInput);
        }
        let e = FseEntry { symbol: src[p], nb_bits: 0, baseline: 0 };
        Ok((FseTable { accuracy_log: 0, entries: vec![e] }, 1))
    } else if mode == 3 {
        match previous {
            Some(t) => Ok((t.clone(), 0)),
            None => Err(DecodeError::MalformedHeader),
        }
    } else {
        let max_symbol: usize = if class == 0 {
            35
        } else if class == 1 {
            52
        } else {
            31
        };
        read_fse_description(src, p, end, max_symbol)
    }
}

/// Reads a state of `t` from the stream.
/// Reading the initial state of `t` from `rem` bits of `s`: the state and the
/// bits left.
pub open spec fn init_state_spec(t: FseTable, s: Seq<u8>, rem: nat) -> Option<(usize, nat)> {
    let al = t.accuracy_log as nat;
    if al > 32 || al > rem {
        None
    } else {
        let v = bits_value(s, rem - al, al);
        if v >= t.entries@.len() {
            None
        } else {
            Some((v as usize, (rem - al) as nat))
        }
    }
}

/// Moving on from `state` of `t`: its baseline plus its fresh bits.
pub open spec fn next_state_spec(t: FseTable, s: Seq<u8>, rem: nat, state: int) -> Option<(usize, nat)> {
    let e = t.entries@[state];
    let nb = e.nb_bits as nat;
    if nb > 32 || nb > rem {
        None
    } else {
        let n = e.baseline + bits_value(s, rem - nb, nb);
        if n >= t.entries@.len() {
            None
        } else {
            Some((n as usize, (rem - nb) as nat))
        }
    }
}

/// Reading one sequence's extra bits for these codes (offset, then match
/// length, then literal length): its literal length, match length and offset
/// value, and the bits left.
pub open spec fn read_sequence_spec(s: Seq<u8>, rem: nat, ll_c: u8, ml_c: u8, of_code: u8) -> Option<
    (u64, u64, u64, nat),
> {
    let oc = of_code as nat;
    let (mb, mbits) = ml_code_spec(ml_c);
    let (lb, lbits) = ll_code_spec(ll_c);
    if oc > rem || mbits > rem - oc || lbits > rem - oc - mbits {
        None
    } else {
        let of_extra = bits_value(s, rem - oc, oc);
        let r1 = (rem - oc) as nat;
        let ml_extra = bits_value(s, r1 - mbits, mbits as nat);
        let r2 = (r1 - mbits) as nat;
        let ll_extra = bits_value(s, r2 - lbits, lbits as nat);
        let r3 = (r2 - lbits) as nat;
        Some(
            (
                (lb + ll_extra) as u64,
                (mb + ml_extra) as u64,
                (two_pow(oc) + of_extra) as u64,
                r3,
            ),
        )
    }
}

/// The sequences that `count` more steps decode onto `acc`, from `rem` bits of
/// `s` and the states and repeat offsets given; after each sequence but the
/// last, the literal-length, match-length and offset states move on, in that
/// order. The bits must run out exactly.
pub open spec fn decode_seqs_spec(
    lt: FseTable,
    ot: FseTable,
    mt: FseTable,
    s: Seq<u8>,
    rem: nat,
    ls: int,
    os: int,
    ms: int,
    rep: RepeatOffsets,
    count: nat,
    acc: Seq<Sequence>,
) -> Option<Seq<Sequence>>
    decreases count,
{
    if count == 0 {
        if rem == 0 {
            Some(acc)
        } else {
            None
        }
    } else {
        let oc = ot.entries@[os].symbol;
        let mc = mt.entries@[ms].symbol;
        let lc = lt.entries@[ls].symbol;
        if oc > 31 || mc > 52 || lc > 35 {
            None
        } else {
            match read_sequence_spec(s, rem, lc, mc, oc) {
                None => None,
                Some((ll, ml, ov, r1)) => {
                    let (off, rep2) = resolve_offset_spec(rep, ov, ll);
                    let acc2 = acc.push(Sequence { literal_length: ll, match_length: ml, offset: off });
                    if count > 1 {
                        match next_state_spec(lt, s, r1, ls) {
                            None => None,
                            Some((l2, r2)) => match next_state_spec(mt, s, r2, ms) {
                                None => None,
                                Some((m2, r3)) => match next_state_spec(ot, s, r3, os) {
                                    None => None,
                                    Some((o2, r4)) => decode_seqs_spec(
                                        lt,
                                        ot,
                                        mt,
                                        s,
                                        r4,
                                        l2 as int,
                                        o2 as int,
                                        m2 as int,
                                        rep2,
                                        (count - 1) as nat,
                                        acc2,
                                    ),
                                },
                            },
                        }
                    } else {
                        decode_seqs_spec(
                            lt,
                            ot,
                            mt,
                            s,
                            r1,
                            ls,
                            os,
                            ms,
                            rep2,
                            (count - 1) as nat,
                            acc2,
                        )
                    }
                },
            }
        }
    }
}

/// The `count` sequences of the bitstream `src[start..end]` with these tables,
/// from the repeat offsets `rep`: the marker bit, the three initial states
/// (literal length, offset, match length), then the sequences.
pub open spec fn bitstream_spec(
    lt: FseTable,
    ot: FseTable,
    mt: FseTable,
    src: Seq<u8>,
    start: int,
    end: int,
    rep: RepeatOffsets,
    count: nat,
) -> Option<Seq<Sequence>> {
    if start >= end || src[end - 1] == 0 || end - start > 0x1000_0000 {
        None
    } else {
        let s = src.subrange(start, end);
        let rem0 = (8 * (end - start - 1) + high_bit(src[end - 1])) as nat;
        match init_state_spec(lt, s, rem0) {
            None => None,
            Some((l0, r1)) => match init_state_spec(ot, s, r1) {
                None => None,
                Some((o0, r2)) => match init_state_spec(mt, s, r2) {
                    None => None,
                    Some((m0, r3)) => decode_seqs_spec(
                        lt,
                        ot,
                        mt,
                        s,
                        r3,
                        l0 as int,
                        o0 as int,
                        m0 as int,
                        rep,
                        count,
                        Seq::empty(),
                    ),
                },
            },
        }
    }
}

fn init_state(br: &mut BackwardBitReader, src: &Vec<u8>, t: &FseTable) -> (r: Result<usize, DecodeError>)
    requires
        old(br).wf(src@),
    ensures
        final(br).wf(src@),
        final(br).start == old(br).start && final(br).end == old(br).end,
        r is Ok ==> r->Ok_0 < t.entries@.len(),
        match init_state_spec(*t, old(br).section(src@), old(br).remaining as nat) {
            None => r is Err,
            Some((v, rem)) => r == Ok::<usize, DecodeError>(v) && final(br).remaining == rem,
        },
{
    if t.accuracy_log > 32 {
        return Err(DecodeError::MalformedHeader);
    }
    let v = br.read_bits(src, t.accuracy_log as u64)?;
    if v >= t.entries.len() as u64 {
        return Err(DecodeError::MalformedHeader);
    }
    Ok(v as usize)
}

/// Moves from `state` to the next state of `t`, reading its fresh bits.
fn next_state(br: &mut BackwardBitReader, src: &Vec<u8>, t: &FseTable, state: usize) -> (r: Result<
    usize,
    DecodeError,
>)
    requires
        old(br).wf(src@),
        state < t.entries@.len(),
    ensures
        final(br).wf(src@),
        final(br).start == old(br).start && final(br).end == old(br).end,
        r is Ok ==> r->Ok_0 < t.entries@.len(),
        match next_state_spec(*t, old(br).section(src@), old(br).remaining as nat, state as int) {
            None => r is Err,
            Some((v, rem)) => r == Ok::<usize, DecodeError>(v) && final(br).remaining == rem,
        },
{
    let e = t.entries[state];
    if e.nb_bits > 32 {
        return Err(DecodeError::MalformedHeader);
    }
    let v = br.read_bits(src, e.nb_bits as u64)?;
    let n = e.baseline as u64 + v;
    if n >= t.entries.len() as u64 {
        return Err(DecodeError::MalformedHeader);
    }
    Ok(n as usize)
}

/// Reads the extra bits of one sequence, offset first, then match length, then
/// literal length, and returns its literal length, match length and offset value.
fn read_sequence(br: &mut BackwardBitReader, src: &Vec<u8>, ll_c: u8, ml_c: u8, of_code: u8) -> (r:
    Result<(u64, u64, u64), DecodeError>)
    requires
        old(br).wf(src@),
        ll_c <= 35,
        ml_c <= 52,
        of_code <= 31,
    ensures
        final(br).wf(src@),
        final(br).start == old(br).start && final(br).end == old(br).end,
        match read_sequence_spec(old(br).section(src@), old(br).remaining as nat, ll_c, ml_c, of_code) {
            None => r is Err,
            Some((ll, ml, ov, rem)) => r == Ok::<(u64, u64, u64), DecodeError>((ll, ml, ov))
                && final(br).remaining == rem,
        },
{
    let of_extra = br.read_bits(src, of_code as u64)?;
    let (ml_base, ml_bits) = ml_code(ml_c);
    let ml_extra = br.read_bits(src, ml_bits as u64)?;
    let (ll_base, ll_bits) = ll_code(ll_c);
    let ll_extra = br.read_bits(src, ll_bits as u64)?;
    let mut of_base: u64 = 1;
    let mut k: u8 = 0;
    while k < of_code
        invariant
            k <= of_code <= 31,
            of_base == two_pow(k as nat),
        decreases of_code - k,
    {
        proof {
            lemma_two_pow_monotone(k as nat, 30);
            lemma_two_pow_values();
            assert(two_pow((k + 1) as nat) == 2 * two_pow(k as nat));
        }
        of_base = of_base * 2;
        k = k + 1;
    }
    proof {
        lemma_two_pow_monotone(k as nat, 31);
        lemma_two_pow_values();
    }
    Ok((ll_base as u64 + ll_extra, ml_base as u64 + ml_extra, of_base + of_extra))
}

/// Decodes the sequences section `src[q..end]` whose count is not zero: its
/// count, its modes byte and table descriptions, then its bitstream. Returns the
/// sequences, with offsets resolved, and where the bitstream begins.
pub fn decode_sequences(src: &Vec<u8>, q: usize, end: usize, ctx: &mut SequenceContext) -> (r: Result<
    (Vec<Sequence>, usize),
    DecodeError,
>)
    requires
        q < end <= src.len(),
    ensures
        final(ctx).huffman == old(ctx).huffman,
        r is Ok ==> {
            let (seqs, data_start) = r->Ok_0;
            &&& q < data_start < end
            &&& seqs@.len() == num_sequences_spec(src@, q as int).0
            &&& final(ctx).ll_table is Some && final(ctx).of_table is Some
                && final(ctx).ml_table is Some
            &&& Some(seqs@) == bitstream_spec(
                final(ctx).ll_table->Some_0,
                final(ctx).of_table->Some_0,
                final(ctx).ml_table->Some_0,
                src@,
                data_start as int,
                end as int,
                old(ctx).rep,
                num_sequences_spec(src@, q as int).0,
            )
        },
{
    let (count, w) = read_num_sequences(src, q, end)?;
    let mut p = q + w;
    if p >= end {
        return Err(DecodeError::TruncatedInput);
    }
    let modes = src[p];
    p = p + 1;
    if modes % 4 != 0 {
        return Err(DecodeError::MalformedHeader);
    }
    let (ll_t, used) = select_table(src, p, end, modes / 64, 0, &ctx.ll_table)?;
    p = p + used;
    let (of_t, used) = select_table(src, p, end, (modes / 16) % 4, 2, &ctx.of_table)?;
    p = p + used;
    let (ml_t, used) = select_table(src, p, end, (modes / 4) % 4, 1, &ctx.ml_table)?;
    p = p + used;
    let data_start = p;
    let ghost target = bitstream_spec(
        ll_t,
        of_t,
        ml_t,
        src@,
        data_start as int,
        end as int,
        old(ctx).rep,
        count as nat,
    );
    let mut br = open_backward(src, data_start, end)?;
    let mut ll_s = init_state(&mut br, src, &ll_t)?;
    let mut of_s = init_state(&mut br, src, &of_t)?;
    let mut ml_s = init_state(&mut br, src, &ml_t)?;
    let mut seqs: Vec<Sequence> = Vec::new();
    let mut i: u64 = 0;
    while i < count
        invariant
            i <= count,
            seqs@.len() == i,
            br.wf(src@),
            ll_s < ll_t.entries@.len(),
            of_s < of_t.entries@.len(),
            ml_s < ml_t.entries@.len(),
            ctx.huffman == old(ctx).huffman,
            br.start == data_start && br.end == end,
            decode_seqs_spec(
                ll_t,
                of_t,
                ml_t,
                br.section(src@),
                br.remaining as nat,
                ll_s as int,
                of_s as int,
                ml_s as int,
                ctx.rep,
                (count - i) as nat,
                seqs@,
            ) == target,
            target == bitstream_spec(
                ll_t,
                of_t,
                ml_t,
                src@,
                data_start as int,
                end as int,
                old(ctx).rep,
                count as nat,
            ),
            count as nat == num_sequences_spec(src@, q as int).0,
        decreases count - i,
    {
        let of_code = of_t.entries[of_s].symbol;
        let ml_c = ml_t.entries[ml_s].symbol;
        let ll_c = ll_t.entries[ll_s].symbol;
        if of_code > 31 || ml_c > 52 || ll_c > 35 {
            return Err(DecodeError::MalformedHeader);
        }
        let (literal_length, match_length, offset_value) = read_sequence(
            &mut br,
            src,
            ll_c,
            ml_c,
            of_code,
        )?;
        let offset = resolve_offset(&mut ctx.rep, offset_value, literal_length);
        seqs.push(Sequence { literal_length, match_length, offset });
        if i + 1 < count {
            ll_s = next_state(&mut br, src, &ll_t, ll_s)?;
            ml_s = next_state(&mut br, src, &ml_t, ml_s)?;
            of_s = next_state(&mut br, src, &of_t, of_s)?;
        }
        i = i + 1;
    }
    if br.remaining != 0 {
        return Err(DecodeError::MalformedHeader);
    }
    ctx.ll_table = Some(ll_t);
    ctx.of_table = Some(of_t);
    ctx.ml_table = Some(ml_t);
    Ok((seqs, data_start))
}

} // verus!
