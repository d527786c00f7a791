use vstd::prelude::*;

use crate::error::DecodeError;
use crate::bytes::le_value;
use crate::frame::{
    frame_header_len_of, parse_block_header, parse_frame_header, spec_block_header, BlockType,
    FRAME_MAGIC,
};
use crate::literals::{
    decode_literals_header, header_len_of, is_entropy_coded, spec_literals_header, LiteralsBlockType,
    LiteralsHeader,
};
use crate::huffman::{decode_huffman_literals, streams_decode, HuffmanTable};
use crate::seqdecode::{decode_sequences, BlockFseTables, SequenceContext};
use crate::sequences::{execute_sequences_onto, Sequence};
use crate::witness::{
    count_literal_rows, keeps, lemma_real_rows_before_padding, lemma_rows_for_bytes_kept, rows_for_bytes, may_append, no_padding, push_row, rows_wf,
    WitnessRow, ZstdTag,
};

verus! {

/// What the decoder learned about one block.
#[derive(Debug, Clone, Copy, PartialEq, Eq, Structural)]
pub struct BlockInfo {
    pub block_idx: u64,
    pub block_type: BlockType,
    pub is_last: bool,
    /// Size of the block's content, its header excluded.
    pub block_len: u64,
    /// Position of the block's literals header in the input (of its content, for
    /// a raw or run-length block).
    pub literals_header_pos: u64,
    /// The literals header of a compressed block; for a raw or run-length block,
    /// one that declares the block's size as its regenerated size.
    pub literals_header: LiteralsHeader,
    /// Index of the block's first row after its header rows: for a compressed
    /// block, the first row of its literals header.
    pub header_row: u64,
}

/// What the decoder learned about the sequences section of one block.
#[derive(Debug, Clone, Copy, PartialEq, Eq, Structural)]
pub struct SequenceInfo {
    pub block_idx: u64,
    pub num_sequences: u64,
}

/// Everything one decode call produces.
#[derive(Debug, Clone, PartialEq, Eq)]
pub struct MultiBlockProcessResult {
    pub witness_rows: Vec<WitnessRow>,
    /// The literals of all blocks, one after the other.
    pub literal_bytes: Vec<u8>,
    pub block_info_arr: Vec<BlockInfo>,
    pub sequence_info_arr: Vec<SequenceInfo>,
    pub sequences: Vec<Sequence>,
    /// The sequence decoding tables of each block that has sequences.
    pub fse_tables: Vec<BlockFseTables>,
    /// The reconstructed payload.
    pub decoded: Vec<u8>,
}

/// The trace may go on with a real row for byte `pos`, the one after its last row's,
/// for block `block_idx`.
pub open spec fn open_at(rows: Seq<WitnessRow>, pos: nat, block_idx: u64) -> bool {
    &&& rows.len() > 0
    &&& !rows.last().is_padding
    &&& rows.last().byte_idx + 1 == pos
    &&& rows.last().block_idx == block_idx
}

/// Appends one row for each byte of `src[from..to]`.
fn emit_bytes(
    rows: &mut Vec<WitnessRow>,
    src: &Vec<u8>,
    from: usize,
    to: usize,
    tag: ZstdTag,
    block_idx: u64,
    regen_size: u64,
)
    requires
        from < to <= src.len(),
        rows_wf(src@, old(rows)@),
        may_append(old(rows)@, from as nat, tag, block_idx),
    ensures
        rows_wf(src@, final(rows)@),
        open_at(final(rows)@, to as nat, block_idx),
        keeps(old(rows)@, final(rows)@),
        final(rows)@.len() == old(rows)@.len() + (to - from),
        rows_for_bytes(
            final(rows)@,
            old(rows)@.len() as int,
            to - from,
            tag,
            block_idx,
            from as int,
        ),
        forall|b: u64| #[trigger]
            count_literal_rows(final(rows)@, b) == count_literal_rows(old(rows)@, b) + if tag
                == ZstdTag::LiteralsRawBytes && block_idx == b {
                (to - from) as nat
            } else {
                0nat
            },
{
    let ghost start = old(rows)@;
    push_row(rows, src, from, tag, block_idx, regen_size);
    let mut p: usize = from + 1;
    while p < to
        invariant
            from < p <= to <= src.len(),
            tag != ZstdTag::Padding,
            rows_wf(src@, rows@),
            open_at(rows@, p as nat, block_idx),
            keeps(start, rows@),
            rows@.len() == start.len() + (p - from),
            rows_for_bytes(rows@, start.len() as int, p - from, tag, block_idx, from as int),
            forall|b: u64| #[trigger]
                count_literal_rows(rows@, b) == count_literal_rows(start, b) + if tag
                    == ZstdTag::LiteralsRawBytes && block_idx == b {
                    (p - from) as nat
                } else {
                    0nat
                },
        decreases to - p,
    {
        push_row(rows, src, p, tag, block_idx, regen_size);
        p = p + 1;
    }
}

/// Appends `n` literal rows that all stand for the byte at `pos`.
fn emit_run(rows: &mut Vec<WitnessRow>, src: &Vec<u8>, pos: usize, n: u64, block_idx: u64, regen_size: u64)
    requires
        pos < src.len(),
        rows_wf(src@, old(rows)@),
        open_at(old(rows)@, (pos + 1) as nat, block_idx),
    ensures
        rows_wf(src@, final(rows)@),
        open_at(final(rows)@, (pos + 1) as nat, block_idx),
        keeps(old(rows)@, final(rows)@),
        forall|b: u64| #[trigger]
            count_literal_rows(final(rows)@, b) == count_literal_rows(old(rows)@, b) + if block_idx
                == b {
                n as nat
            } else {
                0nat
            },
{
    let ghost start = old(rows)@;
    let mut k: u64 = 0;
    while k < n
        invariant
            k <= n,
            pos < src.len(),
            rows_wf(src@, rows@),
            open_at(rows@, (pos + 1) as nat, block_idx),
            keeps(start, rows@),
            forall|b: u64| #[trigger]
                count_literal_rows(rows@, b) == count_literal_rows(start, b) + if block_idx == b {
                    k as nat
                } else {
                    0nat
                },
        decreases n - k,
    {
        push_row(rows, src, pos, ZstdTag::LiteralsRawBytes, block_idx, regen_size);
        k = k + 1;
    }
}

/// Whether entropy-coded literals of this size format come in four streams.
pub open spec fn four_streams_of(size_format: u8) -> bool {
    size_format != 0
}

/// Decodes the literals that the header `h` announces, from `src[p..end]`:
/// raw ones are the next bytes, run-length ones repeat the next byte, and
/// entropy-coded ones are decoded from the next `compressed_size` bytes. Returns
/// them and where the sequences section begins.
#[verifier::rlimit(80)]
pub fn decode_literals_body(
    src: &Vec<u8>,
    p: usize,
    end: usize,
    h: &LiteralsHeader,
    block_idx: u64,
    rows: &mut Vec<WitnessRow>,
    ctx: &mut SequenceContext,
) -> (r: Result<(Vec<u8>, usize), DecodeError>)
    requires
        p <= end <= src.len(),
        rows_wf(src@, old(rows)@),
        open_at(old(rows)@, p as nat, block_idx),
        old(ctx).wf(),
        is_entropy_coded(h.block_type) ==> h.compressed_size is Some,
        h.regenerated_size < 0x10_0000,
    ensures
        final(ctx).wf(),
        h.block_type == LiteralsBlockType::Raw && p + h.regenerated_size > end ==> r == Err::<
            (Vec<u8>, usize),
            DecodeError,
        >(DecodeError::TruncatedInput),
        h.block_type == LiteralsBlockType::Rle && p == end ==> r == Err::<
            (Vec<u8>, usize),
            DecodeError,
        >(DecodeError::TruncatedInput),
        h.block_type == LiteralsBlockType::Raw && p + h.regenerated_size <= end ==> r is Ok,
        h.block_type == LiteralsBlockType::Rle && p < end ==> r is Ok,
        h.block_type == LiteralsBlockType::Treeless && old(ctx).huffman is None ==> r is Err,
        ({
            let cs = h.compressed_size->Some_0;
            h.block_type == LiteralsBlockType::Treeless && old(ctx).huffman is Some && 0 < cs && p
                + cs <= end ==> {
                let d = streams_decode(
                    old(ctx).huffman->Some_0,
                    src@,
                    p as int,
                    p + cs,
                    h.regenerated_size as nat,
                    four_streams_of(h.size_format),
                );
                &&& r is Ok <==> d is Some
                &&& r is Ok ==> Some(r->Ok_0.0@) == d
            }
        }),
        h.block_type == LiteralsBlockType::Compressed && r is Ok ==> final(ctx).huffman is Some
            && exists|q: int|
            p <= q <= p + h.compressed_size->Some_0 && Some(r->Ok_0.0@) == #[trigger] streams_decode(
                final(ctx).huffman->Some_0,
                src@,
                q,
                p + h.compressed_size->Some_0,
                h.regenerated_size as nat,
                four_streams_of(h.size_format),
            ),
        is_entropy_coded(h.block_type) && p + h.compressed_size->Some_0 > end ==> r == Err::<
            (Vec<u8>, usize),
            DecodeError,
        >(DecodeError::TruncatedInput),
        r is Ok ==> {
            let (lits, q) = r->Ok_0;
            &&& h.block_type == LiteralsBlockType::Raw ==> lits@ == src@.subrange(
                p as int,
                p + h.regenerated_size,
            ) && q == p + h.regenerated_size
            &&& h.block_type == LiteralsBlockType::Rle ==> lits@ == Seq::new(
                h.regenerated_size as nat,
                |i: int| src@[p as int],
            ) && q == p + 1
            &&& is_entropy_coded(h.block_type) ==> lits@.len() == h.regenerated_size && q == p
                + h.compressed_size->Some_0
        },
        keeps(old(rows)@, final(rows)@),
        r is Ok && h.block_type == LiteralsBlockType::Raw ==> final(rows)@.len() == old(rows)@.len()
            + h.regenerated_size && rows_for_bytes(
            final(rows)@,
            old(rows)@.len() as int,
            h.regenerated_size as int,
            ZstdTag::LiteralsRawBytes,
            block_idx,
            p as int,
        ),
        r is Ok ==> {
            let (_, q) = r->Ok_0;
            &&& p <= q <= end
            &&& rows_wf(src@, final(rows)@)
            &&& open_at(final(rows)@, q as nat, block_idx)
            &&& forall|b: u64| #[trigger]
                count_literal_rows(final(rows)@, b) == count_literal_rows(old(rows)@, b) + if b
                    == block_idx {
                    h.regenerated_size as nat
                } else {
                    0nat
                }
        },
{
    let regen = h.regenerated_size;
    let mut block_lits: Vec<u8> = Vec::new();
    let q: usize = match h.block_type {
        LiteralsBlockType::Raw => {
            if regen > (end - p) as u64 {
                return Err(DecodeError::TruncatedInput);
            }
            let n = regen as usize;
            if n > 0 {
                emit_bytes(rows, src, p, p + n, ZstdTag::LiteralsRawBytes, block_idx, regen);
            }
            let mut j: usize = p;
            while j < p + n
                invariant
                    p <= j <= p + n <= src.len(),
                    block_lits@ == src@.subrange(p as int, j as int),
                decreases p + n - j,
            {
                block_lits.push(src[j]);
                j = j + 1;
                assert(block_lits@ =~= src@.subrange(p as int, j as int));
            }
            p + n
        },
        LiteralsBlockType::Rle => {
            if p >= end {
                return Err(DecodeError::TruncatedInput);
            }
            push_row(rows, src, p, ZstdTag::RunLengthByte, block_idx, regen);
            emit_run(rows, src, p, regen, block_idx, regen);
            let b = src[p];
            let mut k: u64 = 0;
            while k < regen
                invariant
                    k <= regen,
                    b == src@[p as int],
                    block_lits@ == Seq::new(k as nat, |i: int| src@[p as int]),
                decreases regen - k,
            {
                block_lits.push(b);
                k = k + 1;
                assert(block_lits@ =~= Seq::new(k as nat, |i: int| src@[p as int]));
            }
            p + 1
        },
        _ => {
            let compressed_size = match h.compressed_size {
                Some(c) => c,
                None => 0,
            };
            if compressed_size > (end - p) as u64 {
                return Err(DecodeError::TruncatedInput);
            }
            if compressed_size == 0 {
                return Err(DecodeError::HuffmanDecodeFailure);
            }
            let cs = compressed_size as usize;
            let treeless = h.block_type == LiteralsBlockType::Treeless;
            if treeless && ctx.huffman.is_none() {
                return Err(DecodeError::HuffmanDecodeFailure);
            }
            let fresh_code: Option<HuffmanTable> = None;
            let previous = if treeless {
                &ctx.huffman
            } else {
                &fresh_code
            };
            let (decoded, described) = decode_huffman_literals(
                src,
                p,
                cs,
                regen as usize,
                h.size_format != 0,
                previous,
            )?;
            if let Some(t) = described {
                ctx.huffman = Some(t);
            }
            emit_bytes(rows, src, p, p + cs, ZstdTag::HuffmanCode, block_idx, regen);
            emit_run(rows, src, p + cs - 1, regen, block_idx, regen);
            block_lits = decoded;
            p + cs
        },
    };
    Ok((block_lits, q))
}

/// Decodes the content `src[start..end]` of a compressed block: its literals
/// section, then its sequences section. Rows go to `rows`, the block's literals to
/// `lits` and its output to `out`.
#[verifier::rlimit(80)]
fn decode_block(
    src: &Vec<u8>,
    start: usize,
    end: usize,
    block_idx: u64,
    rows: &mut Vec<WitnessRow>,
    lits: &mut Vec<u8>,
    out: &mut Vec<u8>,
    ctx: &mut SequenceContext,
    all_seqs: &mut Vec<Sequence>,
) -> (r: Result<(LiteralsHeader, u64), DecodeError>)
    requires
        start <= end <= src.len(),
        rows_wf(src@, old(rows)@),
        open_at(old(rows)@, start as nat, block_idx),
        old(ctx).wf(),
    ensures
        final(ctx).wf(),
        literals_overrun(src@, start as int, end as int) ==> r == Err::<(LiteralsHeader, u64), DecodeError>(
            DecodeError::TruncatedInput,
        ),
        literals_only_block(src@, start as int, end as int) ==> r is Ok && final(out)@ == old(
            out,
        )@ + literals_only_output(src@, start as int),
        keeps(old(rows)@, final(rows)@),
        r is Ok ==> {
            let (h, _) = r->Ok_0;
            &&& rows_for_bytes(
                final(rows)@,
                old(rows)@.len() as int,
                h.header_len as int,
                ZstdTag::LiteralsHeader,
                block_idx,
                start as int,
            )
            &&& h.block_type == LiteralsBlockType::Raw ==> rows_for_bytes(
                final(rows)@,
                old(rows)@.len() + h.header_len,
                h.regenerated_size as int,
                ZstdTag::LiteralsRawBytes,
                block_idx,
                start + h.header_len,
            )
        },
        r is Ok ==> {
            let (h, _) = r->Ok_0;
            &&& start < end
            &&& h == spec_literals_header(src@, start as int)
            &&& rows_wf(src@, final(rows)@)
            &&& open_at(final(rows)@, end as nat, block_idx)
            &&& forall|b: u64| #[trigger]
                count_literal_rows(final(rows)@, b) == count_literal_rows(old(rows)@, b) + if b
                    == block_idx {
                    h.regenerated_size as nat
                } else {
                    0nat
                }
        },
{
    let h = decode_literals_header(src, start, end)?;
    let hl = h.header_len;
    let regen = h.regenerated_size;
    if hl > 1 {
        emit_bytes(rows, src, start, start + hl - 1, ZstdTag::LiteralsHeader, block_idx, 0);
    }
    push_row(rows, src, start + hl - 1, ZstdTag::LiteralsHeader, block_idx, regen);
    assert(open_at(rows@, (start + hl) as nat, block_idx));
    let ghost mid = rows@;
    assert forall|b: u64| #[trigger]
        count_literal_rows(mid, b) == count_literal_rows(old(rows)@, b) by {}
    let p = start + hl;
    let (block_lits, q) = decode_literals_body(src, p, end, &h, block_idx, rows, ctx)?;
    if q >= end {
        return Err(DecodeError::TruncatedInput);
    }
    let ghost before_seq = rows@;
    let mut seqs: Vec<Sequence> = Vec::new();
    if src[q] == 0 {
        if q + 1 != end {
            return Err(DecodeError::MalformedHeader);
        }
        push_row(rows, src, q, ZstdTag::SequencesHeader, block_idx, regen);
    } else {
        let (decoded, data_start) = decode_sequences(src, q, end, ctx)?;
        seqs = decoded;
        let tables = BlockFseTables {
            block_idx,
            literal_lengths: ctx.ll_table.clone(),
            offsets: ctx.of_table.clone(),
            match_lengths: ctx.ml_table.clone(),
        };
        ctx.used.push(tables);
        emit_bytes(rows, src, q, data_start, ZstdTag::SequencesHeader, block_idx, regen);
        emit_bytes(rows, src, data_start, end, ZstdTag::SequencesData, block_idx, regen);
    }
    assert forall|b: u64| #[trigger]
        count_literal_rows(rows@, b) == count_literal_rows(before_seq, b) by {}
    execute_sequences_onto(out, &block_lits, &seqs)?;
    let mut j: usize = 0;
    while j < block_lits.len()
        invariant
            j <= block_lits.len(),
        decreases block_lits.len() - j,
    {
        lits.push(block_lits[j]);
        j = j + 1;
    }
    let mut j: usize = 0;
    while j < seqs.len()
        invariant
            j <= seqs.len(),
        decreases seqs.len() - j,
    {
        all_seqs.push(seqs[j]);
        j = j + 1;
    }
    let num_sequences = seqs.len() as u64;
    Ok((h, num_sequences))
}

/// The rows of a compressed block's literals header, then of its raw literals
/// if they are raw, stand at `info.header_row` on, one per byte, in order.
pub open spec fn header_rows_at(rows: Seq<WitnessRow>, info: BlockInfo) -> bool {
    let h = info.literals_header;
    &&& rows_for_bytes(
        rows,
        info.header_row as int,
        h.header_len as int,
        ZstdTag::LiteralsHeader,
        info.block_idx,
        info.literals_header_pos as int,
    )
    &&& h.block_type == LiteralsBlockType::Raw ==> rows_for_bytes(
        rows,
        info.header_row + h.header_len,
        h.regenerated_size as int,
        ZstdTag::LiteralsRawBytes,
        info.block_idx,
        info.literals_header_pos + h.header_len,
    )
}

/// The per-block facts that every successful decode establishes: entry `k` is
/// block `k + 1`, its regenerated size is its number of literal rows, and a
/// compressed block's header is the one decoded at its recorded position.
pub open spec fn blocks_match_rows(
    src: Seq<u8>,
    infos: Seq<BlockInfo>,
    rows: Seq<WitnessRow>,
) -> bool {
    forall|k: int|
        0 <= k < infos.len() ==> {
            &&& (#[trigger] infos[k]).block_idx == k + 1
            &&& infos[k].literals_header.regenerated_size == count_literal_rows(
                rows,
                (k + 1) as u64,
            )
            &&& infos[k].block_type == BlockType::Compressed ==> {
                &&& infos[k].literals_header_pos < src.len()
                &&& infos[k].literals_header == spec_literals_header(
                    src,
                    infos[k].literals_header_pos as int,
                )
                &&& header_rows_at(rows, infos[k])
            }
            &&& infos[k].block_type != BlockType::Compressed ==> {
                &&& 3 <= infos[k].literals_header_pos <= src.len()
                &&& infos[k].literals_header.regenerated_size == spec_block_header(
                    src,
                    infos[k].literals_header_pos - 3,
                ).block_size
            }
        }
}

/// Every compressed block `b` (counted from 1) has literals header rows, and
/// they carry its index; with the trace's block indices starting at 1 and never
/// skipping, the literals header rows of a decode of compressed blocks run through
/// 1, 2, ... up to the number of blocks.
pub proof fn lemma_literals_header_row_per_block(
    src: Seq<u8>,
    infos: Seq<BlockInfo>,
    rows: Seq<WitnessRow>,
    b: int,
)
    requires
        blocks_match_rows(src, infos, rows),
        1 <= b <= infos.len(),
        infos[b - 1].block_type == BlockType::Compressed,
    ensures
        exists|i: int|
            0 <= i < rows.len() && (#[trigger] rows[i]).tag == ZstdTag::LiteralsHeader
                && rows[i].block_idx == b && rows[i].byte_idx == infos[b - 1].literals_header_pos,
{
    let info = infos[b - 1];
    assert(info.literals_header.header_len >= 1);
    let i = info.header_row as int;
    assert(rows[i].tag == ZstdTag::LiteralsHeader);
}

/// Decodes the content of a raw block (`size` bytes, copied) or a run-length
/// block (one byte, repeated `size` times) starting at `start`; its bytes are
/// recorded as literals. Returns a header declaring `size` and where the block
/// ends.
fn decode_plain_block(
    src: &Vec<u8>,
    start: usize,
    size: u64,
    rle: bool,
    block_idx: u64,
    rows: &mut Vec<WitnessRow>,
    lits: &mut Vec<u8>,
    out: &mut Vec<u8>,
) -> (r: Result<(LiteralsHeader, usize), DecodeError>)
    requires
        start <= src.len(),
        rows_wf(src@, old(rows)@),
        open_at(old(rows)@, start as nat, block_idx),
    ensures
        keeps(old(rows)@, final(rows)@),
        r is Ok ==> {
            let (h, end) = r->Ok_0;
            &&& start <= end <= src.len()
            &&& h.regenerated_size == size
            &&& rows_wf(src@, final(rows)@)
            &&& open_at(final(rows)@, end as nat, block_idx)
            &&& forall|b: u64| #[trigger]
                count_literal_rows(final(rows)@, b) == count_literal_rows(old(rows)@, b) + if b
                    == block_idx {
                    size as nat
                } else {
                    0nat
                }
        },
{
    let end = if rle {
        if start >= src.len() {
            return Err(DecodeError::TruncatedInput);
        }
        push_row(rows, src, start, ZstdTag::RunLengthByte, block_idx, size);
        emit_run(rows, src, start, size, block_idx, size);
        let b = src[start];
        let mut k: u64 = 0;
        while k < size
            invariant
                k <= size,
            decreases size - k,
        {
            lits.push(b);
            out.push(b);
            k = k + 1;
        }
        start + 1
    } else {
        if size > (src.len() - start) as u64 {
            return Err(DecodeError::TruncatedInput);
        }
        let n = size as usize;
        if n > 0 {
            emit_bytes(rows, src, start, start + n, ZstdTag::LiteralsRawBytes, block_idx, size);
        }
        let mut j: usize = start;
        while j < start + n
            invariant
                start <= j <= start + n <= src.len(),
            decreases start + n - j,
        {
            lits.push(src[j]);
            out.push(src[j]);
            j = j + 1;
        }
        start + n
    };
    let h = LiteralsHeader {
        block_type: if rle {
            LiteralsBlockType::Rle
        } else {
            LiteralsBlockType::Raw
        },
        size_format: 0,
        regenerated_size: size,
        compressed_size: None,
        header_len: 0,
    };
    Ok((h, end))
}

/// The state between blocks: `cur` blocks decoded, the next byte at `pos`.
#[verifier::opaque]
pub open spec fn decode_state(
    src: Seq<u8>,
    rows: Seq<WitnessRow>,
    infos: Seq<BlockInfo>,
    pos: nat,
    cur: u64,
) -> bool {
    &&& cur <= pos <= src.len()
    &&& rows_wf(src, rows)
    &&& infos.len() == cur
    &&& blocks_match_rows(src, infos, rows)
    &&& forall|b: u64| b > cur ==> #[trigger] count_literal_rows(rows, b) == 0
}

/// The per-block facts survive appending rows and one more block that meets them.
proof fn lemma_push_block(
    src: Seq<u8>,
    infos: Seq<BlockInfo>,
    old_rows: Seq<WitnessRow>,
    rows: Seq<WitnessRow>,
    info: BlockInfo,
)
    requires
        blocks_match_rows(src, infos, old_rows),
        keeps(old_rows, rows),
        forall|k: int|
            0 <= k < infos.len() ==> #[trigger] count_literal_rows(rows, (k + 1) as u64)
                == count_literal_rows(old_rows, (k + 1) as u64),
        info.block_idx == infos.len() + 1,
        info.literals_header.regenerated_size == count_literal_rows(rows, info.block_idx),
        info.block_type == BlockType::Compressed ==> {
            &&& info.literals_header_pos < src.len()
            &&& info.literals_header == spec_literals_header(src, info.literals_header_pos as int)
            &&& header_rows_at(rows, info)
        },
        info.block_type != BlockType::Compressed ==> {
            &&& 3 <= info.literals_header_pos <= src.len()
            &&& info.literals_header.regenerated_size == spec_block_header(
                src,
                info.literals_header_pos - 3,
            ).block_size
        },
    ensures
        blocks_match_rows(src, infos.push(info), rows),
{
    let all = infos.push(info);
    assert forall|k: int| 0 <= k < all.len() implies {
        &&& (#[trigger] all[k]).block_idx == k + 1
        &&& all[k].literals_header.regenerated_size == count_literal_rows(rows, (k + 1) as u64)
        &&& all[k].block_type == BlockType::Compressed ==> {
            &&& all[k].literals_header_pos < src.len()
            &&& all[k].literals_header == spec_literals_header(
                src,
                all[k].literals_header_pos as int,
            )
            &&& header_rows_at(rows, all[k])
        }
        &&& all[k].block_type != BlockType::Compressed ==> {
            &&& 3 <= all[k].literals_header_pos <= src.len()
            &&& all[k].literals_header.regenerated_size == spec_block_header(
                src,
                all[k].literals_header_pos - 3,
            ).block_size
        }
    } by {
        if k < infos.len() {
            let b = infos[k];
            assert(all[k] == b);
            let h = b.literals_header;
            if b.block_type == BlockType::Compressed {
                lemma_rows_for_bytes_kept(
                    old_rows,
                    rows,
                    b.header_row as int,
                    h.header_len as int,
                    ZstdTag::LiteralsHeader,
                    b.block_idx,
                    b.literals_header_pos as int,
                );
                if h.block_type == LiteralsBlockType::Raw {
                    lemma_rows_for_bytes_kept(
                        old_rows,
                        rows,
                        b.header_row + h.header_len,
                        h.regenerated_size as int,
                        ZstdTag::LiteralsRawBytes,
                        b.block_idx,
                        b.literals_header_pos + h.header_len,
                    );
                }
            }
        }
    }
}

/// Decodes the block whose header is at `pos`, as block `cur + 1`.
#[verifier::rlimit(100)]
#[verifier::spinoff_prover]
fn step_block(
    src: &Vec<u8>,
    pos: usize,
    cur: u64,
    rows: &mut Vec<WitnessRow>,
    lits: &mut Vec<u8>,
    out: &mut Vec<u8>,
    infos: &mut Vec<BlockInfo>,
    seq_infos: &mut Vec<SequenceInfo>,
    ctx: &mut SequenceContext,
    all_seqs: &mut Vec<Sequence>,
) -> (r: Result<(usize, bool), DecodeError>)
    requires
        decode_state(src@, old(rows)@, old(infos)@, pos as nat, cur),
        open_at(old(rows)@, pos as nat, if cur == 0 { 1u64 } else { cur }),
        old(ctx).wf(),
    ensures
        final(ctx).wf(),
        ({
            let bh = spec_block_header(src@, pos as int);
            pos + 3 <= src@.len() && bh.block_type == BlockType::Compressed && pos + 3
                + bh.block_size <= src@.len() && literals_overrun(
                src@,
                pos + 3,
                pos + 3 + bh.block_size,
            )
        }) ==> r == Err::<(usize, bool), DecodeError>(DecodeError::TruncatedInput),
        ({
            let bh = spec_block_header(src@, pos as int);
            pos + 3 <= src@.len() && bh.block_type == BlockType::Compressed && pos + 3
                + bh.block_size <= src@.len() && literals_only_block(
                src@,
                pos + 3,
                pos + 3 + bh.block_size,
            )
        }) ==> {
            let bh = spec_block_header(src@, pos as int);
            &&& r == Ok::<(usize, bool), DecodeError>(((pos + 3 + bh.block_size) as usize, bh.is_last))
            &&& final(out)@ == old(out)@ + literals_only_output(src@, pos + 3)
        },
        r is Ok ==> {
            &&& final(infos)@.len() == old(infos)@.len() + 1
            &&& final(infos)@.last().literals_header_pos == pos + 3
            &&& forall|k: int|
                0 <= k < old(infos)@.len() ==> #[trigger] final(infos)@[k] == old(infos)@[k]
        },
        r is Ok ==> {
            let (np, _) = r->Ok_0;
            &&& pos < np
            &&& decode_state(src@, final(rows)@, final(infos)@, np as nat, (cur + 1) as u64)
            &&& open_at(final(rows)@, np as nat, (cur + 1) as u64)
        },
{
    proof {
        reveal(decode_state);
    }
    let bh = parse_block_header(src, pos)?;
    let start = pos + 3;
    let idx = cur + 1;
    if bh.block_type == BlockType::Reserved {
        return Err(DecodeError::UnsupportedBlockType);
    }
    let content_len: u64 = if bh.block_type == BlockType::Rle {
        1
    } else {
        bh.block_size
    };
    if content_len > (src.len() - start) as u64 {
        return Err(DecodeError::TruncatedInput);
    }
    emit_bytes(rows, src, pos, start, ZstdTag::BlockHeader, idx, 0);
    let ghost before_block = rows@;
    let header_row = rows.len() as u64;
    let (h, num_sequences, end) = if bh.block_type == BlockType::Compressed {
        let end = start + bh.block_size as usize;
        let (h, n) = decode_block(src, start, end, idx, rows, lits, out, ctx, all_seqs)?;
        (h, n, end)
    } else {
        let (h, end) = decode_plain_block(
            src,
            start,
            bh.block_size,
            bh.block_type == BlockType::Rle,
            idx,
            rows,
            lits,
            out,
        )?;
        (h, 0, end)
    };
    infos.push(
        BlockInfo {
            block_idx: idx,
            block_type: bh.block_type,
            is_last: bh.is_last,
            block_len: bh.block_size,
            literals_header_pos: start as u64,
            literals_header: h,
            header_row,
        },
    );
    seq_infos.push(SequenceInfo { block_idx: idx, num_sequences });
    assert forall|k: int| 0 <= k < old(infos)@.len() implies #[trigger] count_literal_rows(
        rows@,
        (k + 1) as u64,
    ) == count_literal_rows(old(rows)@, (k + 1) as u64) by {
        assert(count_literal_rows(rows@, (k + 1) as u64) == count_literal_rows(
            before_block,
            (k + 1) as u64,
        ));
    }
    assert(count_literal_rows(old(rows)@, idx) == 0);
    assert(count_literal_rows(before_block, idx) == 0);
    assert(infos@ == old(infos)@.push(infos@.last()));
    proof {
        lemma_push_block(src@, old(infos)@, old(rows)@, rows@, infos@.last());
    }
    Ok((end, bh.is_last))
}

/// Records the frame-level bytes `src[from..to]` (a frame header or checksum),
/// which belong to no block's literals.
fn emit_frame_bytes(
    src: &Vec<u8>,
    from: usize,
    to: usize,
    tag: ZstdTag,
    cur: u64,
    rows: &mut Vec<WitnessRow>,
    infos: &Vec<BlockInfo>,
)
    requires
        from < to <= src.len(),
        tag == ZstdTag::FrameHeader || tag == ZstdTag::FrameChecksum,
        decode_state(src@, old(rows)@, infos@, from as nat, cur),
        old(rows)@.len() == 0 <==> cur == 0,
        cur > 0 ==> open_at(old(rows)@, from as nat, cur),
        old(rows)@.len() == 0 ==> from == 0,
    ensures
        decode_state(src@, final(rows)@, infos@, to as nat, cur),
        open_at(final(rows)@, to as nat, if cur == 0 { 1u64 } else { cur }),
{
    proof {
        reveal(decode_state);
    }
    let idx: u64 = if cur == 0 {
        1
    } else {
        cur
    };
    let ghost before = rows@;
    emit_bytes(rows, src, from, to, tag, idx, 0);
    assert forall|b: u64| #[trigger]
        count_literal_rows(rows@, b) == count_literal_rows(before, b) by {}
    assert forall|k: int| 0 <= k < infos@.len() implies #[trigger] count_literal_rows(
        rows@,
        (k + 1) as u64,
    ) == count_literal_rows(before, (k + 1) as u64) by {}
    assert forall|k: int|
        0 <= k < infos@.len() && (#[trigger] infos@[k]).block_type == BlockType::Compressed
            && header_rows_at(before, infos@[k]) implies header_rows_at(rows@, infos@[k]) by {
        let info = infos@[k];
        let h = info.literals_header;
        lemma_rows_for_bytes_kept(
            before,
            rows@,
            info.header_row as int,
            h.header_len as int,
            ZstdTag::LiteralsHeader,
            info.block_idx,
            info.literals_header_pos as int,
        );
        if h.block_type == LiteralsBlockType::Raw {
            lemma_rows_for_bytes_kept(
                before,
                rows@,
                info.header_row + h.header_len,
                h.regenerated_size as int,
                ZstdTag::LiteralsRawBytes,
                info.block_idx,
                info.literals_header_pos + h.header_len,
            );
        }
    }
}

/// `src[start..end]` is a compressed block's content made of a literals
/// header, raw or run-length literals that fill the block up to one last byte,
/// and that byte, zero: no sequences.
pub open spec fn literals_only_block(src: Seq<u8>, start: int, end: int) -> bool {
    &&& 0 <= start < end <= src.len()
    &&& start + header_len_of(src[start]) <= end
    &&& {
        let h = spec_literals_header(src, start);
        let p = start + h.header_len;
        ||| h.block_type == LiteralsBlockType::Raw && p + h.regenerated_size + 1 == end
            && src[p + h.regenerated_size] == 0
        ||| h.block_type == LiteralsBlockType::Rle && p + 2 == end && src[p + 1] == 0
    }
}

/// What such a block decodes to: its raw literals, or its one byte repeated.
pub open spec fn literals_only_output(src: Seq<u8>, start: int) -> Seq<u8> {
    let h = spec_literals_header(src, start);
    let p = start + h.header_len;
    if h.block_type == LiteralsBlockType::Raw {
        src.subrange(p, p + h.regenerated_size)
    } else {
        Seq::new(h.regenerated_size as nat, |i: int| src[p])
    }
}

/// The output of the blocks from `pos` to the end of `src`, where each is a
/// compressed block of that kind and the last one ends the input.
pub open spec fn literals_only_blocks(src: Seq<u8>, pos: int) -> Option<Seq<u8>>
    decreases src.len() - pos,
{
    if pos < 0 || pos + 3 > src.len() {
        None
    } else {
        let bh = spec_block_header(src, pos);
        let end = pos + 3 + bh.block_size;
        if bh.block_type != BlockType::Compressed || end > src.len() || !literals_only_block(
            src,
            pos + 3,
            end,
        ) {
            None
        } else if bh.is_last {
            if end == src.len() {
                Some(literals_only_output(src, pos + 3))
            } else {
                None
            }
        } else {
            match literals_only_blocks(src, end) {
                Some(rest) => Some(literals_only_output(src, pos + 3) + rest),
                None => None,
            }
        }
    }
}

/// `src` is one frame without checksum whose blocks are all of that kind.
pub open spec fn literals_only_frame(src: Seq<u8>) -> bool {
    &&& first_frame_ok(src)
    &&& (src[4] / 4) % 2 == 0
    &&& literals_only_blocks(src, frame_header_len_of(src[4]) as int) is Some
}

/// The literals header at `start` fits in `src[start..end]` but declares more
/// literal bytes (raw) or coded bytes (entropy-coded) than the block has left.
pub open spec fn literals_overrun(src: Seq<u8>, start: int, end: int) -> bool {
    &&& 0 <= start < end <= src.len()
    &&& start + header_len_of(src[start]) <= end
    &&& {
        let h = spec_literals_header(src, start);
        let p = start + h.header_len;
        ||| h.block_type == LiteralsBlockType::Raw && p + h.regenerated_size > end
        ||| is_entropy_coded(h.block_type) && p + h.compressed_size->Some_0 > end
    }
}

/// The first block of the input is a compressed one whose literals overrun it.
pub open spec fn first_block_overruns(src: Seq<u8>) -> bool {
    &&& first_frame_ok(src)
    &&& {
        let b = frame_header_len_of(src[4]) as int;
        &&& b + 3 <= src.len()
        &&& {
            let bh = spec_block_header(src, b);
            &&& bh.block_type == BlockType::Compressed
            &&& b + 3 + bh.block_size <= src.len()
            &&& literals_overrun(src, b + 3, b + 3 + bh.block_size)
        }
    }
}

/// The input opens with the frame magic and a frame header that fits.
pub open spec fn first_frame_ok(src: Seq<u8>) -> bool {
    &&& src.len() >= 5
    &&& le_value(src, 0, 4) == FRAME_MAGIC
    &&& frame_header_len_of(src[4]) <= src.len()
}

/// Decodes every frame of `src` and records the trace of the whole decode.
pub fn process(src: &Vec<u8>) -> (r: Result<MultiBlockProcessResult, DecodeError>)
    ensures
        src@.len() < 5 ==> r == Err::<MultiBlockProcessResult, DecodeError>(
            DecodeError::TruncatedInput,
        ),
        src@.len() >= 5 && le_value(src@, 0, 4) != FRAME_MAGIC ==> r == Err::<
            MultiBlockProcessResult,
            DecodeError,
        >(DecodeError::MalformedHeader),
        src@.len() >= 5 && le_value(src@, 0, 4) == FRAME_MAGIC && frame_header_len_of(src@[4])
            > src@.len() ==> r == Err::<MultiBlockProcessResult, DecodeError>(
            DecodeError::TruncatedInput,
        ),
        first_block_overruns(src@) ==> r == Err::<MultiBlockProcessResult, DecodeError>(
            DecodeError::TruncatedInput,
        ),
        r is Ok ==> r->Ok_0.block_info_arr@[0].literals_header_pos == frame_header_len_of(src@[4])
            + 3,
        literals_only_frame(src@) ==> r is Ok && Some(r->Ok_0.decoded@) == literals_only_blocks(
            src@,
            frame_header_len_of(src@[4]) as int,
        ),
        r is Ok ==> {
            let res = r->Ok_0;
            &&& rows_wf(src@, res.witness_rows@)
            &&& no_padding(res.witness_rows@)
            &&& res.block_info_arr@.len() > 0
            &&& open_at(res.witness_rows@, src@.len(), res.block_info_arr@.len() as u64)
            &&& blocks_match_rows(src@, res.block_info_arr@, res.witness_rows@)
            &&& forall|b: u64|
                b > res.block_info_arr@.len() ==> #[trigger] count_literal_rows(
                    res.witness_rows@,
                    b,
                ) == 0
        },
{
    if src.len() == 0 {
        return Err(DecodeError::TruncatedInput);
    }
    let mut rows: Vec<WitnessRow> = Vec::new();
    let mut lits: Vec<u8> = Vec::new();
    let mut out: Vec<u8> = Vec::new();
    let mut infos: Vec<BlockInfo> = Vec::new();
    let mut seq_infos: Vec<SequenceInfo> = Vec::new();
    let mut sequences: Vec<Sequence> = Vec::new();
    let mut fse_tables: Vec<BlockFseTables> = Vec::new();
    let mut cur: u64 = 0;
    let mut pos: usize = 0;
    proof {
        reveal(decode_state);
    }
    while pos < src.len() || cur == 0
        invariant
            decode_state(src@, rows@, infos@, pos as nat, cur),
            src@.len() > 0,
            rows@.len() == 0 <==> cur == 0,
            pos == 0 ==> cur == 0,
            pos > 0 ==> first_frame_ok(src@),
            pos > 0 ==> cur > 0,
            cur > 0 ==> !first_block_overruns(src@),
            cur > 0 ==> infos@[0].literals_header_pos == frame_header_len_of(src@[4]) + 3,
            literals_only_frame(src@) ==> (cur == 0 ==> out@ == Seq::<u8>::empty()) && (cur > 0
                ==> Some(out@) == literals_only_blocks(src@, frame_header_len_of(src@[4]) as int)
                && pos == src@.len()),
            cur > 0 ==> open_at(rows@, pos as nat, cur),
        decreases src.len() - pos + if cur == 0 { 1int } else { 0int },
    {
        proof {
            reveal(decode_state);
        }
        let fh = parse_frame_header(src, pos)?;
        emit_frame_bytes(src, pos, pos + fh.header_len, ZstdTag::FrameHeader, cur, &mut rows, &infos);
        pos = pos + fh.header_len;
        let mut done = false;
        let mut ctx = SequenceContext::new();
        let mut frame_out: Vec<u8> = Vec::new();
        let ghost frame_cur = cur;
        let ghost frame_pos = pos;
        while !done
            invariant
                decode_state(src@, rows@, infos@, pos as nat, cur),
                open_at(rows@, pos as nat, if cur == 0 { 1u64 } else { cur }),
                cur >= frame_cur,
                pos >= frame_pos,
                ctx.wf(),
                src@.len() > 0,
                first_frame_ok(src@),
                cur > 0 ==> !first_block_overruns(src@),
                cur > 0 ==> infos@[0].literals_header_pos == frame_header_len_of(src@[4]) + 3,
                cur == 0 ==> pos == frame_header_len_of(src@[4]),
                literals_only_frame(src@) ==> frame_cur == 0 && out@ == Seq::<u8>::empty() && (!done
                    ==> literals_only_blocks(src@, pos as int) is Some && Some(frame_out@
                    + literals_only_blocks(src@, pos as int)->Some_0) == literals_only_blocks(
                    src@,
                    frame_header_len_of(src@[4]) as int,
                )) && (done ==> Some(frame_out@) == literals_only_blocks(
                    src@,
                    frame_header_len_of(src@[4]) as int,
                ) && pos == src@.len()),
                literals_only_frame(src@) ==> !fh.has_checksum,
                done ==> cur > frame_cur,
            decreases src.len() - pos, if done { 0int } else { 1int },
        {
            let ghost old_out = frame_out@;
            let (np, is_last) = step_block(
                src,
                pos,
                cur,
                &mut rows,
                &mut lits,
                &mut frame_out,
                &mut infos,
                &mut seq_infos,
                &mut ctx,
                &mut sequences,
            )?;
            proof {
                reveal(decode_state);
                if literals_only_frame(src@) {
                    let blk = literals_only_output(src@, pos + 3);
                    if !is_last {
                        assert(frame_out@ + literals_only_blocks(src@, np as int)->Some_0 =~= old_out
                            + (blk + literals_only_blocks(src@, np as int)->Some_0));
                    } else {
                        assert(frame_out@ =~= old_out + blk);
                        assert(old_out + literals_only_blocks(src@, pos as int)->Some_0 =~= old_out
                            + blk);
                    }
                }
            }
            cur = cur + 1;
            pos = np;
            if is_last {
                done = true;
            }
        }
        out.append(&mut frame_out);
        fse_tables.append(&mut ctx.used);
        proof {
            reveal(decode_state);
        }
        if fh.has_checksum {
            if src.len() - pos < 4 {
                return Err(DecodeError::TruncatedInput);
            }
            emit_frame_bytes(src, pos, pos + 4, ZstdTag::FrameChecksum, cur, &mut rows, &infos);
                pos = pos + 4;
        }
        proof {
            reveal(decode_state);
        }
    }
    proof {
        reveal(decode_state);
        lemma_real_rows_before_padding(src@, rows@);
    }
    Ok(
        MultiBlockProcessResult {
            witness_rows: rows,
            literal_bytes: lits,
            block_info_arr: infos,
            sequence_info_arr: seq_infos,
            sequences,
            fse_tables,
            decoded: out,
        },
    )
}

} // verus!
