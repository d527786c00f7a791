use vstd::prelude::*;

verus! {

/// The role a consumed byte plays in the decode.
#[derive(Debug, Clone, Copy, PartialEq, Eq, Structural)]
pub enum ZstdTag {
    FrameHeader,
    BlockHeader,
    LiteralsHeader,
    LiteralsRawBytes,
    /// The byte a run of literals repeats.
    RunLengthByte,
    /// A byte of entropy-coded literals: their code, jump table or streams.
    HuffmanCode,
    SequencesHeader,
    SequencesData,
    FrameChecksum,
    Padding,
}

/// One row of the trace: a byte of the input and what the decoder made of it.
#[derive(Debug, Clone, Copy, PartialEq, Eq, Structural)]
pub struct WitnessRow {
    pub tag: ZstdTag,
    /// Index of the block the byte belongs to, counted from 1 over the whole input.
    pub block_idx: u64,
    /// Position of the byte in the input.
    pub byte_idx: u64,
    pub value_byte: u8,
    /// The block's regenerated size, once its literals header has been read.
    pub regen_size: u64,
    pub is_padding: bool,
}

/// A real row names a byte of `src` and carries its value.
pub open spec fn row_ok(src: Seq<u8>, r: WitnessRow) -> bool {
    r.is_padding || (r.byte_idx < src.len() && r.value_byte == src[r.byte_idx as int])
}

/// What each row owes the one before it.
pub open spec fn step_ok(prev: WitnessRow, next: WitnessRow) -> bool {
    &&& prev.byte_idx <= next.byte_idx
    &&& (!next.is_padding ==> next.byte_idx <= prev.byte_idx + 1)
    &&& (next.block_idx == prev.block_idx || (next.block_idx == prev.block_idx + 1
        && next.tag == ZstdTag::BlockHeader))
    &&& (prev.is_padding ==> next.is_padding)
}

/// The trace invariants: block indices start at 1 and step by at most one, only
/// where a block header begins; byte positions never go back; padding is a suffix.
///
/// A block's rows begin with its header, so its index steps there; the literals
/// header that follows carries the same index, and the literals header table
/// (see `table`) steps by exactly one per block. Positions are non-decreasing
/// rather than strictly increasing: a decoded literal gets one row of its own, so
/// that a block's regenerated size is its number of literal rows, and literals
/// that do not stand one for one with input bytes (run-length, entropy-coded)
/// share the position of the byte they come from (the run's byte has a row of its
/// own as well). Positions never skip a byte: every consumed byte has a row (see
/// `lemma_every_byte_has_a_row`). The key (block index, position) is then unique
/// for every row but those literal rows. A raw or run-length block has no
/// literals header, so it has no literals header rows.
pub open spec fn rows_wf(src: Seq<u8>, rows: Seq<WitnessRow>) -> bool {
    &&& (rows.len() > 0 ==> rows[0].block_idx == 1)
    &&& (rows.len() > 0 && !rows[0].is_padding ==> rows[0].byte_idx == 0)
    &&& forall|i: int| 0 <= i < rows.len() ==> row_ok(src, #[trigger] rows[i])
    &&& forall|i: int| 0 < i < rows.len() ==> step_ok(rows[i - 1], #[trigger] rows[i])
}

/// No row of the trace is padding.
pub open spec fn no_padding(rows: Seq<WitnessRow>) -> bool {
    forall|i: int| 0 <= i < rows.len() ==> !(#[trigger] rows[i]).is_padding
}

/// Padding never turns back into real rows: a padding row is followed only by
/// padding rows.
pub proof fn lemma_padding_monotone(src: Seq<u8>, rows: Seq<WitnessRow>, i: int, j: int)
    requires
        rows_wf(src, rows),
        0 <= i <= j < rows.len(),
        rows[i].is_padding,
    ensures
        rows[j].is_padding,
    decreases j - i,
{
    if i < j {
        assert(step_ok(rows[i], rows[i + 1]));
        lemma_padding_monotone(src, rows, i + 1, j);
    }
}

/// Block indices never decrease along a well-formed trace, and the first row
/// belongs to block 1.
pub proof fn lemma_block_idx_monotone(src: Seq<u8>, rows: Seq<WitnessRow>, i: int, j: int)
    requires
        rows_wf(src, rows),
        0 <= i <= j < rows.len(),
    ensures
        rows[0].block_idx == 1,
        rows[i].block_idx <= rows[j].block_idx,
        rows[j].block_idx <= rows[i].block_idx + (j - i),
    decreases j - i,
{
    if i < j {
        assert(step_ok(rows[j - 1], rows[j]));
        lemma_block_idx_monotone(src, rows, i, j - 1);
    }
}

/// No byte is skipped: every position from 0 to the last real row's has a row.
/// With `process`, whose last row is the input's last byte, every input byte has
/// a row.
pub proof fn lemma_every_byte_has_a_row(src: Seq<u8>, rows: Seq<WitnessRow>, j: int)
    requires
        rows_wf(src, rows),
        no_padding(rows),
        rows.len() > 0,
        0 <= j <= rows.last().byte_idx,
    ensures
        exists|i: int| 0 <= i < rows.len() && (#[trigger] rows[i]).byte_idx == j,
    decreases rows.len(),
{
    let n = rows.len() as int;
    if j == rows[n - 1].byte_idx {
        assert(rows[n - 1].byte_idx == j);
    } else {
        let d = rows.drop_last();
        assert(n > 1) by {
            if n == 1 {
                assert(rows[0].byte_idx == 0);
            }
        }
        assert(step_ok(rows[n - 2], rows[n - 1]));
        assert(rows_wf(src, d)) by {
            assert forall|i: int| 0 < i < d.len() implies step_ok(d[i - 1], #[trigger] d[i]) by {
                assert(step_ok(rows[i - 1], rows[i]));
            }
            assert forall|i: int| 0 <= i < d.len() implies row_ok(src, #[trigger] d[i]) by {
                assert(row_ok(src, rows[i]));
            }
        }
        assert(no_padding(d)) by {
            assert forall|i: int| 0 <= i < d.len() implies !(#[trigger] d[i]).is_padding by {
                assert(!rows[i].is_padding);
            }
        }
        lemma_every_byte_has_a_row(src, d, j);
        let i = choose|i: int| 0 <= i < d.len() && (#[trigger] d[i]).byte_idx == j;
        assert(rows[i].byte_idx == j);
    }
}

/// A well-formed trace whose last row is real has no padding at all.
pub proof fn lemma_real_rows_before_padding(src: Seq<u8>, rows: Seq<WitnessRow>)
    requires
        rows_wf(src, rows),
        rows.len() > 0,
        !rows.last().is_padding,
    ensures
        no_padding(rows),
{
    assert forall|i: int| 0 <= i < rows.len() implies !(#[trigger] rows[i]).is_padding by {
        if rows[i].is_padding {
            lemma_padding_monotone(src, rows, i, rows.len() - 1);
        }
    }
}

/// `new` is `old` with rows appended.
pub open spec fn keeps(old: Seq<WitnessRow>, new: Seq<WitnessRow>) -> bool {
    &&& new.len() >= old.len()
    &&& forall|k: int| 0 <= k < old.len() ==> #[trigger] new[k] == old[k]
}

/// The rows from `at` on, `n` of them, carry `tag` and `block_idx` and stand for
/// the bytes from `pos` on, one each.
pub open spec fn rows_for_bytes(
    rows: Seq<WitnessRow>,
    at: int,
    n: int,
    tag: ZstdTag,
    block_idx: u64,
    pos: int,
) -> bool {
    &&& 0 <= at
    &&& at + n <= rows.len()
    &&& forall|k: int|
        at <= k < at + n ==> (#[trigger] rows[k]).tag == tag && rows[k].block_idx == block_idx
            && rows[k].byte_idx == pos + (k - at)
}

/// Appending rows leaves earlier rows as they were.
pub proof fn lemma_rows_for_bytes_kept(
    a: Seq<WitnessRow>,
    b: Seq<WitnessRow>,
    at: int,
    n: int,
    tag: ZstdTag,
    block_idx: u64,
    pos: int,
)
    requires
        rows_for_bytes(a, at, n, tag, block_idx, pos),
        keeps(a, b),
    ensures
        rows_for_bytes(b, at, n, tag, block_idx, pos),
{
    assert forall|k: int| at <= k < at + n implies (#[trigger] b[k]).tag == tag && b[k].block_idx
        == block_idx && b[k].byte_idx == pos + (k - at) by {
        assert(b[k] == a[k]);
    }
}

/// Number of literal rows of block `b`.
pub open spec fn count_literal_rows(rows: Seq<WitnessRow>, b: u64) -> nat
    decreases rows.len(),
{
    if rows.len() == 0 {
        0
    } else {
        count_literal_rows(rows.drop_last(), b) + if rows.last().tag == ZstdTag::LiteralsRawBytes
            && rows.last().block_idx == b {
            1nat
        } else {
            0nat
        }
    }
}

/// Whether a real row for byte `pos` with this tag and block index may come next.
pub open spec fn may_append(rows: Seq<WitnessRow>, pos: nat, tag: ZstdTag, block_idx: u64) -> bool {
    &&& tag != ZstdTag::Padding
    &&& (rows.len() == 0 ==> block_idx == 1 && pos == 0)
    &&& (rows.len() > 0 ==> {
        let l = rows.last();
        &&& !l.is_padding
        &&& l.byte_idx <= pos <= l.byte_idx + 1
        &&& (block_idx == l.block_idx || (block_idx == l.block_idx + 1 && tag
            == ZstdTag::BlockHeader))
    })
}

/// Appends the row for byte `pos` of `src`.
pub fn push_row(
    rows: &mut Vec<WitnessRow>,
    src: &Vec<u8>,
    pos: usize,
    tag: ZstdTag,
    block_idx: u64,
    regen_size: u64,
)
    requires
        pos < src.len(),
        rows_wf(src@, old(rows)@),
        may_append(old(rows)@, pos as nat, tag, block_idx),
    ensures
        final(rows)@ == old(rows)@.push(
            WitnessRow {
                tag,
                block_idx,
                byte_idx: pos as u64,
                value_byte: src@[pos as int],
                regen_size,
                is_padding: false,
            },
        ),
        rows_wf(src@, final(rows)@),
        forall|b: u64|
            #[trigger] count_literal_rows(final(rows)@, b) == count_literal_rows(old(rows)@, b) + if tag
                == ZstdTag::LiteralsRawBytes && block_idx == b {
                1nat
            } else {
                0nat
            },
{
    let row = WitnessRow {
        tag,
        block_idx,
        byte_idx: pos as u64,
        value_byte: src[pos],
        regen_size,
        is_padding: false,
    };
    rows.push(row);
    assert(rows@.drop_last() =~= old(rows)@);
    assert forall|i: int| 0 < i < rows@.len() implies step_ok(rows@[i - 1], #[trigger] rows@[i]) by {
        if i == rows@.len() - 1 {
            assert(rows@[i - 1] == old(rows)@.last());
        }
    }
}

/// Extends the trace with padding rows up to `target` rows; each repeats the block
/// index, position and regenerated size of the last real row.
pub fn pad_rows(rows: &mut Vec<WitnessRow>, src: &Vec<u8>, target: usize)
    requires
        rows_wf(src@, old(rows)@),
    ensures
        rows_wf(src@, final(rows)@),
        final(rows)@.len() == if target > old(rows)@.len() {
            target as nat
        } else {
            old(rows)@.len()
        },
        final(rows)@.subrange(0, old(rows)@.len() as int) == old(rows)@,
        forall|i: int|
            old(rows)@.len() <= i < final(rows)@.len() ==> (#[trigger] final(rows)@[i]).is_padding
                && final(rows)@[i].tag == ZstdTag::Padding,
        forall|i: int|
            old(rows)@.len() <= i < final(rows)@.len() ==> (#[trigger] final(rows)@[i]).block_idx
                == (if old(rows)@.len() == 0 {
                1
            } else {
                old(rows)@.last().block_idx
            }) && final(rows)@[i].regen_size == (if old(rows)@.len() == 0 {
                0
            } else {
                old(rows)@.last().regen_size
            }) && final(rows)@[i].byte_idx == (if old(rows)@.len() == 0 {
                0
            } else {
                old(rows)@.last().byte_idx
            }),
        forall|b: u64| #[trigger]
            count_literal_rows(final(rows)@, b) == count_literal_rows(old(rows)@, b),
{
    let ghost start = old(rows)@;
    let n = rows.len();
    let (block_idx, byte_idx, regen_size) = if n == 0 {
        (1u64, 0u64, 0u64)
    } else {
        let l = rows[n - 1];
        (l.block_idx, l.byte_idx, l.regen_size)
    };
    let pad = WitnessRow {
        tag: ZstdTag::Padding,
        block_idx,
        byte_idx,
        value_byte: 0,
        regen_size,
        is_padding: true,
    };
    while rows.len() < target
        invariant
            rows_wf(src@, rows@),
            start.len() == n,
            rows@.len() >= n,
            rows@.len() <= n || rows@.len() <= target,
            rows@.subrange(0, n as int) == start,
            pad.block_idx == block_idx && pad.byte_idx == byte_idx && pad.is_padding && pad.tag
                == ZstdTag::Padding,
            n == 0 ==> block_idx == 1,
            n > 0 ==> block_idx == start.last().block_idx && byte_idx == start.last().byte_idx
                && regen_size == start.last().regen_size,
            n == 0 ==> byte_idx == 0 && regen_size == 0,
            pad.regen_size == regen_size,
            rows@.len() > n ==> rows@.last() == pad,
            forall|i: int| n <= i < rows@.len() ==> (#[trigger] rows@[i]) == pad,
            forall|b: u64| #[trigger] count_literal_rows(rows@, b) == count_literal_rows(start, b),
        decreases target - rows@.len(),
    {
        let ghost prev = rows@;
        rows.push(pad);
        assert(rows@.drop_last() =~= prev);
        assert(rows@.subrange(0, n as int) =~= prev.subrange(0, n as int));
        assert forall|b: u64| #[trigger]
            count_literal_rows(rows@, b) == count_literal_rows(start, b) by {
            assert(count_literal_rows(rows@, b) == count_literal_rows(prev, b));
        }
        assert forall|i: int| 0 < i < rows@.len() implies step_ok(
            rows@[i - 1],
            #[trigger] rows@[i],
        ) by {
            if i == rows@.len() - 1 {
                assert(rows@[i - 1] == prev.last());
                if prev.len() == n {
                    assert(prev =~= prev.subrange(0, n as int));
                    assert(prev.last() == start.last());
                } else {
                    assert(prev.last() == prev[prev.len() - 1]);
                }
            } else {
                assert(rows@[i - 1] == prev[i - 1]);
                assert(rows@[i] == prev[i]);
            }
        }
    }
}

} // verus!
