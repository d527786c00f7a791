use vstd::prelude::*;

use crate::bytes::le_value;
use crate::decoder::{blocks_match_rows, BlockInfo};
use crate::frame::{spec_block_header, BlockType};
use crate::literals::{field_bound_of, header_len_of, regen_size_at};

verus! {

/// One entry of the literals header table: a block's header bytes (zero past the
/// header's end, at most three) and the regenerated size they declare.
#[derive(Debug, Clone, Copy, PartialEq, Eq, Structural)]
pub struct LiteralsHeaderRow {
    pub block_idx: u64,
    pub byte_offset: u64,
    pub byte0: u8,
    pub byte1: u8,
    pub byte2: u8,
    pub regen_size: u64,
    /// Whether the bytes are a literals header: false for a raw or run-length
    /// block, whose size is its regenerated size.
    pub from_header: bool,
    pub is_padding: bool,
}

/// The regenerated size that a header beginning with these bytes declares; its
/// size field always ends within the first three bytes.
pub open spec fn regen_from_bytes(b0: u8, b1: u8, b2: u8) -> nat {
    if header_len_of(b0) == 1 {
        b0 as nat / 8
    } else {
        ((b0 as nat + 256 * b1 as nat + 65536 * b2 as nat) / 16) % field_bound_of(b0)
    }
}

/// What the downstream check demands of the table: block indices start at 1 and
/// step by exactly one on every real row, padding is a suffix whose rows repeat
/// the block index and regenerated size of the row before, and each real row
/// read from a header has the regenerated size its header bytes declare.
pub open spec fn table_consistent(t: Seq<LiteralsHeaderRow>) -> bool {
    &&& (t.len() > 0 && !t[0].is_padding ==> t[0].block_idx == 1)
    &&& forall|i: int|
        0 < i < t.len() ==> ((#[trigger] t[i - 1]).is_padding ==> t[i].is_padding)
    &&& forall|i: int|
        0 < i < t.len() && !(#[trigger] t[i]).is_padding ==> t[i].block_idx == t[i - 1].block_idx
            + 1
    &&& forall|i: int|
        0 < i < t.len() && (#[trigger] t[i]).is_padding ==> t[i].block_idx == t[i - 1].block_idx
            && t[i].regen_size == t[i - 1].regen_size
    &&& forall|i: int| 0 <= i < t.len() ==> entry_size_ok(#[trigger] t[i])
}

/// A real entry's regenerated size is the one its bytes declare: a literals
/// header's, or for a raw or run-length block the size field of its block header.
pub open spec fn entry_size_ok(r: LiteralsHeaderRow) -> bool {
    !r.is_padding ==> if r.from_header {
        r.regen_size == regen_from_bytes(r.byte0, r.byte1, r.byte2)
    } else {
        r.regen_size == (r.byte0 as nat + 256 * r.byte1 as nat + 65536 * r.byte2 as nat) / 8
    }
}

/// Whether one entry's regenerated size is the one its bytes declare.
fn check_entry_size(r: &LiteralsHeaderRow) -> (ok: bool)
    ensures
        ok == entry_size_ok(*r),
{
    if !r.is_padding && !r.from_header {
        let v = r.byte0 as u64 + 256 * (r.byte1 as u64) + 65536 * (r.byte2 as u64);
        if r.regen_size != v / 8 {
            return false;
        }
    }
    if !r.is_padding && r.from_header {
        let b0 = r.byte0 as u64;
        let v = b0 + 256 * (r.byte1 as u64) + 65536 * (r.byte2 as u64);
        let t0 = b0 % 4;
        let sf = (b0 / 4) % 4;
        let (len, bound): (u64, u64) = if t0 < 2 {
            if sf == 1 {
                (2, 4096)
            } else if sf == 3 {
                (3, 1048576)
            } else {
                (1, 32)
            }
        } else {
            if sf <= 1 {
                (3, 1024)
            } else if sf == 2 {
                (4, 16384)
            } else {
                (5, 262144)
            }
        };
        assert(len == header_len_of(r.byte0) && bound == field_bound_of(r.byte0));
        let expected = if len == 1 {
            b0 / 8
        } else {
            (v / 16) % bound
        };
        if r.regen_size != expected {
            return false;
        }
    }
    true
}

/// Whether `t` passes the downstream consistency check.
pub fn check_literals_header_table(t: &Vec<LiteralsHeaderRow>) -> (r: bool)
    ensures
        r == table_consistent(t@),
{
    let n = t.len();
    if n > 0 && !t[0].is_padding && t[0].block_idx != 1 {
        return false;
    }
    let mut i: usize = 0;
    while i < n
        invariant
            n == t@.len(),
            i <= n,
            n > 0 && !t@[0].is_padding ==> t@[0].block_idx == 1,
            forall|j: int| 0 < j < i ==> ((#[trigger] t@[j - 1]).is_padding ==> t@[j].is_padding),
            forall|j: int|
                0 < j < i && !(#[trigger] t@[j]).is_padding ==> t@[j].block_idx == t@[j
                    - 1].block_idx + 1,
            forall|j: int|
                0 < j < i && (#[trigger] t@[j]).is_padding ==> t@[j].block_idx == t@[j
                    - 1].block_idx && t@[j].regen_size == t@[j - 1].regen_size,
            forall|j: int| 0 <= j < i ==> entry_size_ok(#[trigger] t@[j]),
        decreases n - i,
    {
        let r = t[i];
        if i > 0 {
            let p = t[i - 1];
            if p.is_padding && !r.is_padding {
                assert(!(t@[i as int - 1].is_padding ==> t@[i as int].is_padding));
                return false;
            }
            if !r.is_padding && (p.block_idx >= u64::MAX || r.block_idx != p.block_idx + 1) {
                assert(t@[i as int - 1] == p);
                return false;
            }
            if r.is_padding && (r.block_idx != p.block_idx || r.regen_size != p.regen_size) {
                assert(t@[i as int - 1] == p);
                return false;
            }
        }
        if !check_entry_size(&r) {
            return false;
        }
        i = i + 1;
    }
    true
}

/// Byte `i` of `s`, or zero past either end.
pub open spec fn src_byte(s: Seq<u8>, i: int) -> u8 {
    if 0 <= i < s.len() {
        s[i]
    } else {
        0
    }
}

/// The table entry of the block that `info` describes.
pub open spec fn header_row(src: Seq<u8>, info: BlockInfo) -> LiteralsHeaderRow {
    let p = info.literals_header_pos as int;
    let hl = info.literals_header.header_len;
    if info.block_type == BlockType::Compressed {
        LiteralsHeaderRow {
            block_idx: info.block_idx,
            byte_offset: info.literals_header_pos,
            byte0: src_byte(src, p),
            byte1: if hl > 1 {
                src_byte(src, p + 1)
            } else {
                0
            },
            byte2: if hl > 2 {
                src_byte(src, p + 2)
            } else {
                0
            },
            regen_size: info.literals_header.regenerated_size,
            from_header: true,
            is_padding: false,
        }
    } else {
        let bp = if p >= 3 {
            p - 3
        } else {
            0
        };
        LiteralsHeaderRow {
            block_idx: info.block_idx,
            byte_offset: bp as u64,
            byte0: src_byte(src, bp),
            byte1: src_byte(src, bp + 1),
            byte2: src_byte(src, bp + 2),
            regen_size: info.literals_header.regenerated_size,
            from_header: false,
            is_padding: false,
        }
    }
}

/// A padding entry: it repeats the last block's entry, marked as padding.
pub open spec fn padding_header_row(src: Seq<u8>, infos: Seq<BlockInfo>) -> LiteralsHeaderRow {
    if infos.len() == 0 {
        LiteralsHeaderRow {
            block_idx: 0,
            byte_offset: 0,
            byte0: 0,
            byte1: 0,
            byte2: 0,
            regen_size: 0,
            from_header: false,
            is_padding: true,
        }
    } else {
        LiteralsHeaderRow { is_padding: true, ..header_row(src, infos.last()) }
    }
}

/// The table of all blocks' literals headers, padded to `n` entries.
pub open spec fn spec_header_table(src: Seq<u8>, infos: Seq<BlockInfo>, n: nat) -> Seq<
    LiteralsHeaderRow,
> {
    let len = if n > infos.len() {
        n
    } else {
        infos.len()
    };
    Seq::new(
        len,
        |k: int|
            if k < infos.len() {
                header_row(src, infos[k])
            } else {
                padding_header_row(src, infos)
            },
    )
}

fn read_byte(src: &Vec<u8>, p: u64, d: u64) -> (r: u8)
    ensures
        r == src_byte(src@, p + d),
{
    let len = src.len() as u64;
    if p < len && d < len - p {
        src[(p + d) as usize]
    } else {
        0
    }
}

fn make_header_row(src: &Vec<u8>, info: &BlockInfo) -> (r: LiteralsHeaderRow)
    ensures
        r == header_row(src@, *info),
{
    let p = info.literals_header_pos;
    if info.block_type == BlockType::Compressed {
        let hl = info.literals_header.header_len;
        let byte1 = if hl > 1 {
            read_byte(src, p, 1)
        } else {
            0
        };
        let byte2 = if hl > 2 {
            read_byte(src, p, 2)
        } else {
            0
        };
        LiteralsHeaderRow {
            block_idx: info.block_idx,
            byte_offset: p,
            byte0: read_byte(src, p, 0),
            byte1,
            byte2,
            regen_size: info.literals_header.regenerated_size,
            from_header: true,
            is_padding: false,
        }
    } else {
        let bp = if p >= 3 {
            p - 3
        } else {
            0
        };
        LiteralsHeaderRow {
            block_idx: info.block_idx,
            byte_offset: bp,
            byte0: read_byte(src, bp, 0),
            byte1: read_byte(src, bp, 1),
            byte2: read_byte(src, bp, 2),
            regen_size: info.literals_header.regenerated_size,
            from_header: false,
            is_padding: false,
        }
    }
}

/// Builds the literals header table of the blocks in `infos`, with padding
/// entries up to `n` entries in all.
pub fn literals_header_table(src: &Vec<u8>, infos: &Vec<BlockInfo>, n: usize) -> (t: Vec<
    LiteralsHeaderRow,
>)
    ensures
        t@ == spec_header_table(src@, infos@, n as nat),
{
    let mut t: Vec<LiteralsHeaderRow> = Vec::new();
    let mut k: usize = 0;
    while k < infos.len()
        invariant
            k <= infos.len(),
            t@ == spec_header_table(src@, infos@, n as nat).subrange(0, k as int),
        decreases infos.len() - k,
    {
        let row = make_header_row(src, &infos[k]);
        t.push(row);
        k = k + 1;
        assert(t@ =~= spec_header_table(src@, infos@, n as nat).subrange(0, k as int));
    }
    let pad = if infos.len() == 0 {
        LiteralsHeaderRow {
            block_idx: 0,
            byte_offset: 0,
            byte0: 0,
            byte1: 0,
            byte2: 0,
            regen_size: 0,
            from_header: false,
            is_padding: true,
        }
    } else {
        let last = make_header_row(src, &infos[infos.len() - 1]);
        LiteralsHeaderRow { is_padding: true, ..last }
    };
    while t.len() < n
        invariant
            infos@.len() <= t@.len(),
            t@.len() <= n || t@.len() == infos@.len(),
            pad == padding_header_row(src@, infos@),
            t@ == spec_header_table(src@, infos@, n as nat).subrange(0, t@.len() as int),
        decreases n - t@.len(),
    {
        t.push(pad);
        assert(t@ =~= spec_header_table(src@, infos@, n as nat).subrange(0, t@.len() as int));
    }
    assert(t@ =~= spec_header_table(src@, infos@, n as nat));
    t
}

proof fn lemma_high_bytes_vanish(x: int, y: int, m: int)
    requires
        0 <= x,
        0 <= y,
        m == 16384 || m == 262144,
    ensures
        ((x + 16777216 * y) / 16) % m == (x / 16) % m,
{
    let a = x / 16;
    vstd::arithmetic::div_mod::lemma_hoist_over_denominator(x, 1048576 * y, 16);
    assert((x + 16777216 * y) / 16 == a + 1048576 * y);
    let k: int = if m == 16384 {
        64
    } else {
        4
    };
    assert(m * (k * y) == 1048576 * y) by (nonlinear_arith)
        requires
            (m == 16384 && k == 64) || (m == 262144 && k == 4),
    ;
    vstd::arithmetic::div_mod::lemma_mod_multiples_vanish(k * y, a, m);
}

/// The regenerated size that a literals header declares can be read off its
/// first three bytes.
proof fn lemma_regen_from_first_bytes(src: Seq<u8>, pos: int)
    requires
        0 <= pos < src.len(),
    ensures
        ({
            let hl = header_len_of(src[pos]);
            regen_size_at(src, pos) == regen_from_bytes(
                src[pos],
                if hl > 1 {
                    src_byte(src, pos + 1)
                } else {
                    0
                },
                if hl > 2 {
                    src_byte(src, pos + 2)
                } else {
                    0
                },
            )
        }),
{
    let b0 = src[pos];
    let hl = header_len_of(b0);
    let x = src_byte(src, pos) as nat + 256 * src_byte(src, pos + 1) as nat + 65536 * src_byte(
        src,
        pos + 2,
    ) as nat;
    reveal_with_fuel(le_value, 6);
    if hl == 4 {
        lemma_high_bytes_vanish(x as int, src_byte(src, pos + 3) as int, field_bound_of(b0) as int);
    } else if hl == 5 {
        lemma_high_bytes_vanish(
            x as int,
            src_byte(src, pos + 3) as int + 256 * src_byte(src, pos + 4) as int,
            field_bound_of(b0) as int,
        );
    }
}

/// Every table built from a successful decode passes the downstream check,
/// whatever number of padding entries is asked for.
pub proof fn lemma_decoded_table_consistent(
    src: Seq<u8>,
    infos: Seq<BlockInfo>,
    rows: Seq<crate::witness::WitnessRow>,
    n: nat,
)
    requires
        blocks_match_rows(src, infos, rows),
    ensures
        table_consistent(spec_header_table(src, infos, n)),
{
    let t = spec_header_table(src, infos, n);
    assert forall|i: int|
        0 <= i < t.len() && !(#[trigger] t[i]).is_padding && t[i].from_header implies t[i].regen_size
            == regen_from_bytes(t[i].byte0, t[i].byte1, t[i].byte2) by {
        let p = infos[i].literals_header_pos as int;
        lemma_regen_from_first_bytes(src, p);
    }
    assert forall|i: int| 0 <= i < t.len() implies entry_size_ok(#[trigger] t[i]) by {
        if i < infos.len() {
            let p = infos[i].literals_header_pos as int;
            if infos[i].block_type == BlockType::Compressed {
                lemma_regen_from_first_bytes(src, p);
            } else {
                reveal_with_fuel(le_value, 4);
                assert(spec_block_header(src, p - 3).block_size == le_value(src, p - 3, 3) / 8);
            }
        }
    }
    assert forall|i: int| 0 < i < t.len() && (#[trigger] t[i]).is_padding implies t[i].block_idx
        == t[i - 1].block_idx && t[i].regen_size == t[i - 1].regen_size by {
        if i - 1 < infos.len() {
            assert(i - 1 == infos.len() - 1);
        }
    }
}

} // verus!
