use vstd::prelude::*;

use crate::bytes::{le_value, read_le};
use crate::error::DecodeError;

verus! {

/// How the literals of a block are stored.
#[derive(Debug, Clone, Copy, PartialEq, Eq, Structural)]
pub enum LiteralsBlockType {
    Raw,
    Rle,
    Compressed,
    Treeless,
}

/// The decoded literals section header of one block.
#[derive(Debug, Clone, Copy, PartialEq, Eq, Structural)]
pub struct LiteralsHeader {
    pub block_type: LiteralsBlockType,
    pub size_format: u8,
    pub regenerated_size: u64,
    /// Present for entropy-coded literals only.
    pub compressed_size: Option<u64>,
    /// Number of bytes the header occupies (1 to 5).
    pub header_len: usize,
}

pub open spec fn literals_type_of(b0: u8) -> LiteralsBlockType {
    let t = b0 % 4;
    if t == 0 {
        LiteralsBlockType::Raw
    } else if t == 1 {
        LiteralsBlockType::Rle
    } else if t == 2 {
        LiteralsBlockType::Compressed
    } else {
        LiteralsBlockType::Treeless
    }
}

/// The size format: two bits, except that a raw or run-length header whose low
/// bit of them is clear uses that one bit alone.
pub open spec fn size_format_of(b0: u8) -> u8 {
    if b0 % 4 < 2 && (b0 / 4) % 2 == 0 {
        0
    } else {
        (b0 / 4) % 4
    }
}

pub open spec fn is_entropy_coded(t: LiteralsBlockType) -> bool {
    t == LiteralsBlockType::Compressed || t == LiteralsBlockType::Treeless
}

/// Width of the literals header that starts with `b0`.
pub open spec fn header_len_of(b0: u8) -> nat {
    let sf = size_format_of(b0);
    if !is_entropy_coded(literals_type_of(b0)) {
        if sf == 1 {
            2
        } else if sf == 3 {
            3
        } else {
            1
        }
    } else {
        if sf <= 1 {
            3
        } else if sf == 2 {
            4
        } else {
            5
        }
    }
}

/// One past the largest value of a size field in the header that starts with `b0`.
pub open spec fn field_bound_of(b0: u8) -> nat {
    let sf = size_format_of(b0);
    if !is_entropy_coded(literals_type_of(b0)) {
        if sf == 1 {
            4096
        } else if sf == 3 {
            1048576
        } else {
            32
        }
    } else {
        if sf <= 1 {
            1024
        } else if sf == 2 {
            16384
        } else {
            262144
        }
    }
}

/// The regenerated size that the header at `pos` declares.
pub open spec fn regen_size_at(s: Seq<u8>, pos: int) -> nat {
    let b0 = s[pos];
    let v = le_value(s, pos, header_len_of(b0));
    if header_len_of(b0) == 1 {
        v / 8
    } else {
        (v / 16) % field_bound_of(b0)
    }
}

/// The compressed size that an entropy-coded header at `pos` declares.
pub open spec fn compressed_size_at(s: Seq<u8>, pos: int) -> nat {
    let b0 = s[pos];
    le_value(s, pos, header_len_of(b0)) / (16 * field_bound_of(b0))
}

/// The header decoded from the bytes at `pos`, given that they are all there.
pub open spec fn spec_literals_header(s: Seq<u8>, pos: int) -> LiteralsHeader {
    let b0 = s[pos];
    LiteralsHeader {
        block_type: literals_type_of(b0),
        size_format: size_format_of(b0),
        regenerated_size: regen_size_at(s, pos) as u64,
        compressed_size: if is_entropy_coded(literals_type_of(b0)) {
            Some(compressed_size_at(s, pos) as u64)
        } else {
            None
        },
        header_len: header_len_of(b0) as usize,
    }
}

/// Decodes the literals header at `pos`, reading no byte at or past `end`.
pub fn decode_literals_header(src: &Vec<u8>, pos: usize, end: usize) -> (r: Result<
    LiteralsHeader,
    DecodeError,
>)
    requires
        pos <= end <= src.len(),
    ensures
        pos == end ==> r == Err::<LiteralsHeader, DecodeError>(DecodeError::TruncatedInput),
        pos < end && pos + header_len_of(src@[pos as int]) > end ==> r == Err::<
            LiteralsHeader,
            DecodeError,
        >(DecodeError::MalformedHeader),
        pos < end && pos + header_len_of(src@[pos as int]) <= end ==> r == Ok::<
            LiteralsHeader,
            DecodeError,
        >(spec_literals_header(src@, pos as int)),
        r is Ok ==> r->Ok_0.regenerated_size < 0x10_0000,
{
    if pos == end {
        return Err(DecodeError::TruncatedInput);
    }
    let b0 = src[pos];
    let t = b0 % 4;
    let sf = if t < 2 && (b0 / 4) % 2 == 0 {
        0
    } else {
        (b0 / 4) % 4
    };
    let block_type = if t == 0 {
        LiteralsBlockType::Raw
    } else if t == 1 {
        LiteralsBlockType::Rle
    } else if t == 2 {
        LiteralsBlockType::Compressed
    } else {
        LiteralsBlockType::Treeless
    };
    let entropy = t >= 2;
    let (len, bound): (usize, u64) = if !entropy {
        if sf == 1 {
            (2, 4096)
        } else if sf == 3 {
            (3, 1048576)
        } else {
            (1, 32)
        }
    } else {
        if sf <= 1 {
            (3, 1024)
        } else if sf == 2 {
            (4, 16384)
        } else {
            (5, 262144)
        }
    };
    assert(len == header_len_of(b0) && bound == field_bound_of(b0));
    if len > end - pos {
        return Err(DecodeError::MalformedHeader);
    }
    let v = read_le(src, pos, len);
    let regen = if len == 1 {
        v / 8
    } else {
        (v / 16) % bound
    };
    let compressed_size = if entropy {
        Some(v / (16 * bound))
    } else {
        None
    };
    Ok(LiteralsHeader { block_type, size_format: sf, regenerated_size: regen, compressed_size, header_len: len })
}

} // verus!
