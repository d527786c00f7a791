use vstd::prelude::*;

use crate::bytes::{le_value, read_le};
use crate::error::DecodeError;

verus! {

/// The four bytes that open every frame, as a little-endian integer.
pub const FRAME_MAGIC: u64 = 0xFD2F_B528;

/// The parsed frame header.
#[derive(Debug, Clone, Copy, PartialEq, Eq, Structural)]
pub struct FrameHeader {
    pub single_segment: bool,
    pub has_checksum: bool,
    pub window_descriptor: Option<u8>,
    /// Width in bytes of the dictionary id field (0, 1, 2 or 4).
    pub dictionary_id_len: usize,
    pub content_size: Option<u64>,
    /// Number of bytes the header occupies, magic included.
    pub header_len: usize,
}

pub open spec fn dictionary_id_len_of(fhd: u8) -> nat {
    let f = fhd % 4;
    if f == 0 {
        0
    } else if f == 1 {
        1
    } else if f == 2 {
        2
    } else {
        4
    }
}

pub open spec fn content_size_len_of(fhd: u8) -> nat {
    let f = fhd / 64;
    if f == 0 {
        if (fhd / 32) % 2 == 1 {
            1
        } else {
            0
        }
    } else if f == 1 {
        2
    } else if f == 2 {
        4
    } else {
        8
    }
}

pub open spec fn window_len_of(fhd: u8) -> nat {
    if (fhd / 32) % 2 == 1 {
        0
    } else {
        1
    }
}

/// Width of the frame header whose descriptor byte is `fhd`.
pub open spec fn frame_header_len_of(fhd: u8) -> nat {
    5 + window_len_of(fhd) + dictionary_id_len_of(fhd) + content_size_len_of(fhd)
}

/// The header of the frame at `pos`, given that all of its bytes are there.
pub open spec fn spec_frame_header(s: Seq<u8>, pos: int) -> FrameHeader {
    let fhd = s[pos + 4];
    let fcs_pos = pos + 5 + window_len_of(fhd) + dictionary_id_len_of(fhd);
    let fcs_len = content_size_len_of(fhd);
    FrameHeader {
        single_segment: (fhd / 32) % 2 == 1,
        has_checksum: (fhd / 4) % 2 == 1,
        window_descriptor: if window_len_of(fhd) == 1 {
            Some(s[pos + 5])
        } else {
            None
        },
        dictionary_id_len: dictionary_id_len_of(fhd) as usize,
        content_size: if fcs_len == 0 {
            None
        } else if fcs_len == 2 {
            Some((le_value(s, fcs_pos, 2) + 256) as u64)
        } else {
            Some(le_value(s, fcs_pos, fcs_len) as u64)
        },
        header_len: frame_header_len_of(fhd) as usize,
    }
}

/// Parses the frame header at `pos`.
pub fn parse_frame_header(src: &Vec<u8>, pos: usize) -> (r: Result<FrameHeader, DecodeError>)
    requires
        pos <= src.len(),
    ensures
        pos + 5 > src.len() ==> r == Err::<FrameHeader, DecodeError>(
            DecodeError::TruncatedInput,
        ),
        pos + 5 <= src.len() && le_value(src@, pos as int, 4) != FRAME_MAGIC ==> r == Err::<
            FrameHeader,
            DecodeError,
        >(DecodeError::MalformedHeader),
        pos + 5 <= src.len() && le_value(src@, pos as int, 4) == FRAME_MAGIC && pos
            + frame_header_len_of(src@[pos + 4]) > src.len() ==> r == Err::<
            FrameHeader,
            DecodeError,
        >(DecodeError::TruncatedInput),
        pos + 5 <= src.len() && le_value(src@, pos as int, 4) == FRAME_MAGIC && pos
            + frame_header_len_of(src@[pos + 4]) <= src.len() ==> r == Ok::<
            FrameHeader,
            DecodeError,
        >(spec_frame_header(src@, pos as int)),
{
    if src.len() - pos < 5 {
        return Err(DecodeError::TruncatedInput);
    }
    let magic = read_le(src, pos, 4);
    if magic != FRAME_MAGIC {
        return Err(DecodeError::MalformedHeader);
    }
    let fhd = src[pos + 4];
    let single_segment = (fhd / 32) % 2 == 1;
    let window_len: usize = if single_segment {
        0
    } else {
        1
    };
    let f = fhd % 4;
    let dict_len: usize = if f == 0 {
        0
    } else if f == 1 {
        1
    } else if f == 2 {
        2
    } else {
        4
    };
    let c = fhd / 64;
    let fcs_len: usize = if c == 0 {
        if single_segment {
            1
        } else {
            0
        }
    } else if c == 1 {
        2
    } else if c == 2 {
        4
    } else {
        8
    };
    let len = 5 + window_len + dict_len + fcs_len;
    assert(len == frame_header_len_of(fhd));
    if len > src.len() - pos {
        return Err(DecodeError::TruncatedInput);
    }
    let window_descriptor = if single_segment {
        None
    } else {
        Some(src[pos + 5])
    };
    let fcs_pos = pos + 5 + window_len + dict_len;
    let content_size = if fcs_len == 0 {
        None
    } else if fcs_len == 2 {
        Some(read_le(src, fcs_pos, 2) + 256)
    } else {
        Some(read_le(src, fcs_pos, fcs_len))
    };
    Ok(
        FrameHeader {
            single_segment,
            has_checksum: (fhd / 4) % 2 == 1,
            window_descriptor,
            dictionary_id_len: dict_len,
            content_size,
            header_len: len,
        },
    )
}

/// How a block's content is stored.
#[derive(Debug, Clone, Copy, PartialEq, Eq, Structural)]
pub enum BlockType {
    Raw,
    Rle,
    Compressed,
    Reserved,
}

/// The three-byte header in front of every block.
#[derive(Debug, Clone, Copy, PartialEq, Eq, Structural)]
pub struct BlockHeader {
    pub is_last: bool,
    pub block_type: BlockType,
    pub block_size: u64,
}

pub open spec fn spec_block_header(s: Seq<u8>, pos: int) -> BlockHeader {
    let v = le_value(s, pos, 3);
    let t = (v / 2) % 4;
    BlockHeader {
        is_last: v % 2 == 1,
        block_type: if t == 0 {
            BlockType::Raw
        } else if t == 1 {
            BlockType::Rle
        } else if t == 2 {
            BlockType::Compressed
        } else {
            BlockType::Reserved
        },
        block_size: (v / 8) as u64,
    }
}

/// Parses the block header at `pos`.
pub fn parse_block_header(src: &Vec<u8>, pos: usize) -> (r: Result<BlockHeader, DecodeError>)
    requires
        pos <= src.len(),
    ensures
        pos + 3 > src.len() ==> r == Err::<BlockHeader, DecodeError>(
            DecodeError::TruncatedInput,
        ),
        pos + 3 <= src.len() ==> r == Ok::<BlockHeader, DecodeError>(
            spec_block_header(src@, pos as int),
        ),
{
    if src.len() - pos < 3 {
        return Err(DecodeError::TruncatedInput);
    }
    let v = read_le(src, pos, 3);
    let t = (v / 2) % 4;
    let block_type = if t == 0 {
        BlockType::Raw
    } else if t == 1 {
        BlockType::Rle
    } else if t == 2 {
        BlockType::Compressed
    } else {
        BlockType::Reserved
    };
    Ok(BlockHeader { is_last: v % 2 == 1, block_type, block_size: v / 8 })
}

} // verus!
