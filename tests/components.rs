use aggregator::decoder::process;
use aggregator::error::DecodeError;
use aggregator::frame::{parse_block_header, parse_frame_header, BlockType};
use aggregator::literals::{decode_literals_header, LiteralsBlockType};
use aggregator::prover_types::{
    MockAccount, MockTransaction, ProofLayer, ProverTypeBatch, ProverTypeBundle, ProverTypeChunk,
};
use aggregator::prover_types::tx_from_1_to_0;
use aggregator::sequences::{execute_sequences, Sequence};
use aggregator::witness::{pad_rows, ZstdTag};
use aggregator::bitstream::open_backward;
use aggregator::fse::{build_fse_table, read_fse_description, FseEntry};
use aggregator::huffman::{build_huffman_table, read_weights};
use aggregator::seqdecode::{resolve_offset, RepeatOffsets};

const MAGIC: [u8; 4] = [0x28, 0xB5, 0x2F, 0xFD];

/// One frame (single segment, one-byte content size) around the given blocks.
fn frame(content_size: u8, blocks: &[Vec<u8>]) -> Vec<u8> {
    let mut out = MAGIC.to_vec();
    out.push(0x20);
    out.push(content_size);
    for (i, content) in blocks.iter().enumerate() {
        let last = if i + 1 == blocks.len() { 1 } else { 0 };
        let v = (last | (2 << 1) | (content.len() << 3)) as u32;
        out.extend_from_slice(&v.to_le_bytes()[..3]);
        out.extend_from_slice(content);
    }
    out
}

/// A block whose literals `lits` (fewer than 32) are stored raw, without sequences.
fn raw_block(lits: &[u8]) -> Vec<u8> {
    let mut b = vec![(lits.len() << 3) as u8];
    b.extend_from_slice(lits);
    b.push(0);
    b
}

#[test]
fn one_byte_raw_literals_header() {
    let h = decode_literals_header(&vec![0x08], 0, 1).unwrap();
    assert_eq!(h.block_type, LiteralsBlockType::Raw);
    assert_eq!(h.size_format, 0);
    assert_eq!(h.regenerated_size, 1);
    assert_eq!(h.compressed_size, None);
    assert_eq!(h.header_len, 1);
}

#[test]
fn two_and_three_byte_raw_literals_headers() {
    // size_format 1: 12 bits, four from byte 0 and eight from byte 1.
    let h = decode_literals_header(&vec![0x54, 0x12], 0, 2).unwrap();
    assert_eq!(h.header_len, 2);
    assert_eq!(h.regenerated_size, 0x125);
    // size_format 3 on a run-length header: 20 bits.
    let h = decode_literals_header(&vec![0x7D, 0x34, 0x12], 0, 3).unwrap();
    assert_eq!(h.block_type, LiteralsBlockType::Rle);
    assert_eq!(h.header_len, 3);
    assert_eq!(h.regenerated_size, 0x12347);
}

#[test]
fn entropy_coded_literals_headers() {
    // Compressed, size_format 0: 10-bit regenerated and compressed sizes.
    let v: u32 = 2 | (500 << 4) | (300 << 14);
    let bytes = v.to_le_bytes()[..3].to_vec();
    let h = decode_literals_header(&bytes, 0, 3).unwrap();
    assert_eq!(h.block_type, LiteralsBlockType::Compressed);
    assert_eq!(h.regenerated_size, 500);
    assert_eq!(h.compressed_size, Some(300));
    // Treeless, size_format 2: 14-bit fields over four bytes.
    let v: u32 = 3 | (2 << 2) | (10000 << 4) | (9000 << 18);
    let h = decode_literals_header(&v.to_le_bytes().to_vec(), 0, 4).unwrap();
    assert_eq!(h.block_type, LiteralsBlockType::Treeless);
    assert_eq!(h.header_len, 4);
    assert_eq!(h.regenerated_size, 10000);
    assert_eq!(h.compressed_size, Some(9000));
    // Compressed, size_format 3: 18-bit fields over five bytes.
    let v: u64 = 2 | (3 << 2) | (200000 << 4) | (150000 << 22);
    let h = decode_literals_header(&v.to_le_bytes()[..5].to_vec(), 0, 5).unwrap();
    assert_eq!(h.header_len, 5);
    assert_eq!(h.regenerated_size, 200000);
    assert_eq!(h.compressed_size, Some(150000));
}

#[test]
fn literals_header_errors() {
    assert_eq!(decode_literals_header(&vec![0x08], 1, 1), Err(DecodeError::TruncatedInput));
    // size_format 1 needs two bytes; only one is there.
    assert_eq!(decode_literals_header(&vec![0x54], 0, 1), Err(DecodeError::MalformedHeader));
}

#[test]
fn compressed_size_beyond_block_is_truncated_input() {
    // Compressed literals declaring 300 bytes in a block that holds 4 more.
    let v: u32 = 2 | (500 << 4) | (300 << 14);
    let mut content = v.to_le_bytes()[..3].to_vec();
    content.extend_from_slice(&[1, 2, 3, 0]);
    let src = frame(10, &[content]);
    assert_eq!(process(&src), Err(DecodeError::TruncatedInput));
}

#[test]
fn raw_literals_beyond_block_is_truncated_input() {
    let content = vec![(5 << 3) as u8, 1, 2, 0];
    let src = frame(5, &[content]);
    assert_eq!(process(&src), Err(DecodeError::TruncatedInput));
}

#[test]
fn offset_beyond_output_is_corrupted_offset() {
    let seqs = vec![Sequence { literal_length: 2, match_length: 7, offset: 3 }];
    assert_eq!(execute_sequences(&vec![1, 2], &seqs), Err(DecodeError::CorruptedOffset));
    let zero = vec![Sequence { literal_length: 1, match_length: 1, offset: 0 }];
    assert_eq!(execute_sequences(&vec![1], &zero), Err(DecodeError::CorruptedOffset));
}

#[test]
fn overlapping_match_and_trailing_literals() {
    let seqs = vec![
        Sequence { literal_length: 2, match_length: 5, offset: 1 },
        Sequence { literal_length: 1, match_length: 4, offset: 3 },
    ];
    let out = execute_sequences(&vec![7, 8, 9, 4, 5], &seqs).unwrap();
    assert_eq!(out, vec![7, 8, 8, 8, 8, 8, 8, 9, 8, 8, 9, 8, 4, 5]);
}

#[test]
fn literals_longer_than_pending_are_truncated_input() {
    let seqs = vec![Sequence { literal_length: 3, match_length: 1, offset: 1 }];
    assert_eq!(execute_sequences(&vec![1, 2], &seqs), Err(DecodeError::TruncatedInput));
}

#[test]
fn frame_header_fields() {
    let mut src = MAGIC.to_vec();
    // content size flag 1 (two bytes, plus 256), no single segment, checksum, 1-byte dict id.
    src.extend_from_slice(&[0x45, 0x58, 0x99, 0x10, 0x00]);
    let h = parse_frame_header(&src, 0).unwrap();
    assert!(!h.single_segment);
    assert!(h.has_checksum);
    assert_eq!(h.window_descriptor, Some(0x58));
    assert_eq!(h.dictionary_id_len, 1);
    assert_eq!(h.content_size, Some(0x10 + 256));
    assert_eq!(h.header_len, 9);
}

#[test]
fn frame_header_errors() {
    assert_eq!(parse_frame_header(&vec![], 0), Err(DecodeError::TruncatedInput));
    assert_eq!(parse_frame_header(&vec![0, 1, 2, 3, 4], 0), Err(DecodeError::MalformedHeader));
    let mut src = MAGIC.to_vec();
    src.push(0xA0);
    assert_eq!(parse_frame_header(&src, 0), Err(DecodeError::TruncatedInput));
    assert_eq!(process(&vec![]), Err(DecodeError::TruncatedInput));
    assert_eq!(process(&vec![0, 1, 2, 3, 4, 5]), Err(DecodeError::MalformedHeader));
}

#[test]
fn block_header_fields() {
    let v: u32 = 1 | (2 << 1) | (1000 << 3);
    let h = parse_block_header(&v.to_le_bytes().to_vec(), 0).unwrap();
    assert!(h.is_last);
    assert_eq!(h.block_type, BlockType::Compressed);
    assert_eq!(h.block_size, 1000);
    assert_eq!(parse_block_header(&vec![1, 2], 0), Err(DecodeError::TruncatedInput));
}

#[test]
fn decode_two_blocks_trace() {
    let src = frame(5, &[raw_block(&[10, 11, 12]), raw_block(&[13, 14])]);
    let res = process(&src).unwrap();
    assert_eq!(res.decoded, vec![10, 11, 12, 13, 14]);
    assert_eq!(res.block_info_arr.len(), 2);
    let rows = &res.witness_rows;
    assert_eq!(rows.len(), src.len());
    assert_eq!(rows[0].block_idx, 1);
    for (i, r) in rows.iter().enumerate() {
        assert_eq!(r.byte_idx, i as u64);
        assert_eq!(r.value_byte, src[i]);
        assert!(!r.is_padding);
        if i > 0 {
            let step = r.block_idx - rows[i - 1].block_idx;
            assert!(step == 0 || (step == 1 && r.tag == ZstdTag::BlockHeader));
        }
    }
    for info in &res.block_info_arr {
        let count = rows
            .iter()
            .filter(|r| r.tag == ZstdTag::LiteralsRawBytes && r.block_idx == info.block_idx)
            .count() as u64;
        assert_eq!(info.literals_header.regenerated_size, count);
    }
    assert_eq!(rows[6].tag, ZstdTag::BlockHeader);
    assert_eq!(rows[9].tag, ZstdTag::LiteralsHeader);
    assert_eq!(rows[9].regen_size, 3);
}

#[test]
fn decode_is_deterministic() {
    let src = frame(5, &[raw_block(&[10, 11, 12]), raw_block(&[13, 14])]);
    assert_eq!(process(&src), process(&src));
}

#[test]
fn run_length_literals() {
    let content = vec![(6 << 3) as u8 | 1, 0xAB, 0];
    let src = frame(6, &[content]);
    let res = process(&src).unwrap();
    assert_eq!(res.decoded, vec![0xAB; 6]);
    let lit_rows = res.witness_rows.iter().filter(|r| r.tag == ZstdTag::LiteralsRawBytes);
    assert_eq!(lit_rows.count(), 6);
}

#[test]
fn two_frames_continue_the_block_count() {
    let mut src = frame(1, &[raw_block(&[1])]);
    src.extend(frame(2, &[raw_block(&[2, 3])]));
    let res = process(&src).unwrap();
    assert_eq!(res.decoded, vec![1, 2, 3]);
    let idx: Vec<u64> = res.block_info_arr.iter().map(|b| b.block_idx).collect();
    assert_eq!(idx, vec![1, 2]);
}

#[test]
fn checksum_bytes_get_rows() {
    let mut src = MAGIC.to_vec();
    src.extend_from_slice(&[0x24, 1]);
    src.extend_from_slice(&[(1 | (2 << 1) | (3 << 3)) as u8, 0, 0]);
    src.extend_from_slice(&raw_block(&[9]));
    src.extend_from_slice(&[1, 2, 3, 4]);
    let res = process(&src).unwrap();
    assert_eq!(res.witness_rows.len(), src.len());
    assert_eq!(res.witness_rows.last().unwrap().tag, ZstdTag::FrameChecksum);
}

#[test]
fn raw_and_run_length_blocks() {
    // A raw block of three bytes, then a last run-length block of four.
    let mut src = MAGIC.to_vec();
    src.extend_from_slice(&[0x20, 7, (3 << 3) as u8, 0, 0, 1, 2, 3]);
    src.extend_from_slice(&[1 | (1 << 1) | (4 << 3), 0, 0, 9]);
    let res = process(&src).unwrap();
    assert_eq!(res.decoded, vec![1, 2, 3, 9, 9, 9, 9]);
    assert_eq!(res.block_info_arr[0].block_type, BlockType::Raw);
    assert_eq!(res.block_info_arr[1].block_type, BlockType::Rle);
    assert_eq!(res.block_info_arr[1].literals_header.regenerated_size, 4);
    let rle_rows = res
        .witness_rows
        .iter()
        .filter(|r| r.tag == ZstdTag::LiteralsRawBytes && r.block_idx == 2)
        .count();
    assert_eq!(rle_rows, 4);
}

#[test]
fn unsupported_inputs() {
    // A block of the reserved type.
    let mut src = MAGIC.to_vec();
    src.extend_from_slice(&[0x20, 1, 1 | (3 << 1) | (1 << 3), 0, 0, 5]);
    assert_eq!(process(&src), Err(DecodeError::UnsupportedBlockType));
    // Bytes after an empty sequences section.
    let src = frame(1, &[vec![1 << 3, 7, 0, 0]]);
    assert_eq!(process(&src), Err(DecodeError::MalformedHeader));
    // A raw block longer than the input.
    let mut src = MAGIC.to_vec();
    src.extend_from_slice(&[0x20, 9, 1 | (9 << 3), 0, 0, 1, 2]);
    assert_eq!(process(&src), Err(DecodeError::TruncatedInput));
}

#[test]
fn padding_repeats_last_row() {
    let src = frame(2, &[raw_block(&[10, 11])]);
    let mut rows = process(&src).unwrap().witness_rows;
    let n = rows.len();
    let last = rows[n - 1];
    pad_rows(&mut rows, &src, n + 5);
    assert_eq!(rows.len(), n + 5);
    for r in &rows[n..] {
        assert!(r.is_padding);
        assert_eq!(r.tag, ZstdTag::Padding);
        assert_eq!(r.block_idx, last.block_idx);
        assert_eq!(r.regen_size, last.regen_size);
    }
    pad_rows(&mut rows, &src, 3);
    assert_eq!(rows.len(), n + 5);
}

#[test]
fn prover_layers() {
    assert_eq!(
        ProverTypeChunk::layers(),
        vec![ProofLayer::Layer0, ProofLayer::Layer1, ProofLayer::Layer2]
    );
    assert_eq!(ProverTypeChunk::base_layer(), ProofLayer::Layer0);
    assert_eq!(ProverTypeChunk::outermost_layer(), ProofLayer::Layer2);
    assert_eq!(ProverTypeChunk::compression_layers(), vec![ProofLayer::Layer1, ProofLayer::Layer2]);
    assert_eq!(ProverTypeBatch::<15>::base_layer(), ProofLayer::Layer3);
    assert_eq!(ProverTypeBatch::<15>::outermost_layer(), ProofLayer::Layer4);
    assert_eq!(ProverTypeBatch::<15>::compression_layers(), vec![ProofLayer::Layer4]);
    assert_eq!(ProverTypeBundle::layers(), vec![ProofLayer::Layer5, ProofLayer::Layer6]);
}

#[test]
fn first_transaction_goes_from_account_1_to_account_0() {
    let a0 = MockAccount { address: [0x11; 20], balance: 10 };
    let a1 = MockAccount { address: [0x22; 20], balance: 10 };
    let t = MockTransaction { from: [0; 20], to: None, value: 5, nonce: 3 };
    let mut txs = vec![t, t];
    tx_from_1_to_0(&mut txs, &[a0, a1]);
    assert_eq!(txs[0].from, [0x22; 20]);
    assert_eq!(txs[0].to, Some([0x11; 20]));
    assert_eq!(txs[0].value, 5);
    assert_eq!(txs[1], t);
}

/// A block with raw literals `lits` (fewer than 32) and a sequences section whose
/// three tables are single-symbol ones (literal-length, offset, match-length code).
fn block_with_rle_sequences(lits: &[u8], count: u8, codes: [u8; 3], stream: &[u8]) -> Vec<u8> {
    let mut b = vec![(lits.len() << 3) as u8];
    b.extend_from_slice(lits);
    b.push(count);
    b.push(0x54);
    b.extend_from_slice(&codes);
    b.extend_from_slice(stream);
    b
}

#[test]
fn sequences_with_single_symbol_tables() {
    // Literal length 2, match length 4, offset code 2 with zero extra bits: offset
    // value 4, which stands for offset 1.
    let content = block_with_rle_sequences(b"abcde", 2, [2, 2, 1], &[0x10]);
    let src = frame(13, &[content]);
    let res = process(&src).unwrap();
    assert_eq!(res.decoded, b"abbbbbcddddde".to_vec());
    assert_eq!(res.sequences.len(), 2);
    assert_eq!(res.sequences[0], Sequence { literal_length: 2, match_length: 4, offset: 1 });
    assert_eq!(res.sequence_info_arr[0].num_sequences, 2);
    let data_rows = res.witness_rows.iter().filter(|r| r.tag == ZstdTag::SequencesData).count();
    assert_eq!(data_rows, 1);
    let header_rows = res.witness_rows.iter().filter(|r| r.tag == ZstdTag::SequencesHeader).count();
    assert_eq!(header_rows, 5);
}

#[test]
fn sequence_offset_before_output_start_is_corrupted_offset() {
    // Offset code 5 with zero extra bits: offset value 32, offset 29, but only two
    // bytes precede the match.
    let content = block_with_rle_sequences(b"ab", 1, [2, 5, 1], &[0x20]);
    let src = frame(6, &[content]);
    assert_eq!(process(&src), Err(DecodeError::CorruptedOffset));
}

#[test]
fn sequence_stream_without_marker_is_malformed() {
    let content = block_with_rle_sequences(b"ab", 1, [2, 2, 1], &[0x00]);
    let src = frame(6, &[content]);
    assert_eq!(process(&src), Err(DecodeError::MalformedHeader));
}

#[test]
fn predefined_literal_length_table() {
    let norm: Vec<i16> = vec![
        4, 3, 2, 2, 2, 2, 2, 2, 2, 2, 2, 2, 2, 1, 1, 1, 2, 2, 2, 2, 2, 2, 2, 2, 2, 3, 2, 1, 1, 1,
        1, 1, -1, -1, -1, -1,
    ];
    let t = build_fse_table(&norm, 6).unwrap();
    assert_eq!(t.entries.len(), 64);
    let e = |symbol: u8, nb_bits: u32, baseline: u32| FseEntry { symbol, nb_bits, baseline };
    assert_eq!(t.entries[0], e(0, 4, 0));
    assert_eq!(t.entries[1], e(0, 4, 16));
    assert_eq!(t.entries[2], e(1, 5, 32));
    assert_eq!(t.entries[3], e(3, 5, 0));
    assert_eq!(t.entries[60], e(35, 6, 0));
    assert_eq!(t.entries[63], e(32, 6, 0));
    for s in 0..norm.len() {
        let n = t.entries.iter().filter(|x| x.symbol as usize == s).count() as i16;
        assert_eq!(n, if norm[s] == -1 { 1 } else { norm[s] });
    }
}

#[test]
fn distribution_not_summing_to_table_size_overflows() {
    assert_eq!(build_fse_table(&vec![4, 3], 3), Err(DecodeError::FseTableOverflow));
    assert_eq!(build_fse_table(&vec![4, -2, 6], 3), Err(DecodeError::FseTableOverflow));
    assert_eq!(build_fse_table(&vec![1024], 10), Err(DecodeError::FseTableOverflow));
    let t = build_fse_table(&vec![2, 1, -1], 2).unwrap();
    assert_eq!(t.entries.len(), 4);
    assert_eq!(t.entries[3].symbol, 2);
}

#[test]
fn backward_bits() {
    // Marker at bit 3 of the last byte: eleven bits to read, from the top down.
    let src = vec![0b1011_0110, 0b0000_1101];
    let mut br = open_backward(&src, 0, 2).unwrap();
    assert_eq!(br.remaining, 11);
    assert_eq!(br.read_bits(&src, 3), Ok(0b101));
    assert_eq!(br.read_bits(&src, 4), Ok(0b1011));
    assert_eq!(br.read_bits(&src, 4), Ok(0b0110));
    assert_eq!(br.read_bits(&src, 1), Err(DecodeError::TruncatedInput));
    assert_eq!(open_backward(&vec![1, 0], 0, 2).err(), Some(DecodeError::MalformedHeader));
}

#[test]
fn repeat_offsets() {
    let mut rep = RepeatOffsets { rep0: 1, rep1: 4, rep2: 8 };
    assert_eq!(resolve_offset(&mut rep, 10, 3), 7);
    assert_eq!(rep, RepeatOffsets { rep0: 7, rep1: 1, rep2: 4 });
    assert_eq!(resolve_offset(&mut rep, 2, 3), 1);
    assert_eq!(rep, RepeatOffsets { rep0: 1, rep1: 7, rep2: 4 });
    assert_eq!(resolve_offset(&mut rep, 3, 0), 0);
    assert_eq!(rep, RepeatOffsets { rep0: 0, rep1: 1, rep2: 7 });
}

#[test]
fn table_description_in_the_stream() {
    // Accuracy log 5; symbol 0 count 16 in five bits; symbol 1 count 16 in four
    // bits plus one: fourteen bits in all.
    let src = vec![0x10, 0x3F, 0xAA];
    let (t, used) = read_fse_description(&src, 0, 3, 35).unwrap();
    assert_eq!(used, 2);
    assert_eq!(t.accuracy_log, 5);
    assert_eq!(t.entries.len(), 32);
    let zeros = t.entries.iter().filter(|e| e.symbol == 0).count();
    assert_eq!(zeros, 16);
    assert_eq!(read_fse_description(&src, 0, 1, 35).err(), Some(DecodeError::TruncatedInput));
}

#[test]
fn prefix_code_from_weights() {
    // Weights 1 and 1 sum to 2; the last symbol completes the code with weight 2.
    let t = build_huffman_table(&vec![1, 1]).unwrap();
    assert_eq!(t.max_bits, 2);
    assert_eq!(t.symbols, vec![0, 1, 2, 2]);
    assert_eq!(t.lengths, vec![2, 2, 1, 1]);
    // Weights 3 and 1 leave 3 of 8, which no single weight fills.
    assert_eq!(build_huffman_table(&vec![3, 1]).err(), Some(DecodeError::HuffmanDecodeFailure));
    assert_eq!(build_huffman_table(&vec![12]).err(), Some(DecodeError::HuffmanDecodeFailure));
    assert_eq!(build_huffman_table(&vec![0, 0]).err(), Some(DecodeError::HuffmanDecodeFailure));
}

#[test]
fn packed_weights() {
    // Header 0x82: three 4-bit weights in two bytes.
    let (w, used) = read_weights(&vec![0x82, 0x12, 0x30], 0, 3).unwrap();
    assert_eq!(w, vec![1, 2, 3]);
    assert_eq!(used, 3);
    assert_eq!(read_weights(&vec![0x82, 0x12], 0, 2).err(), Some(DecodeError::TruncatedInput));
}

#[test]
fn one_block_stream_with_header_0x08() {
    let src = vec![0x28, 0xB5, 0x2F, 0xFD, 0x20, 0x01, 0x1D, 0x00, 0x00, 0x08, 0x41, 0x00];
    let res = process(&src).unwrap();
    assert_eq!(res.decoded, vec![0x41]);
    let header_rows: Vec<u8> = res
        .witness_rows
        .iter()
        .filter(|r| r.tag == ZstdTag::LiteralsHeader)
        .map(|r| r.value_byte)
        .collect();
    assert_eq!(header_rows, vec![0x08]);
    let h = res.block_info_arr[0].literals_header;
    assert_eq!(h.block_type, LiteralsBlockType::Raw);
    assert_eq!(h.regenerated_size, 1);
    assert_eq!(h.header_len, 1);
}

#[test]
fn one_block_stream_with_overlong_compressed_size() {
    let src = vec![0x28, 0xB5, 0x2F, 0xFD, 0x20, 0x05, 0x25, 0x00, 0x00, 0x52, 0x00, 0x19, 0x00];
    assert_eq!(process(&src), Err(DecodeError::TruncatedInput));
}
