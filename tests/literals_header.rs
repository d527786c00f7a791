use aggregator::decoder::{process, MultiBlockProcessResult};
use aggregator::table::{check_literals_header_table, literals_header_table, LiteralsHeaderRow};

/// Number of table entries, padding included.
const N_ENABLED: usize = 64;

fn hex_to_bytes(s: &str) -> Vec<u8> {
    let digit = |c: u8| -> u8 {
        match c {
            b'0'..=b'9' => c - b'0',
            b'a'..=b'f' => c - b'a' + 10,
            _ => panic!("not a hex digit"),
        }
    };
    s.as_bytes()
        .chunks(2)
        .map(|p| digit(p[0]) * 16 + digit(p[1]))
        .collect()
}

/// Frames `payload` as one frame of compressed blocks whose literals are stored
/// raw and which carry no sequences, at most `block_max` payload bytes per block.
fn frame_raw_literals(payload: &[u8], block_max: usize) -> Vec<u8> {
    let mut out = vec![0x28, 0xB5, 0x2F, 0xFD, 0xA0];
    out.extend_from_slice(&(payload.len() as u32).to_le_bytes());
    let chunks: Vec<&[u8]> = payload.chunks(block_max).collect();
    for (i, chunk) in chunks.iter().enumerate() {
        let n = chunk.len();
        let mut lit_header = if n < 32 {
            vec![(n << 3) as u8]
        } else if n < 4096 {
            vec![(((n & 0xF) << 4) | 0b0100) as u8, (n >> 4) as u8]
        } else {
            vec![(((n & 0xF) << 4) | 0b1100) as u8, ((n >> 4) & 0xFF) as u8, (n >> 12) as u8]
        };
        let block_size = lit_header.len() + n + 1;
        let last = if i + 1 == chunks.len() { 1 } else { 0 };
        let v = (last | (2 << 1) | (block_size << 3)) as u32;
        out.extend_from_slice(&v.to_le_bytes()[..3]);
        out.append(&mut lit_header);
        out.extend_from_slice(chunk);
        out.push(0);
    }
    out
}

fn batch_payload() -> Vec<u8> {
    hex_to_bytes(&HEX_PAYLOAD.concat())
}

const HEX_PAYLOAD: [&str; 33] = [
    "00000073f8718302d9848422551000827b0c94f565295eddcc0682bb16376c742e9bc9dbb32512880429d069189e01fd",
    "8083104ec3a02b10f9f3bbaa927b805b9b225f04d90a9994da49f309fb1e029312c661ffb68ea065de06a6d34dadf1af",
    "4f80d9133a67cf7753c925f5bfd785f56c20c11280ede0000000aef8ac10841c9c38008305d0a594ec53c830f4444a8a",
    "56455c6836b5d2aa794289aa80b844f2b9fdb8000000000000000000000000b6966083c7b68175b4bf77511608aee9a8",
    "0d2ca4000000000000000000000000000000000000000000000000003d83508c36cdb583104ec4a0203dff6f72962bb8",
    "aa5a9bc365c705818ad2ae51485a8c831e453668d4b75d1fa03de15a7b705a8ad59f8437b4ca717f1e8094c77c5459ee",
    "57b0cae8b6c4ebdf5e000002d7f902d402841c9c38008302c4589480e38291e06339d10aab483c65695d004dbd5c6987",
    "0334ae29914c90b902642cc4081e00000000000000000000000000000000000000000000000000000000000000600000",
    "0000000000000000000000000000000000000000000000000000001e9dd1000000000000000000000000000000000000",
    "0000000000000000000065b3f75500000000000000000000000000000000000000000000000000000000000000010000",
    "000000000000000000000000000000000000000000000000000000000020000000000000000000000000000000000000",
    "000000000000000000000000006000000000000000000000000000000000000000000000000000000000000000000000",
    "00000000000000000000000000000000000000000000000334ae29914c90000000000000000000000000000000000000",
    "000000000000000000000000000100000000000000000000000000000000000000000000000000000000000000200000",
    "00000000000000000000814a23b053fd0f102aeeda0459215c2444799c70000000000000000000000000000000000000",
    "000000000000000000000000008000000000000000000000000000000000000000000000000000000000000000000000",
    "000000000000000000000000000000000000000000000000000000000100000000000000000000000000000000000000",
    "000000000000000000000000006000000000000000000000000053000000000000000000000000000000000000040000",
    "0000000000000000000097af7be0b94399f9dd54a984e8498ce38356f038000000000000000000000000000000000000",
    "000000000000000000000000000200000000000000000000000000000000000000000000000000000000000000008310",
    "4ec3a039a8970ba5ef7fb1cfe8d5db8e293b9837e298fd55faab853f56b66322c8ef80a0523ceb389a544389f6775b8f",
    "f982feac3f05b092869e35fed509e828d5e5759900000170f9016d03841c9c38008302a98f9418b71386418a9fca5ae7",
    "165e31c385a5130011b680b9010418cbafe5000000000000000000000000000000000000000000000000000000000091",
    "855b000000000000000000000000000000000000000000000000000e9f352b7fc3810000000000000000000000000000",
    "0000000000000000000000000000000000a00000000000000000000000006fd71e5088bdaaed42efd384fede02a76dca",
    "87f00000000000000000000000000000000000000000000000000000000065b3cd550000000000000000000000000000",
    "00000000000000000000000000000000000200000000000000000000000006efdbff2a14a7c8e15944d1f4a48f9f95f6",
    "63a4000000000000000000000000530000000000000000000000000000000000000483104ec4a097411c6aad88135b89",
    "18b29d318898808fc04e933379c6d5da9f267315af2300a0265e6b38e475244e2639ea6eb42ae0d7f4f227a9dd9dd532",
    "8744bcd9f5f25bd2000000aff8ad82077a841c9c3800826716940a88bc5c32b684d467b43c06d9e0899efeaf59df86d1",
    "2f0c4c832ab83e646174613a2c7b2270223a226c61796572322d3230222c226f70223a22636c61696d222c227469636b",
    "223a22244c32222c22616d74223a2231303030227d83104ec3a0bef600f17b5037519044f2296d1181abf140b986a7d4",
    "3b7472e93b6be8378848a03c951790ad335a2d1947b3913e2280e506b17463c5f3b61849595a94b37439b3",
];

enum UnsoundCase {
    Sound,
    IncorrectInitialBlockIdx,
    IncorrectBlockIdxTransition,
    IrregularPaddingTransition,
    IncorrectRegenSize,
}

/// The batch payload as a compliant encoder writes it at level 3,
/// with the content size in the frame header.
const ZSTD_BATCH: [&str; 19] = [
    "28b52ffd602b05d51a00842f00000073f8718302d9848422551000827b0c94f565295eddcc0682bb16376c742e9bc9db",
    "b32512880429d069189e01fd8083104ec3a02b10f9f3bbaa927b805b9b225f04d90a9994da49f309fb1e029312c661ff",
    "b68ea065de06a6d34dadf1af4f80d9133a67cf7753c925f5bfd785f56c20c11280ede0000000aef8ac10841c9c380083",
    "05d0a594ec53c830f4444a8a56455c6836b5d2aa794289aa80b844f2b9fdb800b6966083c7b68175b4bf77511608aee9",
    "a80d2ca4003d83508c36cdb583104ec4a0203dff6f72962bb8aa5a9bc365c705818ad2ae51485a8c831e453668d4b75d",
    "1fa03de15a7b705a8ad59f8437b4ca717f1e8094c77c5459ee57b0cae8b6c4ebdf5e000002d7f902d40202c4589480e3",
    "8291e06339d10aab483c65695d004dbd5c69870334ae29914c90b902642cc4081e60001e9dd10065b3f7550001002000",
    "814a23b053fd0f102aeeda0459215c2444799c7080530497af7be0b94399f9dd54a984e8498ce38356f038020039a897",
    "0ba5ef7fb1cfe8d5db8e293b9837e298fd55faab853f56b66322c8ef80a0523ceb389a544389f6775b8ff982feac3f05",
    "b092869e35fed509e828d5e5759900000170f9016d03a98f9418b71386418a9fca5ae7165e31c385a5130011b680b901",
    "0418cbafe591855b0e9f352b7fc381a06fd71e5088bdaaed42efd384fede02a76dca87f065b3cd0206efdbff2a14a7c8",
    "e15944d1f4a48f9f95f663a4530497411c6aad88135b8918b29d318898808fc04e933379c6d5da9f267315af2300a026",
    "5e6b38e475244e2639ea6eb42ae0d7f4f227a9dd9dd5328744bcd9f5f25bd2000000aff8ad82077a826716940a88bc5c",
    "32b684d467b43c06d9e0899efeaf59df86d12f0c4c832ab83e646174613a2c7b2270223a226c61796572322d3230222c",
    "226f636c61696d222c227469636b223a22244c32222c22616d74223a2231303030227dbef600f17b5037519044f2296d",
    "1181abf140b986a7d43b7472e93b6be8378848a03c951790ad335a2d1947b3913e2280e506b17463c5f3b61849595a94",
    "b37439b32b203003119950db5121e52971808247ee48b115efc23171f7627cc603c1f2b4c04a2e44b8da042d63cb5f4f",
    "bcad33900bb2b9369c3bf07884b289e0c1400196cb0d378a088c3250988119181181888998a8852483119ef5952d6606",
    "97143f34",
];

fn decoded_table() -> (Vec<LiteralsHeaderRow>, usize) {
    let compressed = hex_to_bytes(&ZSTD_BATCH.concat());
    let MultiBlockProcessResult { block_info_arr, .. } =
        process(&compressed).expect("the framed payload decodes");
    let n_blocks = block_info_arr.len();
    (literals_header_table(&compressed, &block_info_arr, N_ENABLED), n_blocks)
}

/// Runs the check on the decoded table after each corruption that `case` names,
/// one at a time; returns whether every run passed.
fn run(case: UnsoundCase) -> Vec<bool> {
    let (table, n_blocks) = decoded_table();
    let mut verdicts = Vec::new();
    match case {
        UnsoundCase::Sound => verdicts.push(check_literals_header_table(&table)),
        UnsoundCase::IncorrectInitialBlockIdx => {
            let mut t = table.clone();
            t[0].block_idx = 2;
            verdicts.push(check_literals_header_table(&t));
        }
        UnsoundCase::IncorrectBlockIdxTransition => {
            for row_idx in 0..n_blocks {
                let mut t = table.clone();
                t[row_idx].block_idx += 1;
                verdicts.push(check_literals_header_table(&t));
            }
        }
        UnsoundCase::IrregularPaddingTransition => {
            for row_idx in n_blocks..table.len() {
                let mut t = table.clone();
                t[row_idx].is_padding = false;
                verdicts.push(check_literals_header_table(&t));
            }
        }
        UnsoundCase::IncorrectRegenSize => {
            for row_idx in 0..n_blocks {
                let mut t = table.clone();
                t[row_idx].regen_size += 1;
                verdicts.push(check_literals_header_table(&t));
            }
        }
    }
    verdicts
}

#[test]
fn test_literals_header_ok() {
    assert!(run(UnsoundCase::Sound).iter().all(|ok| *ok))
}

#[test]
fn test_incorrect_initial_block_idx() {
    assert!(run(UnsoundCase::IncorrectInitialBlockIdx).iter().all(|ok| !*ok))
}

#[test]
fn test_incorrect_block_idx_transition() {
    let verdicts = run(UnsoundCase::IncorrectBlockIdxTransition);
    assert!(!verdicts.is_empty());
    assert!(verdicts.iter().all(|ok| !*ok))
}

#[test]
fn test_irregular_padding_transition() {
    let verdicts = run(UnsoundCase::IrregularPaddingTransition);
    assert!(!verdicts.is_empty());
    assert!(verdicts.iter().all(|ok| !*ok))
}

#[test]
fn test_incorrect_regen_size() {
    let verdicts = run(UnsoundCase::IncorrectRegenSize);
    assert!(!verdicts.is_empty());
    assert!(verdicts.iter().all(|ok| !*ok))
}

#[test]
fn decoded_table_has_one_entry_per_block_then_padding() {
    let (table, n_blocks) = decoded_table();
    assert!(n_blocks >= 1);
    assert_eq!(table.len(), N_ENABLED);
    for (k, row) in table.iter().enumerate() {
        if k < n_blocks {
            assert_eq!(row.block_idx, k as u64 + 1);
            assert!(!row.is_padding);
        } else {
            assert!(row.is_padding);
            assert_eq!(row.block_idx, n_blocks as u64);
        }
    }
}

#[test]
fn round_trip_of_the_batch_payload() {
    let payload = batch_payload();
    let compressed = frame_raw_literals(&payload, 300);
    let res = process(&compressed).unwrap();
    assert_eq!(res.decoded, payload);
    assert_eq!(res.literal_bytes, payload);
}

#[test]
fn encoded_batch_decodes_to_the_payload() {
    let res = process(&hex_to_bytes(&ZSTD_BATCH.concat())).unwrap();
    assert_eq!(res.decoded, batch_payload());
    assert!(!res.sequences.is_empty());
}
