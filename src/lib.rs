//! A verified decoder for the block-structured compressed stream format
//! (frames of blocks, each a literals section and a sequences section) that,
//! while rebuilding the payload, records one witness row per consumed input byte
//! for a downstream consistency check.
//!
//! Leaves first: `bytes` and `bitstream` read integers and bit fields; `frame`
//! parses frame and block headers; `literals` decodes literals headers and
//! `huffman` entropy-coded literals; `fse` builds the sequence decoding tables,
//! `seqdecode` decodes sequences and `sequences` replays them; `witness` holds the
//! trace and its invariants; `decoder` drives a whole input; `table` is the
//! literals header table that the downstream check reads. `prover_types` holds the
//! proof pipeline's layer bookkeeping.

pub mod error;
pub mod bytes;
pub mod bitstream;
pub mod frame;
pub mod literals;
pub mod huffman;
pub mod fse;
pub mod seqdecode;
pub mod sequences;
pub mod witness;
pub mod decoder;
pub mod table;
pub mod prover_types;
