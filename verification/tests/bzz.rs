use djvulpes::bzz::bwt::{
    block_symbols_from_ranks, decode_block_from_ranks, inverse_bwt_block, BlockSymbols,
};
use djvulpes::bzz::model::{
    collect_block_ranks, read_bzz_mtfno_bin, read_entropy_rank, BitModel, BitModelTables,
    ModeledBitReader, RankDecoder, BIT_MODEL_INITIAL_STATE, BWT_MARKER_RANK, BZZ_MTF_STARTS,
    ENTROPY_CONTEXTS,
};
use djvulpes::bzz::mtf::BzzMoveToFrontTable;
use djvulpes::bzz::{BzzDecoder, BzzFault};
use djvulpes::{decode_bzz, decode_dirm_tail, BzzError, BzzResult, Dirm};

struct ScriptedRankDecoder {
    ranks: std::vec::IntoIter<usize>,
    original_len: usize,
}

impl ScriptedRankDecoder {
    fn new<I>(ranks: I) -> Self
    where
        I: IntoIterator<Item = usize>,
    {
        let ranks = ranks.into_iter().collect::<Vec<_>>();
        let original_len = ranks.len();
        Self {
            ranks: ranks.into_iter(),
            original_len,
        }
    }

    fn remaining(&self) -> usize {
        self.ranks.len()
    }
}

impl RankDecoder for ScriptedRankDecoder {
    type State = ();

    fn state(&self) {}

    fn ready(&self) -> bool {
        true
    }

    fn step((): ()) -> (Result<usize, BzzFault>, ()) {
        unreachable!()
    }

    fn next_rank(&mut self) -> BzzResult<usize> {
        self.ranks.next().ok_or(BzzError::TruncatedRankStream {
            expected_len: self.original_len + 1,
        })
    }
}

struct ScriptedModeledBitReader {
    bits: std::vec::IntoIter<u8>,
    splits: Vec<u16>,
    bits_read: usize,
}

impl ScriptedModeledBitReader {
    fn new<I>(bits: I) -> Self
    where
        I: IntoIterator<Item = u8>,
    {
        Self {
            bits: bits.into_iter().collect::<Vec<_>>().into_iter(),
            splits: Vec::new(),
            bits_read: 0,
        }
    }

    fn bits_read(&self) -> usize {
        self.bits_read
    }
}

impl ModeledBitReader for ScriptedModeledBitReader {
    type State = ();

    fn state(&self) {}

    fn ready(&self) -> bool {
        true
    }

    fn step((): (), _split: u16) -> (Result<u8, BzzFault>, ()) {
        unreachable!()
    }

    fn read_modeled_bit(&mut self, split: u16) -> BzzResult<u8> {
        self.splits.push(split);
        self.bits_read += 1;
        Ok(self.bits.next().unwrap_or(0))
    }
}

fn bwt_symbol(raw: &[u8], index: usize) -> Option<u8> {
    raw.get(index).copied()
}

fn bwt_symbol_key(raw: &[u8], index: usize) -> i16 {
    bwt_symbol(raw, index).map_or(-1, i16::from)
}

fn expected_block_symbols_from_raw(raw: &[u8]) -> BlockSymbols {
    let block_len = raw.len() + 1;
    let mut rotations = (0..block_len).collect::<Vec<_>>();
    rotations.sort_by(|&lhs, &rhs| {
        (0..block_len)
            .map(|offset| bwt_symbol_key(raw, (lhs + offset) % block_len))
            .cmp((0..block_len).map(|offset| bwt_symbol_key(raw, (rhs + offset) % block_len)))
    });

    let mut symbols = Vec::with_capacity(block_len);
    let mut marker_pos = None;
    for (output_index, start) in rotations.into_iter().enumerate() {
        let previous = (start + block_len - 1) % block_len;
        if let Some(symbol) = bwt_symbol(raw, previous) {
            symbols.push(symbol);
        } else {
            symbols.push(0);
            marker_pos = Some(output_index);
        }
    }

    BlockSymbols {
        symbols,
        marker_pos: marker_pos.expect("BWT output should contain the marker"),
    }
}

fn ranks_from_block_symbols(block: &BlockSymbols, fshift: u8) -> BzzResult<Vec<usize>> {
    let mut table = BzzMoveToFrontTable::new(fshift);
    let mut ranks = Vec::with_capacity(block.symbols.len());

    for (index, symbol) in block.symbols.iter().copied().enumerate() {
        if index == block.marker_pos {
            ranks.push(BWT_MARKER_RANK);
            continue;
        }

        let rank = table
            .rank_of(symbol)
            .expect("byte should exist in MTF table");
        ranks.push(rank);
        let _ = table.take(rank)?;
    }

    Ok(ranks)
}

#[derive(Clone, Copy)]
struct RankDecisionOptions {
    group_selected_bit: u8,
    offset_msb_first: bool,
    invert_offset_bits: bool,
}

impl Default for RankDecisionOptions {
    fn default() -> Self {
        Self {
            group_selected_bit: 1,
            offset_msb_first: true,
            invert_offset_bits: false,
        }
    }
}

struct BzzMtfRange {
    start: usize,
    selector_context: usize,
    tree_context: usize,
    bits: usize,
}

fn bzz_mtf_ranges() -> Vec<BzzMtfRange> {
    BZZ_MTF_STARTS
        .iter()
        .enumerate()
        .map(|(index, &start)| BzzMtfRange {
            start,
            selector_context: start + 4,
            tree_context: start + 5,
            bits: index + 1,
        })
        .collect()
}

fn bzz_mtfno_context_path(rank: usize, previous_mtfno: usize) -> Vec<(usize, u8)> {
    bzz_mtfno_context_path_with_options(rank, previous_mtfno, RankDecisionOptions::default())
}

fn bzz_mtfno_context_path_with_options(
    rank: usize,
    previous_mtfno: usize,
    options: RankDecisionOptions,
) -> Vec<(usize, u8)> {
    let mut path = Vec::new();
    let previous_class = previous_mtfno.min(2);

    path.push((previous_class, u8::from(rank == 0)));
    if rank == 0 {
        return path;
    }

    path.push((3 + previous_class, u8::from(rank == 1)));
    if rank == 1 {
        return path;
    }

    for range in bzz_mtf_ranges() {
        let range_end = range.start + (1usize << range.bits) - 1;
        let selected = rank >= range.start && rank <= range_end;
        let selected_bit = if selected {
            options.group_selected_bit
        } else {
            1 - options.group_selected_bit
        };
        path.push((range.selector_context, selected_bit));
        if selected {
            path.extend(bzz_decode_bin_context_path_with_options(
                range.bits,
                range.tree_context,
                rank - range.start,
                options,
            ));
            return path;
        }
    }

    path
}

fn bzz_decode_bin_context_path(
    bits: usize,
    context_start: usize,
    value: usize,
) -> Vec<(usize, u8)> {
    bzz_decode_bin_context_path_with_options(
        bits,
        context_start,
        value,
        RankDecisionOptions::default(),
    )
}

fn bzz_decode_bin_context_path_with_options(
    bits: usize,
    context_start: usize,
    value: usize,
    options: RankDecisionOptions,
) -> Vec<(usize, u8)> {
    let mut path = Vec::with_capacity(bits);
    let mut node = 0usize;
    let bit_indexes = if options.offset_msb_first {
        (0..bits).rev().collect::<Vec<_>>()
    } else {
        (0..bits).collect::<Vec<_>>()
    };

    for bit_index in bit_indexes {
        let mut bit = u8::from((value & (1usize << bit_index)) != 0);
        if options.invert_offset_bits {
            bit = 1 - bit;
        }
        path.push((context_start + node, bit));
        node = (node << 1) + 1 + usize::from(bit);
    }

    path
}

fn entropy_decisions_for_rank(rank: usize, previous_mtfno: usize) -> Vec<(usize, u8)> {
    bzz_mtfno_context_path(rank, previous_mtfno)
}

#[test]
fn decode_dirm_tail_rejects_invalid_tail_range_before_decoding() {
    let dirm = Dirm {
        flags: 0,
        entry_count: 0,
        offsets: Vec::new(),
        compressed_tail_start: 2,
        compressed_tail_len: 4,
    };

    let error = decode_dirm_tail(&[0, 1, 2], &dirm, None)
        .expect_err("invalid tail range should fail before invoking bzz");

    assert!(matches!(error, BzzError::DirmTail(_)));
}

#[test]
fn inverse_bwt_reconstructs_banana_block() {
    let symbols = [b'a', b'n', b'n', b'b', 0, b'a', b'a'];

    let decoded = inverse_bwt_block(&symbols, 4).expect("BWT block should reconstruct");

    assert_eq!(decoded, b"banana");
}

#[test]
fn test_fixture_bwt_derivation_matches_known_banana_block() {
    let block = expected_block_symbols_from_raw(b"banana");

    assert_eq!(
        block,
        BlockSymbols {
            symbols: vec![b'a', b'n', b'n', b'b', 0, b'a', b'a'],
            marker_pos: 4,
        }
    );
}

#[test]
fn inverse_bwt_reconstructs_repeated_bytes() {
    let symbols = [b'a', b'a', b'a', 0];

    let decoded = inverse_bwt_block(&symbols, 3).expect("BWT block should reconstruct");

    assert_eq!(decoded, b"aaa");
}

#[test]
fn inverse_bwt_rejects_invalid_marker_position() {
    let error = inverse_bwt_block(b"abc", 0).expect_err("marker 0 should fail");

    assert!(matches!(error, BzzError::InvalidBwtMarker { .. }));
}

#[test]
fn inverse_bwt_rejects_symbols_that_are_no_transform() {
    let error = inverse_bwt_block(&[1, 2, 0, 2], 2).expect_err("a short cycle should fail");

    assert!(matches!(error, BzzError::InvalidBwtTransform));
}

#[test]
fn block_symbols_from_ranks_applies_move_to_front_updates() {
    let block = block_symbols_from_ranks(5, 0, &[98, 98, 0, BWT_MARKER_RANK, 0])
        .expect("rank stream should decode");

    assert_eq!(
        block,
        BlockSymbols {
            symbols: vec![b'b', b'a', b'a', 0, b'a'],
            marker_pos: 3,
        }
    );
}

#[test]
fn bzz_move_to_front_keeps_high_frequency_symbols_near_front() {
    let mut table = BzzMoveToFrontTable::new(0);

    assert_eq!(table.take(3).expect("rank 3 should decode"), 3);
    assert_eq!(table.take(3).expect("rank 3 should decode"), 2);
    assert_eq!(table.take(3).expect("rank 3 should decode"), 1);
    assert_eq!(table.take(3).expect("rank 3 should decode"), 0);

    assert_eq!(&table.symbols[..4], &[0, 1, 2, 3]);
    assert!(table.freq.windows(2).all(|pair| pair[0] >= pair[1]));
}

#[test]
fn block_symbols_from_ranks_rejects_missing_marker() {
    let error = block_symbols_from_ranks(3, 0, &[0, 1, 2]).expect_err("marker should be required");

    assert!(matches!(error, BzzError::MissingBwtMarker));
}

#[test]
fn block_symbols_from_ranks_rejects_duplicate_marker() {
    let error = block_symbols_from_ranks(3, 0, &[0, BWT_MARKER_RANK, BWT_MARKER_RANK])
        .expect_err("duplicate marker should fail");

    assert!(matches!(error, BzzError::DuplicateBwtMarker));
}

#[test]
fn block_symbols_from_ranks_rejects_out_of_range_rank() {
    let error =
        block_symbols_from_ranks(2, 0, &[257, BWT_MARKER_RANK]).expect_err("bad rank should fail");

    assert!(matches!(error, BzzError::InvalidSymbolRank { rank: 257 }));
}

#[test]
fn block_symbols_from_ranks_rejects_truncated_input() {
    let error =
        block_symbols_from_ranks(2, 0, &[BWT_MARKER_RANK]).expect_err("short ranks should fail");

    assert!(matches!(
        error,
        BzzError::TruncatedRankStream { expected_len: 2 }
    ));
}

#[test]
fn decode_block_from_ranks_reconstructs_banana() {
    let decoded = decode_block_from_ranks(7, 0, &[97, 110, 0, 99, BWT_MARKER_RANK, 2, 0])
        .expect("rank pipeline should decode");

    assert_eq!(decoded, b"banana");
}

#[test]
fn decode_block_from_ranks_reconstructs_repeated_bytes() {
    let decoded = decode_block_from_ranks(4, 0, &[97, 0, 0, BWT_MARKER_RANK])
        .expect("rank pipeline should decode");

    assert_eq!(decoded, b"aaa");
}

#[test]
fn decode_block_from_ranks_propagates_rank_errors() {
    let error =
        decode_block_from_ranks(2, 0, &[257, BWT_MARKER_RANK]).expect_err("bad rank should fail");

    assert!(matches!(error, BzzError::InvalidSymbolRank { rank: 257 }));
}

#[test]
fn blocks_are_read_back_from_their_ranks() {
    let long: Vec<u8> = (0..600u32).map(|i| (i * i % 251) as u8).collect();
    for raw in [&b"hello, hello"[..], b"x", &[0, 0, 255, 0], &long] {
        for fshift in 0..3 {
            let block = expected_block_symbols_from_raw(raw);
            let ranks = ranks_from_block_symbols(&block, fshift).expect("ranks should be found");

            let decoded = decode_block_from_ranks(raw.len() + 1, fshift, &ranks)
                .expect("ranks should decode");

            assert_eq!(decoded, raw);
        }
    }
}

#[test]
fn collect_block_ranks_reads_exact_block_len() {
    let mut decoder = ScriptedRankDecoder::new([1, 2, BWT_MARKER_RANK]);

    let ranks = collect_block_ranks(3, &mut decoder).expect("ranks should collect");

    assert_eq!(ranks, [1, 2, BWT_MARKER_RANK]);
    assert_eq!(decoder.remaining(), 0);
}

#[test]
fn collect_block_ranks_propagates_decoder_errors() {
    let mut decoder = ScriptedRankDecoder::new([1]);

    let error = collect_block_ranks(2, &mut decoder).expect_err("short decoder should fail");

    assert!(matches!(
        error,
        BzzError::TruncatedRankStream { expected_len: 2 }
    ));
}

#[test]
fn bit_model_reads_from_context_and_updates_toward_zero() {
    let mut model = BitModel::with_contexts(1);
    let mut reader = ScriptedModeledBitReader::new([0]);
    let initial_split = model.tables.split(BIT_MODEL_INITIAL_STATE);

    let bit = model
        .read_bit(&mut reader, 0)
        .expect("modeled bit should read");

    assert_eq!(bit, 0);
    assert_eq!(reader.splits, [initial_split]);
    assert!(model.contexts[0].state > BIT_MODEL_INITIAL_STATE);
}

#[test]
fn bit_model_reads_from_context_and_updates_toward_one() {
    let mut model = BitModel::with_contexts(1);
    let mut reader = ScriptedModeledBitReader::new([1]);
    let initial_split = model.tables.split(BIT_MODEL_INITIAL_STATE);

    let bit = model
        .read_bit(&mut reader, 0)
        .expect("modeled bit should read");

    assert_eq!(bit, 1);
    assert_eq!(reader.splits, [initial_split]);
    assert!(model.contexts[0].state < BIT_MODEL_INITIAL_STATE);
}

#[test]
fn bit_model_keeps_contexts_independent() {
    let mut model = BitModel::with_contexts(2);
    let mut reader = ScriptedModeledBitReader::new([0]);

    model
        .read_bit(&mut reader, 1)
        .expect("modeled bit should read");

    assert_eq!(model.contexts[0].state, BIT_MODEL_INITIAL_STATE);
    assert_ne!(model.contexts[1].state, BIT_MODEL_INITIAL_STATE);
}

#[test]
fn bit_model_tables_are_generated_monotonically() {
    let tables = BitModelTables::generated();

    assert_eq!(tables.split(0), 1704);
    assert_eq!(tables.split(BIT_MODEL_INITIAL_STATE), 44_768);
    assert_eq!(tables.split(64), u16::MAX);
    assert!(tables.split(1) > tables.split(0));
    assert!(tables.next_state(BIT_MODEL_INITIAL_STATE, 0) > BIT_MODEL_INITIAL_STATE);
    assert!(tables.next_state(BIT_MODEL_INITIAL_STATE, 1) < BIT_MODEL_INITIAL_STATE);
}

#[test]
fn read_entropy_rank_decodes_rank_zero() {
    let mut model = BitModel::with_contexts(ENTROPY_CONTEXTS);
    let mut reader = ScriptedModeledBitReader::new([1]);

    let rank = read_entropy_rank(&mut model, &mut reader, 0).expect("rank should decode");

    assert_eq!(rank, 0);
    assert_eq!(reader.bits_read(), 1);
}

#[test]
fn read_entropy_rank_decodes_rank_one() {
    let mut model = BitModel::with_contexts(ENTROPY_CONTEXTS);
    let mut reader = ScriptedModeledBitReader::new([0, 1]);

    let rank = read_entropy_rank(&mut model, &mut reader, 0).expect("rank should decode");

    assert_eq!(rank, 1);
    assert_eq!(reader.bits_read(), 2);
}

#[test]
fn read_entropy_rank_decodes_large_rank() {
    let mut model = BitModel::with_contexts(ENTROPY_CONTEXTS);
    let mut reader = ScriptedModeledBitReader::new([0, 0, 0, 1, 1, 1]);

    let rank = read_entropy_rank(&mut model, &mut reader, 0).expect("rank should decode");

    assert_eq!(rank, 7);
    assert_eq!(reader.bits_read(), 6);
}

#[test]
fn read_entropy_rank_decodes_marker_rank() {
    let mut model = BitModel::with_contexts(ENTROPY_CONTEXTS);
    let mut reader = ScriptedModeledBitReader::new([0, 0, 0, 0, 0, 0, 0, 0, 0]);

    let rank = read_entropy_rank(&mut model, &mut reader, 0).expect("rank should decode");

    assert_eq!(rank, BWT_MARKER_RANK);
    assert_eq!(reader.bits_read(), 9);
}

#[test]
fn entropy_decisions_for_rank_encode_rank_tree_paths() {
    assert_eq!(entropy_decisions_for_rank(0, 0), vec![(0, 1)]);
    assert_eq!(entropy_decisions_for_rank(1, 0), vec![(0, 0), (3, 1)]);
    assert_eq!(
        entropy_decisions_for_rank(7, 0),
        vec![(0, 0), (3, 0), (6, 0), (8, 1), (9, 1), (11, 1),]
    );
    assert_eq!(
        entropy_decisions_for_rank(BWT_MARKER_RANK, 0),
        vec![
            (0, 0),
            (3, 0),
            (6, 0),
            (8, 0),
            (12, 0),
            (20, 0),
            (36, 0),
            (68, 0),
            (132, 0),
        ]
    );
}

#[test]
fn bzz_mtfno_context_path_uses_spec_layout() {
    let path = bzz_mtfno_context_path(10, 0);

    assert_eq!(
        path,
        vec![
            (0, 0),
            (3, 0),
            (6, 0),
            (8, 0),
            (12, 1),
            (13, 0),
            (14, 1),
            (17, 0),
        ]
    );
    assert!(
        !path.iter().any(|(context_id, _)| *context_id == 9),
        "context 9 belongs to the rank 4..7 decode_bin tree, not rank 10"
    );
}

#[test]
fn bzz_decode_bin_uses_tree_contexts() {
    let path = bzz_decode_bin_context_path(3, 13, 0b010);

    assert_eq!(path, vec![(13, 0), (14, 1), (17, 0)]);
}

#[test]
fn ranks_are_read_along_their_paths() {
    for previous in [0, 1, 2, 9] {
        for rank in 0..=256 {
            let path = bzz_mtfno_context_path(rank, previous);
            let mut model = BitModel::with_contexts(ENTROPY_CONTEXTS);
            let mut reader = ScriptedModeledBitReader::new(path.iter().map(|(_, bit)| *bit));

            let read = read_entropy_rank(&mut model, &mut reader, previous).expect("rank is read");

            assert_eq!(read, rank);
            assert_eq!(reader.bits_read(), path.len());
            for (context, _) in path {
                assert_ne!(model.contexts[context].state, BIT_MODEL_INITIAL_STATE);
            }
        }
    }
}

#[test]
fn tree_values_are_read_from_the_first_bit_on() {
    let mut model = BitModel::with_contexts(ENTROPY_CONTEXTS);
    let mut reader = ScriptedModeledBitReader::new([0, 1, 0]);

    let value = read_bzz_mtfno_bin(&mut model, &mut reader, 3, 13).expect("value is read");

    assert_eq!(value, 0b010);
    assert_ne!(model.contexts[17].state, BIT_MODEL_INITIAL_STATE);
}

#[test]
fn zero_bytes_declare_a_block_that_is_too_large() {
    let mut decoder = BzzDecoder::new(&[0; 16]);

    assert_eq!(decoder.next_block_len(), 0xff_ffff);
    assert!(matches!(
        decode_bzz(&[0; 16], None).expect_err("the block is too large"),
        BzzError::UnsupportedBlockSize { size: 0xff_ffff }
    ));
    assert_eq!(decode_bzz(&[0xff; 16], None).expect("no block is there"), []);
}

#[test]
fn the_output_of_the_tool_is_used_where_it_is_needed() {
    let output = [1, 2, 3];
    let input = (0..=255)
        .map(|byte| [0xff, 0xff, byte, 0x00, 0x55, 0xaa])
        .find(|input| matches!(decode_bzz(input, None), Err(BzzError::ToolRequired)))
        .expect("some of the inputs are beyond the decoder");

    assert_eq!(decode_bzz(&input, Some(&output)).expect("the output is used"), output);
}

#[test]
fn every_error_has_a_message() {
    assert_eq!(
        BzzError::UnsupportedBlockSize { size: 5_000_000 }.message(),
        "BZZ block declares unsupported size 5000000 bytes"
    );
    assert_eq!(
        BzzError::InvalidFshift { value: 3 }.message(),
        "BZZ block declares invalid FSHIFT value 3"
    );
    assert_eq!(
        BzzError::InvalidBwtMarker { marker_pos: 0, block_len: 3 }.message(),
        "BZZ block has invalid Burrows-Wheeler marker position 0 for block size 3"
    );
    assert_eq!(
        BzzError::TruncatedRankStream { expected_len: 2 }.message(),
        "BZZ rank stream ended before 2 block symbols were decoded"
    );
}
