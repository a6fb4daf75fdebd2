use isomp4_h264::box_header::SAMPLE_TABLE_BOX;
use isomp4_h264::error::InspectError;
use isomp4_h264::sample_table::{
    ChunkOffsetTable, ChunkRunEntry, ResolvedSample, SampleSizeTable, SampleTableResolver,
};

fn run(first_chunk: u32, samples_per_chunk: u32) -> ChunkRunEntry {
    ChunkRunEntry { first_chunk, samples_per_chunk }
}

fn constant(sample_size: u32) -> SampleSizeTable {
    SampleSizeTable { sample_size, sample_sizes: Vec::new() }
}

fn explicit(sample_sizes: Vec<u32>) -> SampleSizeTable {
    SampleSizeTable { sample_size: 0, sample_sizes }
}

fn collect(resolver: &mut SampleTableResolver) -> Vec<ResolvedSample> {
    let mut samples = Vec::new();
    while let Some(sample) = resolver.next_sample() {
        samples.push(sample);
    }
    samples
}

fn ranges(samples: &[ResolvedSample]) -> Vec<(u64, u32)> {
    samples.iter().map(|s| (s.byte_offset, s.size)).collect()
}

fn inconsistent(sample_index: u32, chunk_index: u32) -> InspectError {
    InspectError::InconsistentSampleTable { sample_index, chunk_index }
}

fn build_err(
    runs: Vec<ChunkRunEntry>,
    offsets: ChunkOffsetTable,
    sizes: SampleSizeTable,
) -> InspectError {
    match SampleTableResolver::build(runs, offsets, sizes) {
        Ok(_) => panic!("the tables were taken as consistent"),
        Err(e) => e,
    }
}

#[test]
fn two_runs_with_constant_size() {
    let mut resolver = SampleTableResolver::build(
        vec![run(1, 2), run(3, 1)],
        ChunkOffsetTable::Short(vec![1000, 2000, 3000]),
        constant(500),
    )
    .unwrap();
    assert_eq!(resolver.total_samples(), 5);
    let samples = collect(&mut resolver);
    assert_eq!(
        ranges(&samples),
        vec![(1000, 500), (1500, 500), (2000, 500), (2500, 500), (3000, 500)]
    );
    let indices: Vec<u32> = samples.iter().map(|s| s.index).collect();
    assert_eq!(indices, vec![0, 1, 2, 3, 4]);
    let chunks: Vec<u32> = samples.iter().map(|s| s.chunk_index).collect();
    assert_eq!(chunks, vec![0, 0, 1, 1, 2]);
    assert_eq!(resolver.next_sample(), None);
    assert_eq!(resolver.next_index(), 5);
}

#[test]
fn explicit_sizes_accumulate_within_a_chunk() {
    let mut resolver = SampleTableResolver::build(
        vec![run(1, 3), run(2, 2)],
        ChunkOffsetTable::Short(vec![100, 1000]),
        explicit(vec![10, 20, 30, 7, 9]),
    )
    .unwrap();
    let samples = collect(&mut resolver);
    assert_eq!(
        samples,
        vec![
            ResolvedSample { index: 0, chunk_index: 0, byte_offset: 100, size: 10 },
            ResolvedSample { index: 1, chunk_index: 0, byte_offset: 110, size: 20 },
            ResolvedSample { index: 2, chunk_index: 0, byte_offset: 130, size: 30 },
            ResolvedSample { index: 3, chunk_index: 1, byte_offset: 1000, size: 7 },
            ResolvedSample { index: 4, chunk_index: 1, byte_offset: 1007, size: 9 },
        ]
    );
}

#[test]
fn running_offset_reaches_the_next_chunk_of_a_packed_file() {
    let offsets = vec![48u32, 48 + 60, 48 + 60 + 16, 48 + 60 + 16 + 5];
    let sizes = vec![10, 20, 30, 7, 9, 5, 1];
    let mut resolver = SampleTableResolver::build(
        vec![run(1, 3), run(2, 2), run(3, 1)],
        ChunkOffsetTable::Short(offsets.clone()),
        explicit(sizes),
    )
    .unwrap();
    let samples = collect(&mut resolver);
    assert_eq!(samples.len(), 7);
    for chunk in 0..3u32 {
        let last = samples.iter().filter(|s| s.chunk_index == chunk).last().unwrap();
        assert_eq!(last.byte_offset + last.size as u64, offsets[chunk as usize + 1] as u64);
    }
    for pair in samples.windows(2) {
        assert_eq!(pair[0].byte_offset + pair[0].size as u64, pair[1].byte_offset);
    }
}

#[test]
fn both_size_modes_are_inconsistent() {
    let sizes = SampleSizeTable { sample_size: 500, sample_sizes: vec![500, 500] };
    let e = build_err(vec![run(1, 2)], ChunkOffsetTable::Short(vec![1000]), sizes);
    assert_eq!(e, inconsistent(0, 0));
}

#[test]
fn both_size_modes_are_inconsistent_without_chunks() {
    let sizes = SampleSizeTable { sample_size: 1, sample_sizes: vec![1] };
    let e = build_err(Vec::new(), ChunkOffsetTable::Short(Vec::new()), sizes);
    assert_eq!(e, inconsistent(0, 0));
}

#[test]
fn neither_chunk_offset_table_is_malformed() {
    let r = ChunkOffsetTable::select(None, None, 4096);
    match r {
        Err(e) => {
            assert_eq!(e, InspectError::MalformedBox { box_type: SAMPLE_TABLE_BOX, offset: 4096 })
        }
        Ok(_) => panic!("a table was selected"),
    }
}

#[test]
fn both_chunk_offset_tables_are_malformed() {
    let r = ChunkOffsetTable::select(Some(vec![1]), Some(vec![1]), 7);
    match r {
        Err(e) => assert_eq!(e, InspectError::MalformedBox { box_type: SAMPLE_TABLE_BOX, offset: 7 }),
        Ok(_) => panic!("a table was selected"),
    }
}

#[test]
fn one_chunk_offset_table_is_selected() {
    let short = ChunkOffsetTable::select(Some(vec![1, 2]), None, 0).unwrap();
    assert_eq!(short.len(), 2);
    assert_eq!(short.get(1), 2);
    assert!(matches!(short, ChunkOffsetTable::Short(_)));
    let long = ChunkOffsetTable::select(None, Some(vec![1 << 40]), 0).unwrap();
    assert_eq!(long.len(), 1);
    assert_eq!(long.get(0), 1 << 40);
    assert!(matches!(long, ChunkOffsetTable::Long(_)));
}

#[test]
fn long_offsets_resolve_like_short_ones() {
    let mut resolver = SampleTableResolver::build(
        vec![run(1, 2)],
        ChunkOffsetTable::Long(vec![5_000_000_000, 6_000_000_000]),
        constant(3),
    )
    .unwrap();
    assert_eq!(
        ranges(&collect(&mut resolver)),
        vec![(5_000_000_000, 3), (5_000_000_003, 3), (6_000_000_000, 3), (6_000_000_003, 3)]
    );
}

#[test]
fn empty_tables_hold_no_sample() {
    let mut resolver = SampleTableResolver::build(
        Vec::new(),
        ChunkOffsetTable::Short(Vec::new()),
        explicit(Vec::new()),
    )
    .unwrap();
    assert_eq!(resolver.total_samples(), 0);
    assert_eq!(resolver.next_sample(), None);
    assert_eq!(resolver.next_sample(), None);
}

#[test]
fn a_run_without_chunks_holds_no_sample() {
    let mut resolver = SampleTableResolver::build(
        vec![run(1, 4)],
        ChunkOffsetTable::Short(Vec::new()),
        constant(9),
    )
    .unwrap();
    assert_eq!(resolver.next_sample(), None);
}

#[test]
fn chunks_without_samples_are_passed_over() {
    let mut resolver = SampleTableResolver::build(
        vec![run(1, 0), run(2, 1), run(3, 0), run(5, 2)],
        ChunkOffsetTable::Short(vec![10, 20, 30, 40, 50]),
        explicit(vec![1, 2, 3]),
    )
    .unwrap();
    assert_eq!(
        collect(&mut resolver),
        vec![
            ResolvedSample { index: 0, chunk_index: 1, byte_offset: 20, size: 1 },
            ResolvedSample { index: 1, chunk_index: 4, byte_offset: 50, size: 2 },
            ResolvedSample { index: 2, chunk_index: 4, byte_offset: 52, size: 3 },
        ]
    );
}

#[test]
fn runs_with_the_same_first_chunk_use_the_last_of_them() {
    let mut resolver = SampleTableResolver::build(
        vec![run(1, 7), run(1, 1), run(2, 2)],
        ChunkOffsetTable::Short(vec![10, 20]),
        constant(4),
    )
    .unwrap();
    assert_eq!(ranges(&collect(&mut resolver)), vec![(10, 4), (20, 4), (24, 4)]);
}

#[test]
fn restart_begins_again_at_the_first_sample() {
    let mut resolver = SampleTableResolver::build(
        vec![run(1, 2)],
        ChunkOffsetTable::Short(vec![8, 64]),
        explicit(vec![1, 2, 3, 4]),
    )
    .unwrap();
    let first = collect(&mut resolver);
    resolver.restart();
    assert_eq!(resolver.next_index(), 0);
    let second = collect(&mut resolver);
    assert_eq!(first, second);
    assert_eq!(first.len(), 4);
    resolver.restart();
    resolver.next_sample();
    resolver.restart();
    assert_eq!(resolver.next_sample().unwrap().byte_offset, 8);
}

#[test]
fn runs_must_start_at_the_first_chunk() {
    let e = build_err(vec![run(2, 1)], ChunkOffsetTable::Short(vec![1, 2]), constant(1));
    assert_eq!(e, inconsistent(0, 0));
    let e = build_err(vec![run(0, 1)], ChunkOffsetTable::Short(vec![1, 2]), constant(1));
    assert_eq!(e, inconsistent(0, 0));
}

#[test]
fn runs_must_ascend() {
    let e = build_err(
        vec![run(1, 1), run(3, 1), run(2, 1)],
        ChunkOffsetTable::Short(vec![1, 2, 3]),
        constant(1),
    );
    assert_eq!(e, inconsistent(0, 0));
}

#[test]
fn runs_must_not_start_behind_the_chunks() {
    let e = build_err(
        vec![run(1, 1), run(5, 1)],
        ChunkOffsetTable::Short(vec![1, 2, 3]),
        constant(1),
    );
    assert_eq!(e, inconsistent(0, 0));
    let ok = SampleTableResolver::build(
        vec![run(1, 1), run(4, 1)],
        ChunkOffsetTable::Short(vec![1, 2, 3]),
        constant(1),
    );
    assert!(ok.is_ok());
}

#[test]
fn chunks_need_runs() {
    let e = build_err(Vec::new(), ChunkOffsetTable::Short(vec![1]), constant(1));
    assert_eq!(e, inconsistent(0, 0));
}

#[test]
fn too_few_sizes_fail_at_the_chunk_that_lacks_them() {
    let e = build_err(
        vec![run(1, 2)],
        ChunkOffsetTable::Short(vec![100, 200, 300]),
        explicit(vec![1, 2, 3, 4, 5]),
    );
    assert_eq!(e, inconsistent(4, 2));
}

#[test]
fn sizes_left_over_fail_behind_the_last_chunk() {
    let e = build_err(
        vec![run(1, 2)],
        ChunkOffsetTable::Short(vec![100, 200]),
        explicit(vec![1, 2, 3, 4, 5]),
    );
    assert_eq!(e, inconsistent(4, 2));
}

#[test]
fn a_chunk_must_end_within_the_offset_space() {
    let e = build_err(
        vec![run(1, 2)],
        ChunkOffsetTable::Long(vec![16, u64::MAX - 5]),
        constant(3),
    );
    assert_eq!(e, inconsistent(2, 1));
    let mut ok = SampleTableResolver::build(
        vec![run(1, 2)],
        ChunkOffsetTable::Long(vec![16, u64::MAX - 6]),
        constant(3),
    )
    .unwrap();
    assert_eq!(
        ranges(&collect(&mut ok)),
        vec![(16, 3), (19, 3), (u64::MAX - 6, 3), (u64::MAX - 3, 3)]
    );
}

#[test]
fn sample_indices_must_fit_32_bits() {
    let e = build_err(
        vec![run(1, u32::MAX), run(2, 1)],
        ChunkOffsetTable::Short(vec![0, 0]),
        constant(1),
    );
    assert_eq!(e, inconsistent(u32::MAX, 1));
}
