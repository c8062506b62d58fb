use block_benchie::config::SampleDuration;
use block_benchie::error::RunError;
use block_benchie::path::UnixPath;
use block_benchie::run::{
    plan_run, size_from_ioctl, size_from_metadata, Progress, Reading, SizeHint,
};
use block_benchie::sampling::{
    align_down, sample_offsets, ReadRequest, SampleReader, ALIGNMENT, END_RUNWAY_BYTES,
    READ_CHUNK_BYTES,
};

const BUDGET: SampleDuration = SampleDuration { millis: 100 };

#[test]
fn aligning_down_drops_the_remainder() {
    assert_eq!(align_down(0, 4096), 0);
    assert_eq!(align_down(4095, 4096), 0);
    assert_eq!(align_down(4096, 4096), 4096);
    assert_eq!(align_down(10_000, 4096), 8192);
    assert_eq!(align_down(17, 5), 15);
}

#[test]
fn small_devices_keep_one_alignment_free() {
    assert_eq!(sample_offsets(12_288, 3), vec![0, 4096, 8192]);
    assert_eq!(sample_offsets(4096, 200), vec![0; 200]);
    assert_eq!(sample_offsets(8191, 200), vec![0; 200]);
    assert_eq!(sample_offsets(1 << 40, 1), vec![0]);
    assert_eq!(sample_offsets(0, 5), vec![0; 5]);
}

#[test]
fn more_bins_than_aligned_offsets_repeat_offsets() {
    assert_eq!(sample_offsets(8192, 3), vec![0, 0, 4096]);
}

#[test]
fn no_bins_on_a_roomy_device_give_no_offsets() {
    assert_eq!(sample_offsets(1 << 40, 0), Vec::<u64>::new());
    assert_eq!(sample_offsets(4096, 0), vec![0]);
}

#[test]
fn large_devices_keep_the_runway_free() {
    let at_edge = END_RUNWAY_BYTES + ALIGNMENT;
    assert_eq!(sample_offsets(at_edge, 2), vec![0, END_RUNWAY_BYTES]);
    assert_eq!(sample_offsets(at_edge + 1, 2), vec![0, ALIGNMENT]);
    assert_eq!(sample_offsets(1 << 41, 2), vec![0, (1 << 41) - (1 << 30)]);
}

#[test]
fn offsets_are_aligned_ascending_and_evenly_spaced() {
    for size in [1_000_000_u64, 5_000_000_000, 2_000_398_934_016, u64::MAX] {
        let bins = 200_usize;
        let offsets = sample_offsets(size, bins);
        assert_eq!(offsets.len(), bins);
        assert_eq!(offsets[0], 0);
        let last = offsets[bins - 1];
        for (i, offset) in offsets.iter().enumerate() {
            assert_eq!(offset % ALIGNMENT, 0);
            assert!(*offset + ALIGNMENT <= size);
            let ideal = last as u128 * i as u128 / (bins as u128 - 1);
            assert!(*offset as u128 <= ideal && ideal < *offset as u128 + ALIGNMENT as u128);
            assert!(i == 0 || offsets[i - 1] <= *offset);
        }
    }
}

#[test]
fn devices_that_cannot_be_sampled_are_refused() {
    let device = UnixPath::from_text("/dev/sda");
    let empty = plan_run(&device, 0, 200).unwrap_err();
    assert!(matches!(&empty, RunError::NoReadableBytes { .. }));
    assert_eq!(empty.message(), "/dev/sda has zero readable bytes");
    let small = plan_run(&device, 4095, 200).unwrap_err();
    assert!(matches!(&small, RunError::TooSmall { .. }));
    assert_eq!(
        small.message(),
        "/dev/sda has fewer than 4096 readable bytes; direct I/O requires aligned reads"
    );
    assert_eq!(plan_run(&device, 12_288, 2).unwrap(), vec![0, 8192]);
}

#[test]
fn a_length_of_zero_says_nothing_of_the_size() {
    assert_eq!(size_from_metadata(Some(5)), SizeHint::Known(5));
    assert_eq!(size_from_metadata(Some(0)), SizeHint::AskDevice);
    assert_eq!(size_from_metadata(None), SizeHint::AskDevice);
    assert_eq!(size_from_ioctl(0, 7), Some(7));
    assert_eq!(size_from_ioctl(0, 0), Some(0));
    assert_eq!(size_from_ioctl(-1, 7), None);
}

#[test]
fn reads_come_in_chunks_up_to_the_aligned_end() {
    let size = 2 * READ_CHUNK_BYTES + 4096 + 4096 + 100;
    let mut reader = SampleReader::new(4096, size, BUDGET);
    assert_eq!(reader.buffer_len(), READ_CHUNK_BYTES as usize);
    let chunk = READ_CHUNK_BYTES as usize;
    assert_eq!(reader.next_read(0), Some(ReadRequest { offset: 4096, len: chunk }));
    assert!(reader.complete_read(chunk).unwrap());
    assert_eq!(
        reader.next_read(99_999_999),
        Some(ReadRequest { offset: 4096 + READ_CHUNK_BYTES, len: chunk })
    );
    assert!(reader.complete_read(chunk).unwrap());
    assert_eq!(
        reader.next_read(0),
        Some(ReadRequest { offset: 4096 + 2 * READ_CHUNK_BYTES, len: 4096 })
    );
    assert!(reader.complete_read(4096).unwrap());
    assert_eq!(reader.next_read(0), None);
    assert_eq!(reader.bytes_read, 2 * READ_CHUNK_BYTES + 4096);
}

#[test]
fn the_budget_ends_a_sample() {
    let reader = SampleReader::new(0, 1 << 30, BUDGET);
    assert!(reader.next_read(99_999_999).is_some());
    assert_eq!(reader.next_read(100_000_000), None);
}

#[test]
fn an_empty_read_ends_a_sample() {
    let mut reader = SampleReader::new(0, 1 << 30, BUDGET);
    assert!(!reader.complete_read(0).unwrap());
    assert_eq!(reader.bytes_read, 0);
}

#[test]
fn a_short_read_off_the_alignment_is_an_error() {
    let mut reader = SampleReader::new(8192, 1 << 30, BUDGET);
    assert!(reader.complete_read(8192).unwrap());
    let error = reader.complete_read(513).unwrap_err();
    assert!(matches!(error, RunError::UnalignedRead { offset: 16_384, read: 513 }));
    assert_eq!(error.message(), "unaligned short read at offset 16384: read 513 bytes");
    assert_eq!(reader.bytes_read, 8192);
}

#[test]
fn a_short_aligned_read_goes_on() {
    let mut reader = SampleReader::new(0, 1 << 30, BUDGET);
    assert!(reader.complete_read(4096).unwrap());
    assert_eq!(reader.next_read(0).unwrap().offset, 4096);
}

#[test]
fn nothing_is_read_behind_the_end() {
    let reader = SampleReader::new(8192, 8192 + 4095, BUDGET);
    assert_eq!(reader.buffer_len(), 0);
    assert_eq!(reader.next_read(0), None);
    assert_eq!(SampleReader::new(8192, 0, BUDGET).next_read(0), None);
}

#[test]
fn a_run_takes_as_many_samples_as_asked_for() {
    for size in [4096_u64, 8191, 8192, 1 << 20, 1 << 31, u64::MAX] {
        for bins in [1_usize, 2, 3, 200] {
            assert_eq!(sample_offsets(size, bins).len(), bins);
        }
    }
    let device = UnixPath::from_text("/dev/sda");
    assert_eq!(plan_run(&device, 4096, 200).unwrap(), vec![0; 200]);
}

#[test]
fn gaps_differ_by_at_most_one_block() {
    for size in [100_000_u64, 5_000_000_000, 2_000_398_934_016] {
        let offsets = sample_offsets(size, 17);
        let gaps: Vec<u64> = offsets.windows(2).map(|pair| pair[1] - pair[0]).collect();
        let least = gaps.iter().min().unwrap();
        let most = gaps.iter().max().unwrap();
        assert!(most - least <= ALIGNMENT);
    }
}

#[test]
fn offsets_are_distinct_where_there_is_a_block_for_each() {
    assert_eq!(sample_offsets(4 * 4096, 4), vec![0, 4096, 8192, 12_288]);
    assert_eq!(sample_offsets(4 * 4096, 5), vec![0, 0, 4096, 8192, 12_288]);
}

#[test]
fn refining_the_grid_keeps_the_old_points() {
    let coarse = sample_offsets(2_000_398_934_016, 200);
    let fine = sample_offsets(2_000_398_934_016, 199 * 3 + 1);
    for (i, offset) in coarse.iter().enumerate() {
        assert_eq!(fine[3 * i], *offset);
    }
}

#[test]
fn samples_pair_with_their_offsets_in_order() {
    let mut progress = Progress::new(vec![0, 4096, 8192]);
    let mut bytes_read = 0_u64;
    while let Some((index, offset)) = progress.next() {
        assert_eq!(index, progress.samples.len());
        assert_eq!(offset, progress.offsets[index]);
        bytes_read += 4096;
        progress.record(Reading {
            bytes_read,
            position: "0.00".to_string(),
            elapsed_secs: "0.100".to_string(),
            mib_per_sec: "1.00".to_string(),
        });
    }
    assert_eq!(progress.next(), None);
    let samples = progress.finish();
    assert_eq!(samples.len(), 3);
    for (i, sample) in samples.iter().enumerate() {
        assert_eq!(sample.index, i);
        assert_eq!(sample.offset, 4096 * i as u64);
        assert_eq!(sample.bytes_read, 4096 * (i as u64 + 1));
        assert_eq!(sample.position, "0.00");
        assert_eq!(sample.elapsed_secs, "0.100");
        assert_eq!(sample.mib_per_sec, "1.00");
    }
}

#[test]
fn a_run_without_sample_points_is_through_at_once() {
    assert_eq!(Progress::new(vec![]).next(), None);
    assert!(Progress::new(vec![]).finish().is_empty());
}
