use datasets::mnist::MNistLabels;
use datasets::utility::{decompress_file, DownloadProgress, REPORT_INTERVAL};
use std::io::Write;

fn gzip(bytes: &[u8]) -> Vec<u8> {
    let mut encoder = flate2::write::GzEncoder::new(Vec::new(), flate2::Compression::default());
    encoder.write_all(bytes).unwrap();
    encoder.finish().unwrap()
}

#[test]
fn decompress_gives_back_what_was_packed() {
    let plain: Vec<u8> = (0..10_000u32).map(|i| (i % 7) as u8).collect();
    let packed = gzip(&plain);
    assert_ne!(packed, plain);
    let unpacked = decompress_file(&packed).unwrap();
    assert_eq!(unpacked, plain);
}

#[test]
fn decompress_of_empty_payload_is_empty() {
    let packed = gzip(&[]);
    assert!(!packed.is_empty());
    assert_eq!(decompress_file(&packed).unwrap(), Vec::<u8>::new());
}

#[test]
fn decompress_rejects_what_is_no_gzip() {
    assert!(decompress_file(b"plainly not a gzip stream").is_err());
    assert!(decompress_file(&[]).is_err());
}

#[test]
fn decompress_rejects_a_cut_stream() {
    let plain: Vec<u8> = (0..10_000u32).map(|i| (i % 251) as u8).collect();
    let packed = gzip(&plain);
    assert!(decompress_file(&packed[..packed.len() / 2]).is_err());
}

#[test]
fn decompress_rejects_a_wrong_checksum() {
    let mut packed = gzip(b"some labels");
    let checksum_at = packed.len() - 8;
    packed[checksum_at] ^= 0xFF;
    assert!(decompress_file(&packed).is_err());
}

#[test]
fn decompress_same_input_same_output() {
    let packed = gzip(b"the same bytes twice");
    assert_eq!(decompress_file(&packed).unwrap(), decompress_file(&packed).unwrap());
}

#[test]
fn decompress_then_decode_labels() {
    let packed = gzip(&[0, 0, 8, 1, 0, 0, 0, 3, 7, 2, 9]);
    let labels = MNistLabels::from_ubyte(decompress_file(&packed).unwrap());
    assert_eq!(labels.count(), 3);
    assert_eq!(labels.get(2), Some(9));
}

#[test]
fn progress_starts_at_zero() {
    let progress = DownloadProgress::new();
    assert_eq!(progress.bytes_downloaded(), 0);
}

#[test]
fn progress_reports_only_above_the_interval() {
    assert_eq!(REPORT_INTERVAL, 1_000_000);
    let mut progress = DownloadProgress::new();
    assert!(!progress.record_chunk(400_000));
    assert!(!progress.record_chunk(600_000));
    assert_eq!(progress.bytes_downloaded(), 1_000_000);
    // Exactly the interval is not yet more than it.
    assert!(progress.record_chunk(1));
    assert_eq!(progress.bytes_downloaded(), 1_000_001);
}

#[test]
fn progress_counts_from_the_last_report() {
    let mut progress = DownloadProgress::new();
    assert!(progress.record_chunk(1_500_000));
    assert!(!progress.record_chunk(1_000_000));
    assert!(progress.record_chunk(1));
    assert!(!progress.record_chunk(0));
    assert_eq!(progress.bytes_downloaded(), 2_500_001);
}

#[test]
fn progress_counts_empty_chunks() {
    let mut progress = DownloadProgress::new();
    assert!(!progress.record_chunk(0));
    assert_eq!(progress.bytes_downloaded(), 0);
}
