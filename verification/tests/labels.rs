use datasets::mnist::MNistLabels;

fn label_buffer(magic: u32, count: u32, labels: &[u8]) -> Vec<u8> {
    let mut buffer = Vec::new();
    buffer.extend_from_slice(&magic.to_be_bytes());
    buffer.extend_from_slice(&count.to_be_bytes());
    buffer.extend_from_slice(labels);
    buffer
}

#[test]
fn labels_scenario_three_labels() {
    let labels = MNistLabels::from_ubyte(vec![0, 0, 8, 1, 0, 0, 0, 3, 7, 2, 9]);
    assert_eq!(labels.magic(), 2049);
    assert_eq!(labels.count(), 3);
    assert_eq!(labels.get(0), Some(7));
    assert_eq!(labels.get(1), Some(2));
    assert_eq!(labels.get(2), Some(9));
    assert_eq!(labels.get(3), None);
}

#[test]
fn labels_header_is_big_endian() {
    let labels = MNistLabels::from_ubyte(vec![0x12, 0x34, 0x56, 0x78, 0x01, 0x02, 0x03, 0x04]);
    assert_eq!(labels.magic(), 0x1234_5678);
    assert_eq!(labels.count(), 0x0102_0304);
}

#[test]
fn labels_header_takes_largest_fields() {
    let labels = MNistLabels::from_ubyte(vec![0xFF; 8]);
    assert_eq!(labels.magic(), u32::MAX);
    assert_eq!(labels.count(), u32::MAX);
}

#[test]
fn labels_header_only_has_no_labels() {
    let labels = MNistLabels::from_ubyte(vec![0, 0, 8, 1, 0, 0, 0, 0]);
    assert_eq!(labels.count(), 0);
    assert_eq!(labels.get(0), None);
    assert_eq!(labels.get_batch(0, 4), None);
}

#[test]
fn labels_round_trip_every_index() {
    let payload: Vec<u8> = (0..200u32).map(|i| (i * 7 % 10) as u8).collect();
    let labels = MNistLabels::from_ubyte(label_buffer(2049, 200, &payload));
    assert_eq!(labels.magic(), 2049);
    assert_eq!(labels.count(), 200);
    for i in 0..200u32 {
        assert_eq!(labels.get(i), Some(payload[i as usize]));
    }
    assert_eq!(labels.get(200), None);
    assert_eq!(labels.get(u32::MAX), None);
}

#[test]
fn labels_get_goes_by_declared_count() {
    // Five bytes behind the header, of which the header declares two.
    let labels = MNistLabels::from_ubyte(label_buffer(2049, 2, &[1, 2, 3, 4, 5]));
    assert_eq!(labels.get(1), Some(2));
    assert_eq!(labels.get(2), None);
}

#[test]
fn labels_batch_of_one_is_the_label() {
    let payload = [4u8, 8, 15, 16, 23, 42];
    let labels = MNistLabels::from_ubyte(label_buffer(2049, 6, &payload));
    for i in 0..6u32 {
        let single = labels.get(i).unwrap();
        assert_eq!(labels.get_batch(i, 1), Some(&[single][..]));
    }
}

#[test]
fn labels_batch_inside_buffer() {
    let payload = [4u8, 8, 15, 16, 23, 42];
    let labels = MNistLabels::from_ubyte(label_buffer(2049, 6, &payload));
    assert_eq!(labels.get_batch(0, 2), Some(&[4u8, 8][..]));
    assert_eq!(labels.get_batch(1, 2), Some(&[15u8, 16][..]));
    assert_eq!(labels.get_batch(2, 2), Some(&[23u8, 42][..]));
    assert_eq!(labels.get_batch(1, 3), Some(&[16u8, 23, 42][..]));
}

#[test]
fn labels_batch_is_cut_at_buffer_end() {
    let payload = [4u8, 8, 15, 16, 23, 42];
    let labels = MNistLabels::from_ubyte(label_buffer(2049, 6, &payload));
    // Batch 1 of four starts at offset 12 and would end at 16; the buffer has 14 bytes.
    assert_eq!(labels.get_batch(1, 4), Some(&[23u8, 42][..]));
    assert_eq!(labels.get_batch(0, 100), Some(&payload[..]));
    assert_eq!(labels.get_batch(0, u32::MAX), Some(&payload[..]));
}

#[test]
fn labels_batch_starting_at_buffer_end_is_empty() {
    let labels = MNistLabels::from_ubyte(label_buffer(2049, 3, &[7, 2, 9]));
    assert_eq!(labels.get_batch(1, 3), Some(&[][..]));
    assert_eq!(labels.get_batch(2, 0), Some(&[][..]));
}

#[test]
fn labels_batch_of_index_behind_count_is_none() {
    let labels = MNistLabels::from_ubyte(label_buffer(2049, 3, &[7, 2, 9]));
    assert_eq!(labels.get_batch(3, 1), None);
    assert_eq!(labels.get_batch(3, 0), None);
    assert_eq!(labels.get_batch(u32::MAX, u32::MAX), None);
}

#[test]
fn labels_increment_leaves_the_file_alone() {
    let mut labels = MNistLabels::from_ubyte(vec![0, 0, 8, 1, 0, 0, 0, 3, 7, 2, 9]);
    labels.increment();
    labels.increment();
    assert_eq!(labels.magic(), 2049);
    assert_eq!(labels.count(), 3);
    assert_eq!(labels.get(0), Some(7));
    assert_eq!(labels.get_batch(0, 3), Some(&[7u8, 2, 9][..]));
}
