use sha1sum::compress::{compress, initial_state};
use sha1sum::{format_hash, sha1, SHA1Pad};

/// Drives a padder over `data` with reads of 64 bytes and collects the blocks.
fn blocks_for(data: &[u8]) -> Vec<[u8; 64]> {
    let mut pad = SHA1Pad::new();
    let mut blocks = Vec::new();
    let mut pos = 0;
    loop {
        let take = if pad.needs_read() { (data.len() - pos).min(64) } else { 0 };
        match pad.next(&data[pos..pos + take]) {
            Some(block) => blocks.push(block),
            None => return blocks,
        }
        pos += take;
    }
}

fn length_bytes(len: u64) -> [u8; 8] {
    (len * 8).to_be_bytes()
}

#[test]
fn empty_input_gives_one_block() {
    let blocks = blocks_for(b"");
    assert_eq!(blocks.len(), 1);
    let mut expected = [0u8; 64];
    expected[0] = 0x80;
    assert_eq!(blocks[0], expected);
}

#[test]
fn abc_gives_one_block_with_terminator_and_length() {
    let blocks = blocks_for(b"abc");
    assert_eq!(blocks.len(), 1);
    let mut expected = [0u8; 64];
    expected[..3].copy_from_slice(b"abc");
    expected[3] = 0x80;
    expected[63] = 24;
    assert_eq!(blocks[0], expected);
}

#[test]
fn length_fits_up_to_55_bytes_left_over() {
    for len in [0usize, 1, 54, 55, 64, 64 + 55, 128, 128 + 17] {
        let data = vec![0x5Au8; len];
        let blocks = blocks_for(&data);
        assert_eq!(blocks.len(), len / 64 + 1, "length {}", len);
        let last = blocks[blocks.len() - 1];
        let r = len % 64;
        assert!(last[..r].iter().all(|&b| b == 0x5A));
        assert_eq!(last[r], 0x80);
        assert!(last[r + 1..56].iter().all(|&b| b == 0));
        assert_eq!(last[56..], length_bytes(len as u64));
    }
}

#[test]
fn length_spills_into_an_extra_block_from_56_bytes_left_over() {
    for len in [56usize, 57, 60, 63, 64 + 56, 64 + 63, 128 + 59] {
        let data = vec![0x5Au8; len];
        let blocks = blocks_for(&data);
        assert_eq!(blocks.len(), len / 64 + 2, "length {}", len);
        let r = len % 64;
        let data_block = blocks[blocks.len() - 2];
        assert!(data_block[..r].iter().all(|&b| b == 0x5A));
        assert_eq!(data_block[r], 0x80);
        assert!(data_block[r + 1..].iter().all(|&b| b == 0));
        let extra = blocks[blocks.len() - 1];
        assert!(extra[..56].iter().all(|&b| b == 0));
        assert_eq!(extra[56..], length_bytes(len as u64));
    }
}

#[test]
fn a_multiple_of_64_still_gets_its_padding_block() {
    let data: Vec<u8> = (0..128u8).collect();
    let blocks = blocks_for(&data);
    assert_eq!(blocks.len(), 3);
    assert_eq!(&blocks[0][..], &data[..64]);
    assert_eq!(&blocks[1][..], &data[64..]);
    let mut expected = [0u8; 64];
    expected[0] = 0x80;
    expected[62] = 0x04;
    assert_eq!(blocks[2], expected);
}

#[test]
fn full_reads_pass_through_unchanged() {
    let data: Vec<u8> = (0..64u8).collect();
    let mut pad = SHA1Pad::new();
    assert!(pad.needs_read());
    assert_eq!(pad.next(&data).unwrap().to_vec(), data);
    assert!(pad.needs_read());
}

#[test]
fn padder_is_exhausted_after_the_last_block() {
    let mut pad = SHA1Pad::new();
    assert!(pad.needs_read());
    assert!(pad.next(b"abc").is_some());
    assert!(!pad.needs_read());
    assert!(pad.next(b"").is_none());
    assert!(pad.next(b"more").is_none());
    assert!(!pad.needs_read());
}

#[test]
fn padder_owes_the_length_block_after_a_long_short_read() {
    let mut pad = SHA1Pad::new();
    let read = [7u8; 60];
    let first = pad.next(&read).unwrap();
    assert_eq!(&first[..60], &read[..]);
    assert_eq!(first[60], 0x80);
    assert_eq!(&first[61..], &[0u8; 3]);
    assert!(!pad.needs_read());
    let second = pad.next(b"ignored").unwrap();
    let mut expected = [0u8; 64];
    expected[62] = 0x01;
    expected[63] = 0xE0;
    assert_eq!(second, expected);
    assert!(pad.next(b"").is_none());
}

#[test]
fn a_short_read_ends_the_stream() {
    let mut pad = SHA1Pad::new();
    let block = pad.next(b"a").unwrap();
    assert_eq!(
        format_hash(compress(initial_state(), &block)),
        "86f7e437faa5a7fce15d1ddcb9eaeaea377667b8"
    );
    assert!(pad.next(b"bc").is_none());
}

#[test]
fn assign_size_writes_the_bit_length_big_endian() {
    let mut pad = SHA1Pad::new();
    let mut block = [0xEEu8; 64];
    pad.assign_size(&mut block);
    assert_eq!(&block[..56], &[0xEEu8; 56][..]);
    assert_eq!(&block[56..], &[0u8; 8][..]);

    assert!(pad.next(&[1u8; 64]).is_some());
    assert!(pad.next(&[2u8; 64]).is_some());
    let mut block = [0xEEu8; 64];
    pad.assign_size(&mut block);
    assert_eq!(&block[..56], &[0xEEu8; 56][..]);
    assert_eq!(&block[56..], &[0, 0, 0, 0, 0, 0, 0x04, 0x00][..]);
}

#[test]
fn the_length_field_counts_across_many_blocks() {
    let data = vec![0u8; 70_000];
    let blocks = blocks_for(&data);
    assert_eq!(blocks.len(), 70_000 / 64 + 1);
    let last = blocks[blocks.len() - 1];
    assert_eq!(last[56..], [0, 0, 0, 0, 0, 0x08, 0x8B, 0x80]);
}

#[test]
fn driving_the_padder_by_hand_gives_the_digest() {
    for len in [0usize, 3, 55, 56, 64, 200] {
        let data: Vec<u8> = (0..len).map(|i| (i * 7 + 1) as u8).collect();
        let mut state = initial_state();
        for block in blocks_for(&data) {
            state = compress(state, &block);
        }
        assert_eq!(state, sha1(&data), "length {}", len);
    }
}
