use sha1sum::{format_hash, sha1};

fn hex_of(data: &[u8]) -> String {
    format_hash(sha1(data))
}

#[test]
fn digest_of_empty_input() {
    assert_eq!(hex_of(b""), "da39a3ee5e6b4b0d3255bfef95601890afd80709");
}

#[test]
fn digest_of_abc() {
    let hex = hex_of(b"abc");
    assert_eq!(hex, "a9993e364706816aba3e25717850c26c9cd0d89d");
    assert!(hex.starts_with("a9993e364706816aba3e25717850c26c9cd0d89"));
    assert_eq!(hex.len(), 40);
}

#[test]
fn digest_of_quick_brown_fox() {
    assert_eq!(
        hex_of(b"The quick brown fox jumps over the lazy dog"),
        "2fd4e1c67a2d28fced849ee1bb76e7391b93eb12"
    );
}

#[test]
fn digest_of_two_block_message() {
    assert_eq!(
        hex_of(b"abcdbcdecdefdefgefghfghighijhijkijkljklmklmnlmnomnopnopq"),
        "84983e441c3bd26ebaae4aa1f95129e5e54670f1"
    );
}

#[test]
fn digest_of_one_million_a() {
    let data = vec![b'a'; 1_000_000];
    assert_eq!(hex_of(&data), "34aa973cd4c4daa4f61eeb2bdbad27316534016f");
}

#[test]
fn digest_of_all_byte_values() {
    let data: Vec<u8> = (0u8..200).collect();
    assert_eq!(hex_of(&data), "54d11e99127d159799dbce10f51a75e697780478");
}

#[test]
fn digest_words_of_abc() {
    let digest = sha1(b"abc");
    let values: Vec<u32> = digest.iter().map(|w| w.0).collect();
    assert_eq!(values, vec![0xa9993e36, 0x4706816a, 0xba3e2571, 0x7850c26c, 0x9cd0d89d]);
}

#[test]
fn digests_around_the_padding_boundary() {
    let expected = [
        (55usize, "c1c8bbdc22796e28c0e15163d20899b65621d65a"),
        (56, "c2db330f6083854c99d4b5bfb6e8f29f201be699"),
        (57, "f08f24908d682555111be7ff6f004e78283d989a"),
        (63, "03f09f5b158a7a8cdad920bddc29b81c18a551f5"),
        (64, "0098ba824b5c16427bd7a1122a5a442a25ec644d"),
        (65, "11655326c708d70319be2610e8a57d9a5b959d3b"),
        (119, "ee971065aaa017e0632a8ca6c77bb3bf8b1dfc56"),
        (120, "f34c1488385346a55709ba056ddd08280dd4c6d6"),
        (127, "89d95fa32ed44a7c610b7ee38517ddf57e0bb975"),
        (128, "ad5b3fdbcb526778c2839d2f151ea753995e26a0"),
    ];
    for (len, hex) in expected {
        assert_eq!(hex_of(&vec![b'a'; len]), hex, "length {}", len);
    }
}

#[test]
fn hashing_twice_gives_the_same_digest() {
    let data = b"The quick brown fox jumps over the lazy dog";
    assert_eq!(sha1(data), sha1(data));
    let copy = data.to_vec();
    assert_eq!(sha1(data), sha1(&copy));
}

#[test]
fn one_changed_letter_changes_the_digest() {
    assert_eq!(
        hex_of(b"The quick brown fox jumps over the lazy cog"),
        "de9f2c7fd25e1b3afad3e85a0bd17d9b100db4b3"
    );
    assert_eq!(hex_of(b"abd"), "cb4cc28df0fdbe0ecf9d9662e294b118092a5735");
    assert_eq!(hex_of(b"bbc"), "0fbe2a58568b4590569588e52ed6a7da4e91b6ab");
}

#[test]
fn every_single_bit_flip_of_the_known_vectors_changes_the_digest() {
    let inputs: [&[u8]; 3] = [b"abc", b"a", b"The quick brown fox jumps over the lazy dog"];
    for input in inputs {
        let unchanged = sha1(input);
        for byte in 0..input.len() {
            for bit in 0..8 {
                let mut changed = input.to_vec();
                changed[byte] ^= 1 << bit;
                assert_ne!(sha1(&changed), unchanged, "byte {} bit {}", byte, bit);
            }
        }
    }
    assert_eq!(hex_of(&[0x61 ^ 0x80, 0x62, 0x63]), "4c5b0ec5033ffce76fe3f3c162398cb38d04e838");
}

#[test]
fn a_longer_or_shorter_input_changes_the_digest() {
    assert_ne!(sha1(b"abc"), sha1(b"abc\0"));
    assert_ne!(sha1(b""), sha1(b"\0"));
    assert_ne!(sha1(&vec![0u8; 64]), sha1(&vec![0u8; 65]));
    assert_eq!(hex_of(b"a"), "86f7e437faa5a7fce15d1ddcb9eaeaea377667b8");
}
