use anidb::FixedBuffer;
use anidb::FixedBuffer64;
use anidb::RangeExt;
use anidb::StandardPadding;
use anidb::ed2k::hex_string;
use anidb::md4::Md4;
use anidb::read_u32v_le;
use anidb::write_u32_le;

fn md4_hex(data: &[u8]) -> String {
    let mut h = Md4::new();
    h.input(data);
    let digest = h.result();
    hex_string(digest.as_slice())
}

#[test]
fn md4_known_vectors() {
    assert_eq!(md4_hex(b""), "31d6cfe0d16ae931b73c59d7e0c089c0");
    assert_eq!(md4_hex(b"a"), "bde52cb31de33e46245e05fbdbd6fb24");
    assert_eq!(md4_hex(b"abc"), "a448017aaf21d8525fc10ae87aa6729d");
    assert_eq!(md4_hex(b"message digest"), "d9130a8164549fe818874806e1c7014b");
}

#[test]
fn md4_known_vectors_longer() {
    assert_eq!(
        md4_hex(b"abcdefghijklmnopqrstuvwxyz"),
        "d79e1c308aa5bbcdeea8ed63df412da9"
    );
    assert_eq!(
        md4_hex(b"ABCDEFGHIJKLMNOPQRSTUVWXYZabcdefghijklmnopqrstuvwxyz0123456789"),
        "043f8582f241db351ce627e153e7f0e4"
    );
    assert_eq!(
        md4_hex(b"12345678901234567890123456789012345678901234567890123456789012345678901234567890"),
        "e33b4ddc9c38f2199c3e7b164fcc0536"
    );
}

#[test]
fn md4_streaming_equivalence() {
    // The same bytes, split across updates in every way tried, give the
    // digest of the single whole-sequence update.
    let data: Vec<u8> = (0u32..300).map(|i| (i % 251) as u8).collect();
    let whole = md4_hex(data.as_slice());
    for split in [1usize, 7, 63, 64, 65, 100, 299] {
        let mut h = Md4::new();
        let mut fed = 0usize;
        while fed < data.len() {
            let end = (fed + split).min(data.len());
            h.input(&data[fed..end]);
            fed = end;
        }
        let digest = h.result();
        assert_eq!(hex_string(digest.as_slice()), whole);
    }
}

#[test]
fn md4_reset_starts_over() {
    let mut h = Md4::new();
    h.input(b"garbage");
    h.reset();
    h.input(b"abc");
    let digest = h.result();
    assert_eq!(hex_string(digest.as_slice()), "a448017aaf21d8525fc10ae87aa6729d");
}

#[test]
fn endian_roundtrip() {
    let bytes = write_u32_le(0x01020304);
    assert_eq!(bytes, vec![0x04, 0x03, 0x02, 0x01]);
    let words = read_u32v_le(&[0x04, 0x03, 0x02, 0x01, 0xff, 0x00, 0x00, 0x00]);
    assert_eq!(words, vec![0x01020304, 0x000000ff]);
}

#[test]
fn fixed_buffer_releases_blocks() {
    let mut buf = FixedBuffer64::new();
    assert_eq!(buf.size(), 64);
    assert_eq!(buf.position(), 0);
    assert_eq!(buf.remaining(), 64);

    let first: Vec<u8> = (0u8..100).collect();
    let blocks = buf.input(first.as_slice());
    assert_eq!(blocks.len(), 1);
    assert_eq!(blocks[0].as_slice(), &first[0..64]);
    assert_eq!(buf.position(), 36);

    // Fill the partially filled buffer to capacity and beyond.
    let second: Vec<u8> = (100u8..240).collect();
    let blocks = buf.input(second.as_slice());
    assert_eq!(blocks.len(), 2);
    assert_eq!(blocks[0][0], 64);
    assert_eq!(blocks[1][0], 100 + 28);
    assert_eq!(buf.position(), (100 + 140) % 64);
}

#[test]
fn fixed_buffer_padding_with_room() {
    let mut buf = FixedBuffer64::new();
    let blocks = buf.input(&[0xAAu8; 10]);
    assert!(blocks.is_empty());
    let carry = buf.standard_padding(8);
    assert!(carry.is_none());
    assert_eq!(buf.position(), 56);
    let rest = buf.current_buffer();
    assert_eq!(rest.len(), 56);
    assert_eq!(rest[10], 0x80);
    assert!(rest[11..].iter().all(|&b| b == 0));
}

#[test]
fn fixed_buffer_padding_overflow() {
    let mut buf = FixedBuffer64::new();
    let blocks = buf.input(&[0xBBu8; 60]);
    assert!(blocks.is_empty());
    let carry = buf.standard_padding(8).expect("a full block must be released");
    assert_eq!(carry.len(), 64);
    assert_eq!(carry[60], 0x80);
    assert!(carry[61..].iter().all(|&b| b == 0));
    assert_eq!(buf.position(), 56);
}

#[test]
fn step_up_counts() {
    let mut it = (0usize..10).step_up(3);
    let mut seen = Vec::new();
    while let Some(v) = it.next() {
        seen.push(v);
    }
    assert_eq!(seen, vec![0, 3, 6, 9]);
}
