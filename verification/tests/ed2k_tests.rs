use anidb::ed2k::BLOCKSIZE;
use anidb::ed2k::Ed2kHash;
use anidb::ed2k::hex_string;
use anidb::md4::Md4;

fn ed2k_hex_in_pieces(data: &[u8], piece: usize) -> String {
    let mut h = Ed2kHash::new();
    let mut fed = 0usize;
    while fed < data.len() {
        let end = (fed + piece).min(data.len());
        h.update(&data[fed..end]);
        fed = end;
    }
    let digest = h.finish();
    hex_string(digest.as_slice())
}

fn md4_hex_of(data: &[u8]) -> String {
    let mut h = Md4::new();
    h.input(data);
    let digest = h.result();
    hex_string(digest.as_slice())
}

#[test]
fn ed2k_empty_source_is_md4_of_empty() {
    // Policy: a zero-byte source counts as one empty chunk.
    let mut h = Ed2kHash::new();
    let digest = h.finish();
    assert_eq!(hex_string(digest.as_slice()), "31d6cfe0d16ae931b73c59d7e0c089c0");
}

#[test]
fn ed2k_small_source_is_plain_md4() {
    let data = b"ed2k hashes small sources like plain md4";
    let mut h = Ed2kHash::new();
    h.update(data);
    let digest = h.finish();
    assert_eq!(hex_string(digest.as_slice()), md4_hex_of(data));
}

#[test]
fn ed2k_single_chunk_rule() {
    // A source of exactly one chunk is identified by its plain MD4 digest.
    let data: Vec<u8> = (0..BLOCKSIZE).map(|i| (i % 251) as u8).collect();
    let hash = ed2k_hex_in_pieces(data.as_slice(), 1 << 16);
    assert_eq!(hash, md4_hex_of(data.as_slice()));
}

#[test]
fn ed2k_single_chunk_known_vector() {
    let zeros = vec![0u8; BLOCKSIZE];
    let hash = ed2k_hex_in_pieces(zeros.as_slice(), BLOCKSIZE);
    assert_eq!(hash, "d7def262a127cd79096a108e7a9fc138");
}

#[test]
fn ed2k_two_chunk_rule() {
    // One byte past the chunk size: the hash is the MD4 digest of the two
    // chunk digests concatenated in chunk order.
    let mut data = vec![0x5Au8; BLOCKSIZE];
    data.push(0x7F);
    let hash = ed2k_hex_in_pieces(data.as_slice(), 1 << 20);

    let mut c1 = Md4::new();
    c1.input(&data[..BLOCKSIZE]);
    let d1 = c1.result();
    let mut c2 = Md4::new();
    c2.input(&data[BLOCKSIZE..]);
    let d2 = c2.result();
    let mut outer = Md4::new();
    outer.input(d1.as_slice());
    outer.input(d2.as_slice());
    let expected = outer.result();
    assert_eq!(hash, hex_string(expected.as_slice()));
}

#[test]
fn ed2k_two_full_chunks_known_vector() {
    let zeros = vec![0u8; 2 * BLOCKSIZE];
    let hash = ed2k_hex_in_pieces(zeros.as_slice(), BLOCKSIZE);
    assert_eq!(hash, "194ee9e4fa79b2ee9f8829284c466051");
}

#[test]
fn ed2k_chunk_order_sensitivity() {
    // Swapping two distinct chunk digests changes the combination digest.
    let mut c1 = Md4::new();
    c1.input(b"first chunk stand-in");
    let d1 = c1.result();
    let mut c2 = Md4::new();
    c2.input(b"second chunk stand-in");
    let d2 = c2.result();
    assert_ne!(d1, d2);

    let mut fwd = Md4::new();
    fwd.input(d1.as_slice());
    fwd.input(d2.as_slice());
    let mut rev = Md4::new();
    rev.input(d2.as_slice());
    rev.input(d1.as_slice());
    assert_ne!(fwd.result(), rev.result());
}

#[test]
fn ed2k_determinism_across_read_sizes() {
    // The same source read through different buffer sizes, twice, always
    // yields the same hash.
    let data: Vec<u8> = (0..100_000).map(|i| (i * 31 % 256) as u8).collect();
    let baseline = ed2k_hex_in_pieces(data.as_slice(), data.len());
    for piece in [1usize << 10, 4096, 9973, 65536] {
        assert_eq!(ed2k_hex_in_pieces(data.as_slice(), piece), baseline);
    }
    assert_eq!(ed2k_hex_in_pieces(data.as_slice(), data.len()), baseline);
}

#[test]
fn hex_string_renders_lowercase_pairs() {
    assert_eq!(hex_string(&[]), "");
    assert_eq!(hex_string(&[0x00, 0x0f, 0xa5, 0xff]), "000fa5ff");
}
