use blobservices::super_hasher::SuperHasher;

fn hex(v: &Option<Vec<u8>>) -> String {
    hex::encode(v.as_ref().unwrap())
}

#[test]
fn hashes_of_abc() {
    let mut h = SuperHasher::new();
    h.update(b"abc");
    let (size, hashes) = h.finalize();
    assert_eq!(size, 3);
    assert_eq!(hex(&hashes.md5), "900150983cd24fb0d6963f7d28e17f72");
    assert_eq!(hex(&hashes.sha1), "a9993e364706816aba3e25717850c26c9cd0d89d");
    assert_eq!(
        hex(&hashes.sha256),
        "ba7816bf8f01cfea414140de5dae2223b00361a396177a9cb410ff61f20015ad"
    );
    assert_eq!(
        hex(&hashes.sha512),
        "ddaf35a193617abacc417349ae20413112e6fa4e89a97ea20a9eeee64b55d39a2192992a274fc1a836ba3c23a3feebbd454d4423643ce80e2a9ac94fa54ca49f"
    );
    assert_eq!(
        hex(&hashes.sha3_256),
        "3a985da74fe225b2045c172d6bd390bd855f086e3e9d525b46bfe24511431532"
    );
    assert_eq!(
        hex(&hashes.sha3_512),
        "b751850b1a57168a5693cd924b6b096e08f621827444f70d884f5d0240d2712e10e116e9192af3c91a7ec57647e3934057340b4cf408d5a56592f8274eec53f0"
    );
    assert_eq!(
        hashes.blake2sp.as_ref().unwrap().as_slice(),
        blake2s_simd::blake2sp::blake2sp(b"abc").as_bytes()
    );
    assert_eq!(hashes.xxh64, Some(xxhash_rust::xxh64::xxh64(b"abc", 0)));
    assert_eq!(hashes.sha256_dropbox, None);
}

#[test]
fn checksums_of_check_string() {
    let mut h = SuperHasher::new();
    h.update(b"123456789");
    let (size, hashes) = h.finalize();
    assert_eq!(size, 9);
    assert_eq!(hashes.crc32, Some(0xcbf43926));
    assert_eq!(hashes.crc32c, Some(0xe3069283));
}

#[test]
fn hashes_of_nothing() {
    let (size, hashes) = SuperHasher::new().finalize();
    assert_eq!(size, 0);
    assert_eq!(hashes.crc32, Some(0));
    assert_eq!(hashes.crc32c, Some(0));
    assert_eq!(hashes.xxh64, Some(0xef46db3751d8e999));
    assert_eq!(hex(&hashes.md5), "d41d8cd98f00b204e9800998ecf8427e");
    assert_eq!(hex(&hashes.sha1), "da39a3ee5e6b4b0d3255bfef95601890afd80709");
}

#[test]
fn chunking_does_not_change_the_hashes() {
    let data: Vec<u8> = (0..10_000u32).map(|i| (i * 7 + i / 13) as u8).collect();
    let mut whole = SuperHasher::new();
    whole.update(&data);
    let expected = whole.finalize();
    for chunk in [1usize, 3, 64, 1000, 4096, 9999] {
        let mut h = SuperHasher::new();
        for piece in data.chunks(chunk) {
            h.update(piece);
        }
        h.update(&[]);
        assert_eq!(h.finalize(), expected, "chunk size {}", chunk);
    }
}
