use crc32::Algorithm;
use crc32::Crc;

fn crc32_reflected() -> Algorithm {
    Algorithm {
        width: 32,
        poly: 0x04C1_1DB7,
        init: 0xFFFF_FFFF,
        refin: true,
        refout: true,
        xorout: 0xFFFF_FFFF,
    }
}

#[test]
fn streaming_matches_one_shot() {
    let alg = crc32_reflected();
    let crc = Crc::new(&alg);
    let mut digest = crc.digest();
    digest.update(b"1234");
    digest.update(b"56789");
    let streamed: u32 = digest.finalize();
    assert_eq!(streamed, 0xCBF4_3926);
    assert_eq!(streamed, crc.checksum(b"123456789"));
}

#[test]
fn streaming_with_empty_chunks() {
    let alg = crc32_reflected();
    let crc = Crc::new(&alg);
    let mut digest = crc.digest();
    digest.update(b"");
    digest.update(b"1234");
    digest.update(b"");
    digest.update(b"56789");
    digest.update(b"");
    assert_eq!(digest.finalize(), crc.checksum(b"123456789"));
}

#[test]
fn streaming_single_byte_chunks() {
    let alg = crc32_reflected();
    let crc = Crc::new(&alg);
    let bytes: &[u8] = b"The quick brown fox jumps over the lazy dog";
    let mut digest = crc.digest();
    for b in bytes {
        digest.update(&[*b]);
    }
    assert_eq!(digest.finalize(), crc.checksum(bytes));
}

#[test]
fn streaming_every_split_point() {
    let alg = crc32_reflected();
    let crc = Crc::new(&alg);
    let bytes: &[u8] = b"123456789";
    let expected: u32 = crc.checksum(bytes);
    for split in 0..=bytes.len() {
        let mut digest = crc.digest();
        digest.update(&bytes[..split]);
        digest.update(&bytes[split..]);
        assert_eq!(digest.finalize(), expected);
    }
}

#[test]
fn digest_of_nothing_matches_empty_checksum() {
    let alg = crc32_reflected();
    let crc = Crc::new(&alg);
    let digest = crc.digest();
    assert_eq!(digest.finalize(), crc.checksum(b""));
}

#[test]
fn digest_with_initial_overrides_the_algorithm() {
    let alg = crc32_reflected();
    let crc = Crc::new(&alg);
    let mut digest = crc.digest_with_initial(0);
    digest.update(b"123456789");
    assert_eq!(digest.finalize(), 0xD202_D277);

    let zero_init = Algorithm { init: 0, ..alg };
    let other = Crc::new(&zero_init);
    assert_eq!(other.checksum(b"123456789"), 0xD202_D277);
}
