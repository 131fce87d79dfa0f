use crc32::Algorithm;
use crc32::Crc;

fn crc32_reflected() -> Algorithm {
    Algorithm {
        width: 32,
        poly: 0x04C1_1DB7,
        init: 0xFFFF_FFFF,
        refin: true,
        refout: true,
        xorout: 0xFFFF_FFFF,
    }
}

fn crc16_ccitt_style() -> Algorithm {
    Algorithm { width: 16, poly: 0x1021, init: 0xFFFF, refin: false, refout: false, xorout: 0 }
}

#[test]
fn checksum_empty_is_zero() {
    let alg = crc32_reflected();
    let crc = Crc::new(&alg);
    assert_eq!(crc.checksum(b""), 0x0000_0000);
}

#[test]
fn checksum_is_deterministic() {
    let alg = crc32_reflected();
    let crc = Crc::new(&alg);
    let first: u32 = crc.checksum(b"123456789");
    let second: u32 = crc.checksum(b"123456789");
    assert_eq!(first, second);
    let other = Crc::new(&alg);
    assert_eq!(other.checksum(b"123456789"), first);
}

#[test]
fn checksum_known_values() {
    let alg = crc32_reflected();
    let crc = Crc::new(&alg);
    assert_eq!(crc.checksum(b"123456789"), 0xCBF4_3926);
    assert_eq!(crc.checksum(b"The quick brown fox jumps over the lazy dog"), 0x414F_A339);
}

#[test]
fn checksum_known_values_reflected_sub_register_widths() {
    let arc = Algorithm { width: 16, poly: 0x8005, init: 0, refin: true, refout: true, xorout: 0 };
    let crc_arc = Crc::new(&arc);
    assert_eq!(crc_arc.checksum(b"123456789"), 0xBB3D);

    let modbus =
        Algorithm { width: 16, poly: 0x8005, init: 0xFFFF, refin: true, refout: true, xorout: 0 };
    let crc_modbus = Crc::new(&modbus);
    assert_eq!(crc_modbus.checksum(b"123456789"), 0x4B37);
}

#[test]
fn update_single_byte_is_the_standard_step() {
    let crc = Crc::new(&crc32_reflected());
    assert_eq!(crc.update(0x100, &[0]), 0x1);
}

#[test]
fn checksum_known_values_msb_first() {
    let bzip2_style = Algorithm {
        width: 32,
        poly: 0x04C1_1DB7,
        init: 0xFFFF_FFFF,
        refin: false,
        refout: false,
        xorout: 0xFFFF_FFFF,
    };
    let crc = Crc::new(&bzip2_style);
    assert_eq!(crc.checksum(b"123456789"), 0xFC89_1918);

    let crc16 = Crc::new(&crc16_ccitt_style());
    assert_eq!(crc16.checksum(b"123456789"), 0x29B1);

    let alg8 = Algorithm { width: 8, poly: 0x07, init: 0, refin: false, refout: false, xorout: 0 };
    let crc8 = Crc::new(&alg8);
    assert_eq!(crc8.checksum(b"123456789"), 0xF4);

    let alg5 = Algorithm {
        width: 5,
        poly: 0x05,
        init: 0x1F,
        refin: false,
        refout: false,
        xorout: 0x1F,
    };
    let crc5 = Crc::new(&alg5);
    assert_eq!(crc5.checksum(b"123456789"), 0x10);
}

#[test]
fn checksum_known_value_reflected_input_only() {
    let alg = Algorithm { width: 16, poly: 0x8005, init: 0, refin: true, refout: false, xorout: 0 };
    let crc = Crc::new(&alg);
    assert_eq!(crc.checksum(b"123456789"), 0xBCDD);
}

#[test]
fn empty_checksum_equals_finalize_of_init() {
    for alg in [crc32_reflected(), crc16_ccitt_style()] {
        let crc = Crc::new(&alg);
        let expected: u32 = crc.finalize(crc.init(alg.init));
        assert_eq!(crc.checksum(b""), expected);
    }
}

#[test]
fn init_known_values() {
    let crc = Crc::new(&crc32_reflected());
    assert_eq!(crc.init(0xFFFF_FFFF), 0xFFFF_FFFF);
    let crc16 = Crc::new(&crc16_ccitt_style());
    assert_eq!(crc16.init(0xFFFF), 0xFFFF_0000);
}

#[test]
fn finalize_known_value() {
    let crc = Crc::new(&crc32_reflected());
    assert_eq!(crc.finalize(0), 0xFFFF_FFFF);
}

#[test]
fn update_of_no_bytes_keeps_register() {
    let crc = Crc::new(&crc32_reflected());
    assert_eq!(crc.update(0x1234_5678, b""), 0x1234_5678);
}

#[test]
fn width_masking_on_results() {
    let algorithms: [Algorithm; 6] = [
        crc16_ccitt_style(),
        Algorithm { width: 8, poly: 0x07, init: 0, refin: false, refout: false, xorout: 0 },
        Algorithm { width: 16, poly: 0x8005, init: 0, refin: true, refout: false, xorout: 0 },
        Algorithm { width: 21, poly: 0x1021, init: 0xFFFF, refin: false, refout: true, xorout: 5 },
        Algorithm { width: 16, poly: 0x8005, init: 0xFFFF, refin: true, refout: true, xorout: 0 },
        Algorithm { width: 5, poly: 0x05, init: 0x1F, refin: true, refout: true, xorout: 0x1F },
    ];
    let inputs: [&[u8]; 4] = [b"", b"a", b"123456789", b"The quick brown fox"];
    for alg in algorithms {
        let crc = Crc::new(&alg);
        for bytes in inputs {
            let r: u32 = crc.checksum(bytes);
            assert_eq!(r >> alg.width, 0);
        }
    }
}
