use geco::dram::Dram;
use rand::Rng;

#[test]
fn dram_init_test() {
    let dram = Dram::new(32);

    assert!(dram.cells().len() == 4, "DRAM length incorrect");
}

#[test]
fn rand_dram_rw_test() {
    let mut dram = Dram::new(32);

    let mut rng = rand::thread_rng();

    for i in 0..64 {
        match i & 0b11 {
            0 => {
                let addr = rng.gen_range(0..32);
                let val = rng.gen();
                dram.write_u8(addr, val).unwrap();
                assert!(dram.read_u8(addr).unwrap() == val, "Read/Write test on DRAM failed");
            }
            1 => {
                let addr = rng.gen_range(0..16) << 1;
                let val = rng.gen();
                dram.write_u16(addr, val).unwrap();
                assert!(dram.read_u16(addr).unwrap() == val, "Read/Write test on DRAM failed");
            }
            2 => {
                let addr = rng.gen_range(0..8) << 2;
                let val = rng.gen();
                dram.write_u32(addr, val).unwrap();
                assert!(dram.read_u32(addr).unwrap() == val, "Read/Write test on DRAM failed");
            }
            3 => {
                let addr = rng.gen_range(0..4) << 3;
                let val = rng.gen();
                dram.write_u64(addr, val).unwrap();
                assert!(dram.read_u64(addr).unwrap() == val, "Read/Write test on DRAM failed");
            }
            _ => unreachable!(),
        }
    }
}

#[test]
fn dram_is_zero_after_construction() {
    let dram = Dram::new(64);
    assert_eq!(dram.size(), 64);
    assert_eq!(dram.cells().len(), 8);
    for cell in dram.cells() {
        assert_eq!(cell.0, [0u8; 8]);
    }
    for addr in 0..64u64 {
        assert_eq!(dram.read_u8(addr), Some(0));
    }
    for addr in (0..64u64).step_by(8) {
        assert_eq!(dram.read_u64(addr), Some(0));
    }
}

#[test]
fn dram_try_new_checks_the_size() {
    assert!(Dram::try_new(0).is_none());
    assert!(Dram::try_new(7).is_none());
    assert!(Dram::try_new(12).is_none());
    let dram = Dram::try_new(8).unwrap();
    assert_eq!(dram.size(), 8);
    assert_eq!(dram.cells().len(), 1);
}

#[test]
fn dram_byte_scenario() {
    let mut dram = Dram::new(32);
    assert_eq!(dram.write_u8(5, 0xAB), Some(()));
    assert_eq!(dram.read_u8(5), Some(0xAB));
    assert_eq!(dram.read_u32(5), None);
    assert_eq!(dram.write_u32(4, 0xDEAD_BEEF), Some(()));
    assert_eq!(dram.read_u32(4), Some(0xDEAD_BEEF));
}

#[test]
fn dram_round_trip_every_width_and_address() {
    let mut dram = Dram::new(32);
    for addr in 0..32u64 {
        let val = 0x80u8.wrapping_add(addr as u8);
        assert_eq!(dram.write_u8(addr, val), Some(()));
        assert_eq!(dram.read_u8(addr), Some(val));
    }
    for addr in (0..32u64).step_by(2) {
        let val = 0xF00Du16.wrapping_add(addr as u16);
        assert_eq!(dram.write_u16(addr, val), Some(()));
        assert_eq!(dram.read_u16(addr), Some(val));
    }
    for addr in (0..32u64).step_by(4) {
        let val = 0xFFFF_FF00u32.wrapping_add(addr as u32);
        assert_eq!(dram.write_u32(addr, val), Some(()));
        assert_eq!(dram.read_u32(addr), Some(val));
    }
    for addr in (0..32u64).step_by(8) {
        let val = u64::MAX - addr;
        assert_eq!(dram.write_u64(addr, val), Some(()));
        assert_eq!(dram.read_u64(addr), Some(val));
    }
}

#[test]
fn dram_misaligned_access_is_refused_and_changes_nothing() {
    let mut dram = Dram::new(16);
    dram.write_u64(0, 0x0807_0605_0403_0201).unwrap();
    dram.write_u64(8, 0x100F_0E0D_0C0B_0A09).unwrap();
    for addr in 0..16u64 {
        if addr % 2 != 0 {
            assert_eq!(dram.read_u16(addr), None);
            assert_eq!(dram.write_u16(addr, 0xFFFF), None);
        }
        if addr % 4 != 0 {
            assert_eq!(dram.read_u32(addr), None);
            assert_eq!(dram.write_u32(addr, 0xFFFF_FFFF), None);
        }
        if addr % 8 != 0 {
            assert_eq!(dram.read_u64(addr), None);
            assert_eq!(dram.write_u64(addr, u64::MAX), None);
        }
    }
    for addr in 0..16u64 {
        assert_eq!(dram.read_u8(addr), Some(addr as u8 + 1));
    }
}

#[test]
fn dram_misaligned_access_beyond_the_region_is_refused() {
    let mut dram = Dram::new(8);
    assert_eq!(dram.read_u16(9), None);
    assert_eq!(dram.read_u32(1001), None);
    assert_eq!(dram.read_u64(u64::MAX), None);
    assert_eq!(dram.write_u16(9, 1), None);
    assert_eq!(dram.write_u32(1002, 1), None);
    assert_eq!(dram.write_u64(u64::MAX, 1), None);
    assert_eq!(dram.read_u64(0), Some(0));
}

#[test]
fn dram_values_are_little_endian() {
    let mut dram = Dram::new(16);
    dram.write_u64(8, 0x0102_0304_0506_0708).unwrap();
    let expected: [u8; 8] = [0x08, 0x07, 0x06, 0x05, 0x04, 0x03, 0x02, 0x01];
    for (k, byte) in expected.iter().enumerate() {
        assert_eq!(dram.read_u8(8 + k as u64), Some(*byte));
    }
    assert_eq!(dram.read_u16(8), Some(0x0708));
    assert_eq!(dram.read_u16(10), Some(0x0506));
    assert_eq!(dram.read_u16(12), Some(0x0304));
    assert_eq!(dram.read_u16(14), Some(0x0102));
    assert_eq!(dram.read_u32(8), Some(0x0506_0708));
    assert_eq!(dram.read_u32(12), Some(0x0102_0304));
    assert_eq!(dram.read_u64(0), Some(0));
}

#[test]
fn dram_narrow_writes_compose_into_wide_reads() {
    let mut dram = Dram::new(8);
    dram.write_u8(0, 0x11).unwrap();
    dram.write_u8(1, 0x22).unwrap();
    dram.write_u16(2, 0x4433).unwrap();
    dram.write_u32(4, 0x8877_6655).unwrap();
    assert_eq!(dram.read_u16(0), Some(0x2211));
    assert_eq!(dram.read_u32(0), Some(0x4433_2211));
    assert_eq!(dram.read_u64(0), Some(0x8877_6655_4433_2211));
    assert_eq!(dram.read_u8(3), Some(0x44));
    assert_eq!(dram.read_u8(7), Some(0x88));
    assert_eq!(dram.cells()[0].0, [0x11, 0x22, 0x33, 0x44, 0x55, 0x66, 0x77, 0x88]);
}

#[test]
fn dram_write_touches_only_its_own_bytes() {
    let mut dram = Dram::new(24);
    for addr in 0..24u64 {
        dram.write_u8(addr, 0xEE).unwrap();
    }
    dram.write_u16(10, 0x1234).unwrap();
    dram.write_u32(20, 0x5678_9ABC).unwrap();
    for addr in 0..24u64 {
        let expected = match addr {
            10 => 0x34,
            11 => 0x12,
            20 => 0xBC,
            21 => 0x9A,
            22 => 0x78,
            23 => 0x56,
            _ => 0xEE,
        };
        assert_eq!(dram.read_u8(addr), Some(expected));
    }
}
