use ruccs::error::Error;
use ruccs::protocol::{AddressInfo, MemoryDomain};
use ruccs::util::snes::{RomChip, RomHeader, RomMapping, RomSpeed};

fn access(domain: MemoryDomain, address: i64, size: i64) -> AddressInfo {
    AddressInfo { domain, address, orig_address: address, size }
}

/// A 32-byte header with a consistent checksum pair.
fn header_bytes(title: &str, mapping: u8, chipset: u8, rom_size: u8, sram_size: u8) -> Vec<u8> {
    let mut b = vec![b' '; 21];
    for (i, c) in title.bytes().enumerate().take(21) {
        b[i] = c;
    }
    b.extend_from_slice(&[mapping, chipset, rom_size, sram_size, 0x01, 0x02, 0x03]);
    let comp: u16 = 0x1234;
    let sum: u16 = comp ^ 0xFFFF;
    b.extend_from_slice(&comp.to_le_bytes());
    b.extend_from_slice(&sum.to_le_bytes());
    b
}

#[test]
fn lorom_mapping_values() {
    let m = RomMapping::LoROM;
    assert_eq!(m.to_snes(&access(MemoryDomain::CARTROM, 0x1234, 1)), Ok(0x809234));
    assert_eq!(m.to_snes(&access(MemoryDomain::CARTROM, 0x8000, 1)), Ok(0x818000));
    assert_eq!(m.to_snes(&access(MemoryDomain::CARTROM, 0x400000, 1)), Ok(0x808000));
    assert_eq!(m.to_snes(&access(MemoryDomain::CARTRAM, 0x2000, 1)), Ok(0x702000));
    assert_eq!(m.to_snes(&access(MemoryDomain::CARTRAM, 0x9000, 1)), Ok(0x711000));
    assert_eq!(m.to_snes(&access(MemoryDomain::WRAM, 0x100, 1)), Ok(0x7E0100));
}

#[test]
fn hirom_mapping_values() {
    let m = RomMapping::HiROM;
    assert_eq!(m.to_snes(&access(MemoryDomain::CARTROM, 0x1234, 1)), Ok(0xC01234));
    assert_eq!(m.to_snes(&access(MemoryDomain::CARTRAM, 0x2345, 1)), Ok(0xA16345));
    assert_eq!(m.to_snes(&access(MemoryDomain::WRAM, 0x1FFFF, 1)), Ok(0x7FFFFF));
}

#[test]
fn exhirom_mapping_values() {
    let m = RomMapping::ExHiROM;
    assert_eq!(m.to_snes(&access(MemoryDomain::CARTROM, 0x3FFFFF, 1)), Ok(0xFFFFFF));
    assert_eq!(m.to_snes(&access(MemoryDomain::CARTROM, 0x400000, 1)), Ok(0x400000));
    assert_eq!(m.to_snes(&access(MemoryDomain::CARTRAM, 0x0, 1)), Ok(0xA06000));
}

#[test]
fn other_mappings_are_refused() {
    for m in [RomMapping::SDD1, RomMapping::SA1, RomMapping::SPC7110, RomMapping::Unknown] {
        assert_eq!(m.to_snes(&access(MemoryDomain::WRAM, 0, 1)), Err(Error::UnsupportedRomMapping));
    }
}

#[test]
fn lorom_rom_pieces_sit_in_upper_bank_halves() {
    // Every LoROM ROM offset lands at 0x8000..0xFFFF of a bank, and offsets
    // 32 KiB apart land in consecutive banks.
    for a in [0i64, 0x7FFF, 0x8000, 0x12345, 0x3FFFFF] {
        let s = RomMapping::LoROM.to_snes(&access(MemoryDomain::CARTROM, a, 1)).unwrap();
        assert!(s & 0xFFFF >= 0x8000);
        let next = RomMapping::LoROM.to_snes(&access(MemoryDomain::CARTROM, a + 0x8000, 1)).unwrap();
        if a + 0x8000 < 0x400000 {
            assert_eq!(next >> 16, (s >> 16) + 1);
        }
    }
}

#[test]
fn lorom_sram_stays_below_bank_half() {
    for a in [0i64, 0x7FFF, 0x8000, 0x1FFFF] {
        let s = RomMapping::LoROM.to_snes(&access(MemoryDomain::CARTRAM, a, 1)).unwrap();
        assert!(s & 0xFFFF < 0x8000);
        assert!(s >= 0x700000);
    }
}

#[test]
fn hirom_sram_windows() {
    for a in [0i64, 0x1FFF, 0x2000, 0x5432] {
        let s = RomMapping::HiROM.to_snes(&access(MemoryDomain::CARTRAM, a, 1)).unwrap();
        assert_eq!(s & 0xFFFF, 0x6000 + a % 0x2000);
        assert_eq!(s >> 16, 0xA0 + a / 0x2000);
    }
}

#[test]
fn header_reads_its_fields() {
    let b = header_bytes("TEST GAME", 0x31, 0x02, 0x0C, 0x03);
    let h = RomHeader::from_le_bytes(&b).unwrap();
    assert_eq!(h.game_title(), "TEST GAME            ");
    assert_eq!(h.rom_mapping(), RomMapping::HiROM);
    assert_eq!(h.rom_speed(), RomSpeed::Fast);
    assert_eq!(h.rom_size(), 4096);
    assert_eq!(h.sram_size(), 8);
    assert_eq!(h.chipset(), vec![RomChip::ROM, RomChip::RAM, RomChip::Battery]);
    assert_eq!(h.developer_id, 1);
    assert_eq!(h.country, 2);
    assert_eq!(h.version, 3);
    assert_eq!(h.checksum_comp, 0x1234);
    assert_eq!(h.checksum, 0xEDCB);
}

#[test]
fn header_with_bad_checksum_is_refused() {
    let mut b = header_bytes("X", 0x20, 0, 0, 0);
    b[31] ^= 1;
    assert_eq!(RomHeader::from_le_bytes(&b).unwrap_err(), Error::InvalidHeader);
}

#[test]
fn header_mapping_bits() {
    let cases = [
        (0x20u8, RomMapping::LoROM, RomSpeed::Slow),
        (0x30, RomMapping::LoROM, RomSpeed::Fast),
        (0x21, RomMapping::HiROM, RomSpeed::Slow),
        (0x22, RomMapping::SDD1, RomSpeed::Slow),
        (0x23, RomMapping::SA1, RomSpeed::Slow),
        (0x35, RomMapping::ExHiROM, RomSpeed::Fast),
        (0x24, RomMapping::Unknown, RomSpeed::Slow),
        (0x2A, RomMapping::SDD1, RomSpeed::Slow),
    ];
    for (byte, mapping, speed) in cases {
        let h = RomHeader::from_le_bytes(&header_bytes("M", byte, 0, 0, 0)).unwrap();
        assert_eq!(h.rom_mapping(), mapping);
        assert_eq!(h.rom_speed(), speed);
    }
}

#[test]
fn header_chipsets() {
    let cases: [(u8, Vec<RomChip>); 6] = [
        (0x00, vec![RomChip::ROM]),
        (0x10, vec![RomChip::ROM]),
        (0x35, vec![RomChip::CoProcessor, RomChip::ROM, RomChip::RAM, RomChip::Battery, RomChip::SA1]),
        (0x13, vec![RomChip::CoProcessor, RomChip::ROM, RomChip::GSU]),
        (0xC3, vec![RomChip::CoProcessor, RomChip::ROM, RomChip::Unknown]),
        (0x07, vec![RomChip::Unknown]),
    ];
    for (byte, chips) in cases {
        let h = RomHeader::from_le_bytes(&header_bytes("C", 0x20, byte, 0, 0)).unwrap();
        assert_eq!(h.chipset(), chips);
    }
    let h = RomHeader::from_le_bytes(&header_bytes("C", 0x20, 0xF6, 0, 0)).unwrap();
    assert_eq!(h.chipset(), vec![RomChip::CoProcessor, RomChip::Battery, RomChip::Custom]);
    let h = RomHeader::from_le_bytes(&header_bytes("C", 0x20, 0xE4, 0, 0)).unwrap();
    assert_eq!(h.chipset(), vec![RomChip::CoProcessor, RomChip::ROM, RomChip::RAM, RomChip::Other]);
}

#[test]
fn header_title_replaces_invalid_utf8() {
    let mut b = header_bytes("", 0x20, 0, 0, 0);
    b[0] = 0xFF;
    b[1] = b'A';
    let h = RomHeader::from_le_bytes(&b).unwrap();
    let t = h.game_title();
    assert!(t.starts_with("\u{FFFD}A"));
    assert_eq!(t.chars().count(), 21);
}

#[test]
fn default_header_is_lorom_slow() {
    let h = RomHeader::default();
    assert_eq!(h.rom_mapping(), RomMapping::LoROM);
    assert_eq!(h.rom_speed(), RomSpeed::Slow);
    assert_eq!(h.rom_size(), 1);
    assert_eq!(h.chipset(), vec![RomChip::ROM]);
    assert_eq!(h.checksum, 0);
}

#[test]
fn valid_title_bytes_come_back_unchanged() {
    let b = header_bytes("ZELDA\u{0}", 0x20, 0, 0, 0);
    let h = RomHeader::from_le_bytes(&b).unwrap();
    assert_eq!(h.game_title().as_bytes(), &b[..21]);
}
