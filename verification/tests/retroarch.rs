use ruccs::devices::retroarch::{
    command_chunks, parse_hex_payload, read_command, rom_check, write_command, CoreTarget, RaInfo, Retroarch,
    RetroarchManager,
};
use ruccs::error::Error;
use ruccs::protocol::{AddressInfo, MemoryDomain};
use ruccs::util::snes::{RomHeader, RomMapping};
use uuid::Uuid;

fn access(domain: MemoryDomain, address: i64, size: i64) -> AddressInfo {
    AddressInfo { domain, address, orig_address: address, size }
}

fn header_bytes(title: &str, mapping: u8) -> Vec<u8> {
    let mut b = vec![b' '; 21];
    for (i, c) in title.bytes().enumerate().take(21) {
        b[i] = c;
    }
    b.extend_from_slice(&[mapping, 0x02, 0x0A, 0x03, 0x01, 0x01, 0x00]);
    b.extend_from_slice(&0x55AAu16.to_le_bytes());
    b.extend_from_slice(&(0x55AAu16 ^ 0xFFFF).to_le_bytes());
    b
}

fn device(mapping: u8, rom_access: bool) -> Retroarch<()> {
    let header = RomHeader::from_le_bytes(&header_bytes("GAME", mapping)).unwrap();
    Retroarch::new(Uuid::nil(), (), "127.0.0.1:55355".to_string(), "1.15.0", rom_access, "GAME", header)
}

#[test]
fn device_name() {
    let ra = device(0x20, true);
    assert_eq!(ra.name, "RetroArch 1.15.0 (127.0.0.1:55355)");
    assert_eq!(ra.addr, "127.0.0.1:55355");
}

#[test]
fn info_strings_with_and_without_rom_access() {
    assert_eq!(
        device(0x20, true).info_strings(),
        vec!["1.15.0", "0", "GAME", "NO_CONTROL_CMD | NO_FILE_CMD", "RetroArch"]
    );
    assert_eq!(
        device(0x20, false).info_strings(),
        vec!["1.15.0", "0", "GAME", "NO_CONTROL_CMD | NO_FILE_CMD | NO_ROM_READ | NO_ROM_WRITE", "RetroArch"]
    );
}

#[test]
fn ram_accesses_pass_through() {
    let ra = device(0x20, true);
    let v = vec![access(MemoryDomain::WRAM, 0x10, 0x20), access(MemoryDomain::CARTRAM, 0x5, 3)];
    assert_eq!(ra.map_addresses(&v).unwrap(), v);
}

#[test]
fn lorom_access_is_cut_at_bank_end() {
    let ra = device(0x20, true);
    let v = vec![access(MemoryDomain::CARTROM, 0x7FF0, 0x20)];
    let m = ra.map_addresses(&v).unwrap();
    assert_eq!(
        m,
        vec![
            AddressInfo { domain: MemoryDomain::CARTROM, address: 0x80FFF0, orig_address: 0, size: 0x10 },
            AddressInfo { domain: MemoryDomain::CARTROM, address: 0x818000, orig_address: 0, size: 0x10 },
        ]
    );
}

#[test]
fn access_ending_at_bank_end_leaves_an_empty_piece() {
    let ra = device(0x20, true);
    let m = ra.map_addresses(&[access(MemoryDomain::CARTROM, 0x7FF0, 0x10)]).unwrap();
    assert_eq!(m.len(), 2);
    assert_eq!((m[0].address, m[0].size), (0x80FFF0, 0x10));
    assert_eq!((m[1].address, m[1].size), (0x818000, 0));
}

#[test]
fn access_inside_a_bank_stays_whole() {
    let ra = device(0x21, true);
    let m = ra.map_addresses(&[access(MemoryDomain::CARTROM, 0x1000, 0x100)]).unwrap();
    assert_eq!(m, vec![AddressInfo { domain: MemoryDomain::CARTROM, address: 0xC01000, orig_address: 0, size: 0x100 }]);
}

#[test]
fn pieces_add_up_and_stay_in_their_banks() {
    let ra = device(0x20, true);
    let m = ra.map_addresses(&[access(MemoryDomain::CARTROM, 0x7000, 0x12345)]).unwrap();
    let total: i64 = m.iter().map(|a| a.size).sum();
    assert_eq!(total, 0x12345);
    for p in &m {
        assert_eq!(p.address >> 16, (p.address + p.size - 1) >> 16);
    }
}

#[test]
fn unsupported_mapping_is_refused() {
    let ra = device(0x23, true);
    assert_eq!(
        ra.map_addresses(&[access(MemoryDomain::WRAM, 0, 1), access(MemoryDomain::CARTROM, 0, 1)]).unwrap_err(),
        Error::UnsupportedRomMapping
    );
    assert!(ra.map_addresses(&[access(MemoryDomain::WRAM, 0, 1)]).is_ok());
}

#[test]
fn core_targets() {
    let ra = device(0x20, false);
    assert_eq!(ra.core_target(&access(MemoryDomain::WRAM, 0x10, 1), false), Ok((0x10, CoreTarget::Ram)));
    assert_eq!(ra.core_target(&access(MemoryDomain::CARTRAM, 0x10, 1), false), Ok((0x20010, CoreTarget::Ram)));
    assert_eq!(ra.core_target(&access(MemoryDomain::CARTROM, 0x10, 1), false), Err(Error::RomReadUnsupported));
    assert_eq!(ra.core_target(&access(MemoryDomain::CARTROM, 0x10, 1), true), Err(Error::RomWriteUnsupported));
    let ra = device(0x20, true);
    assert_eq!(ra.core_target(&access(MemoryDomain::CARTROM, 0x808000, 1), true), Ok((0x808000, CoreTarget::Memory)));
}

#[test]
fn read_and_write_commands() {
    assert_eq!(read_command(CoreTarget::Ram, 0x10, 512), b"READ_CORE_RAM 10 512\n".to_vec());
    assert_eq!(read_command(CoreTarget::Memory, 0x80FFC0, 32), b"READ_CORE_MEMORY 80FFC0 32\n".to_vec());
    assert_eq!(write_command(CoreTarget::Ram, 0x20010, &[0x01, 0xAB]), b"WRITE_CORE_RAM 20010 01 AB\n".to_vec());
    assert_eq!(write_command(CoreTarget::Memory, 0xC00000, &[0x00]), b"WRITE_CORE_MEMORY C00000 00\n".to_vec());
    assert_eq!(read_command(CoreTarget::Ram, -1, 1), b"READ_CORE_RAM FFFFFFFFFFFFFFFF 1\n".to_vec());
}

#[test]
fn chunks_of_a_transfer() {
    assert_eq!(command_chunks(0x100, 1100), vec![(0x100, 512), (0x300, 512), (0x500, 76)]);
    assert_eq!(command_chunks(0x100, 512), vec![(0x100, 512)]);
    assert_eq!(command_chunks(0x100, 0), vec![]);
    let c = command_chunks(0, 5000);
    assert_eq!(c.iter().map(|x| x.1).sum::<i64>(), 5000);
    for w in c.windows(2) {
        assert_eq!(w[1].0, w[0].0 + w[0].1);
    }
}

#[test]
fn hex_payload_of_a_reply() {
    let reply = b"READ_CORE_RAM 10 01 ff 0A\n";
    assert_eq!(parse_hex_payload(reply, 17), Some(vec![0x01, 0xFF, 0x0A]));
    assert_eq!(parse_hex_payload(b"READ_CORE_RAM 10 01 zz\n", 17), None);
    assert_eq!(parse_hex_payload(b"READ_CORE_RAM 10 01  02\n", 17), None);
    assert_eq!(parse_hex_payload(b"READ_CORE_RAM 10 100\n", 17), None);
}

fn rom_reply(bytes: &[u8]) -> Vec<u8> {
    let hex: Vec<String> = bytes.iter().map(|b| format!("{:02X}", b)).collect();
    format!("READ_CORE_MEMORY FFC0 {}\n", hex.join(" ")).into_bytes()
}

#[test]
fn rom_check_reads_the_header() {
    let c = rom_check(&rom_reply(&header_bytes("SUPER GAME", 0x21))).unwrap();
    assert!(c.rom_access);
    assert_eq!(c.rom_name, "SUPER GAME           ");
    assert_eq!(c.rom_header.rom_mapping(), RomMapping::HiROM);
}

#[test]
fn rom_check_without_rom_access() {
    let c = rom_check(b"READ_CORE_MEMORY FFC0 -1\n").unwrap();
    assert!(!c.rom_access);
    assert_eq!(c.rom_name, "");
    let mut bad = header_bytes("X", 0x20);
    bad[30] ^= 0xFF;
    let c = rom_check(&rom_reply(&bad)).unwrap();
    assert!(!c.rom_access);
    assert_eq!(c.rom_header.rom_mapping(), RomMapping::LoROM);
}

#[test]
fn rom_check_on_short_or_broken_replies() {
    assert!(rom_check(b"READ_CORE_MEMORY").is_none());
    assert!(rom_check(&rom_reply(&[1, 2, 3])).is_none());
    assert!(rom_check(b"READ_CORE_MEMORY FFC0 zz\n").is_none());
}

#[test]
fn manager_status_checks() {
    assert!(!RetroarchManager::has_content(b"GET_STATUS CONTENTLESS\n"));
    assert!(RetroarchManager::has_content(b"GET_STATUS PLAYING super_nes,Game,crc32=1234abcd\n"));
    assert!(!RetroarchManager::ram_readable(b"READ_CORE_RAM 0 -1\n"));
    assert!(RetroarchManager::ram_readable(b"READ_CORE_RAM 0 00 01 02\n"));
}

#[test]
fn manager_reports_an_instance() {
    let check = rom_check(&rom_reply(&header_bytes("ZELDA", 0x20))).unwrap();
    match RetroarchManager::added(b"1.15.0\n", "127.0.0.1:55355", check) {
        RaInfo::RaAdded { name, url, version, rom_access, rom_name, rom_header } => {
            assert_eq!(name, "RetroArch 1.15.0 (127.0.0.1:55355)");
            assert_eq!(url, "127.0.0.1:55355");
            assert_eq!(version, "1.15.0");
            assert!(rom_access);
            assert!(rom_name.starts_with("ZELDA"));
            assert_eq!(rom_header.rom_mapping(), RomMapping::LoROM);
        },
        other => panic!("unexpected {:?}", other),
    }
}

#[test]
fn written_hex_reads_back() {
    for data in [vec![0u8], vec![0x01, 0xAB, 0xFF, 0x10], (0u8..=255).collect::<Vec<u8>>()] {
        let cmd = write_command(CoreTarget::Memory, 0xC00000, &data);
        let head = ruccs::devices::retroarch::core_command_head(CoreTarget::Memory, true, 0xC00000).len() + 1;
        assert_eq!(parse_hex_payload(&cmd, head), Some(data));
    }
}

#[test]
fn large_rom_offsets_map_without_a_bound() {
    let lorom = device(0x20, true);
    let far = access(MemoryDomain::CARTROM, 0x3000_0000_0000_0000, 0x10);
    assert!(lorom.accesses_mappable(&[far]));
    assert_eq!(lorom.map_addresses(&[far]).unwrap().iter().map(|a| a.size).sum::<i64>(), 0x10);
    let hirom = device(0x21, true);
    assert!(!hirom.accesses_mappable(&[access(MemoryDomain::CARTROM, i64::MAX - 5, 1)]));
    assert!(hirom.accesses_mappable(&[access(MemoryDomain::CARTROM, 0x1000, 0x100)]));
    assert!(!lorom.accesses_mappable(&[access(MemoryDomain::CARTROM, 0x7FF0, -0x20000)]));
    assert!(lorom.accesses_mappable(&[access(MemoryDomain::WRAM, i64::MAX, i64::MAX)]));
}
