use ruccs::devices::sd2snes::{CommandArg, PortInfo, SD2Snes, SD2SnesManager, Sd2Action, UsbPort};
use ruccs::protocol::{AddressInfo, Flags, MemoryDomain, Opcode, Request, Space, WSRequest};
use uuid::Uuid;

fn dev() -> SD2Snes<()> {
    SD2Snes::new(Uuid::nil(), "/dev/ttyACM0", ())
}

fn access(domain: MemoryDomain, address: i64, orig: i64, size: i64) -> AddressInfo {
    AddressInfo { domain, address, orig_address: orig, size }
}

fn request(opcode: &str, space: &str, flags: Option<&[&str]>, operands: &[&str]) -> Request {
    let w = WSRequest {
        opcode: opcode.to_string(),
        space: space.to_string(),
        flags: flags.map(|f| f.iter().map(|s| s.to_string()).collect()),
        operands: Some(operands.iter().map(|s| s.to_string()).collect()),
    };
    Request::from_wsrequest(&w).unwrap()
}

#[test]
fn device_name_and_block_size() {
    let d = dev();
    assert_eq!(d.name, "SD2SNES /dev/ttyACM0");
    assert_eq!(d.port_name, "/dev/ttyACM0");
    assert_eq!(d.block_size, 512);
}

#[test]
fn pad_sizes() {
    let d = dev();
    assert_eq!(d.pad_size(0, 512), 0);
    assert_eq!(d.pad_size(1, 512), 512);
    assert_eq!(d.pad_size(512, 512), 512);
    assert_eq!(d.pad_size(513, 512), 1024);
    assert_eq!(d.pad_size(65, 64), 128);
    assert_eq!(d.pad_size(5, 0), 0);
}

#[test]
fn padding_and_truncation() {
    let d = dev();
    let p = d.pad_or_truncate_size(256, &[1, 2, 3]);
    assert_eq!(p.len(), 256);
    assert_eq!(&p[..3], &[1, 2, 3]);
    assert!(p[3..].iter().all(|b| *b == 0));
    assert_eq!(d.pad_or_truncate(&[7u8; 512]), vec![7u8; 512]);
    assert_eq!(d.pad_or_truncate(&[7u8; 513]).len(), 1024);
    assert_eq!(d.pad_or_truncate_size(0, &[1, 2]), Vec::<u8>::new());
}

#[test]
fn info_command_bytes() {
    let b = dev().command_buffer(Opcode::INFO, Space::SNES, Flags::none(), CommandArg::Nothing);
    assert_eq!(b.len(), 512);
    assert_eq!(&b[..7], &[b'U', b'S', b'B', b'A', 11, 1, 0]);
    assert!(b[7..].iter().all(|x| *x == 0));
}

#[test]
fn get_command_carries_size_and_address() {
    let l = vec![access(MemoryDomain::CARTRAM, 0x10, 0xE00010, 0x200)];
    let b = dev().command_buffer(Opcode::GET, Space::SNES, Flags::noresp(), CommandArg::AddressList(&l));
    assert_eq!(b.len(), 512);
    assert_eq!(&b[..7], &[b'U', b'S', b'B', b'A', 0, 1, 64]);
    assert_eq!(&b[252..256], &[0x00, 0x00, 0x02, 0x00]);
    assert_eq!(&b[256..260], &[0x00, 0xE0, 0x00, 0x10]);
}

#[test]
fn vget_command_lists_accesses() {
    let l = vec![
        access(MemoryDomain::WRAM, 0x10, 0xF50010, 0x20),
        access(MemoryDomain::CARTROM, 0x1234, 0x001234, 0x140),
    ];
    let flags = Flags::from_bits(64 | 128);
    let b = dev().command_buffer(Opcode::VGET, Space::SNES, flags, CommandArg::AddressList(&l));
    assert_eq!(b.len(), 64);
    assert_eq!(&b[..7], &[b'U', b'S', b'B', b'A', 2, 1, 192]);
    assert_eq!(&b[32..36], &[0x20, 0xF5, 0x00, 0x10]);
    assert_eq!(&b[36..40], &[0x40, 0x00, 0x12, 0x34]);
    assert!(b[40..].iter().all(|x| *x == 0));
}

#[test]
fn file_commands() {
    let d = dev();
    let b = d.command_buffer(Opcode::LS, Space::FILE, Flags::noresp(), CommandArg::Filename("/".to_string()));
    assert_eq!(b.len(), 512);
    assert_eq!(&b[..7], &[b'U', b'S', b'B', b'A', 4, 0, 64]);
    assert_eq!(b[256], b'/');
    assert_eq!(b[257], 0);

    let b = d.command_buffer(
        Opcode::MV,
        Space::FILE,
        Flags::none(),
        CommandArg::Filenames(("a.sfc".to_string(), "b.sfc".to_string())),
    );
    assert_eq!(b.len(), 512);
    assert_eq!(&b[8..13], b"b.sfc");
    assert_eq!(&b[256..261], b"a.sfc");

    let b = d.command_buffer(
        Opcode::PUT,
        Space::FILE,
        Flags::noresp(),
        CommandArg::FilenameAndSize(("x.sfc".to_string(), 0x123456)),
    );
    assert_eq!(&b[252..256], &[0x00, 0x12, 0x34, 0x56]);
    assert_eq!(&b[256..261], b"x.sfc");
}

#[test]
fn mismatched_arguments_send_the_bare_command() {
    let b = dev().command_buffer(Opcode::BOOT, Space::SNES, Flags::none(), CommandArg::Filename("/x".to_string()));
    assert_eq!(b.len(), 512);
    assert!(b[7..].iter().all(|x| *x == 0));
}

fn info_reply() -> Vec<u8> {
    let mut d = vec![0u8; 512];
    d[6] = 0x09;
    let fields = b"sd2snes Mk.III\0      1.11.0\0/sd2snes/m3nu.bin\0";
    d[16..16 + fields.len()].copy_from_slice(fields);
    d[256..260].copy_from_slice(&[0x00, 0x00, 0x01, 0x0B]);
    d
}

#[test]
fn information_fields() {
    let info = SD2Snes::<()>::parse_information(&info_reply()).unwrap();
    assert_eq!(info, vec!["1.11.0", "10B", "sd2snes Mk.III", "FEAT_DSPX|FEAT_MSU1", "/sd2snes/m3nu.bin"]);
}

#[test]
fn information_without_fields() {
    assert!(SD2Snes::<()>::parse_information(&vec![0u8; 512]).is_none());
    let mut d = info_reply();
    d[21] = 0xE9;
    assert!(SD2Snes::<()>::parse_information(&d).is_some());
}

#[test]
fn list_blocks() {
    let mut d = vec![1u8];
    d.extend_from_slice(b"a.sfc\0");
    d.push(0);
    d.extend_from_slice(b"dir\0");
    d.push(0xFF);
    d.resize(512, 0);
    let (names, last) = SD2Snes::<()>::parse_list_block(&d, 0).unwrap();
    assert_eq!(names, vec!["1", "a.sfc", "0", "dir"]);
    assert_eq!(last, 0xFF);

    assert!(SD2Snes::<()>::parse_list_block(&[1, b'a', b'b'], 0).is_none());
    assert_eq!(SD2Snes::<()>::parse_list_block(&[], 7).unwrap(), (vec![], 7));
    assert_eq!(SD2Snes::<()>::parse_list_block(&[0, b'x', 0], 9).unwrap(), (vec!["0".to_string(), "x".to_string()], 0));
}

#[test]
fn transfer_sizes() {
    let d = dev();
    let one = vec![access(MemoryDomain::WRAM, 0, 0xF50000, 0x10)];
    let two = vec![access(MemoryDomain::WRAM, 0, 0xF50000, 0x10), access(MemoryDomain::WRAM, 0, 0xF50100, 0x41)];
    assert_eq!(d.get_address_sizes(Opcode::GET, &one), (16, 512));
    assert_eq!(d.get_address_sizes(Opcode::VGET, &two), (0x51, 64 + 128));
    assert_eq!(d.put_address_sizes(Opcode::PUT, &vec![access(MemoryDomain::WRAM, 0, 0, 0x100)], 512), (256, 512));
    let w = vec![access(MemoryDomain::WRAM, 0, 0, 0x10), access(MemoryDomain::WRAM, 0, 0, 0x20)];
    assert_eq!(d.put_address_sizes(Opcode::VPUT, &w, 64), (0x30, 64));
}

#[test]
fn file_size_and_forwarding() {
    let mut r = vec![0u8; 512];
    r[252..256].copy_from_slice(&[0, 1, 0, 0]);
    assert_eq!(SD2Snes::<()>::file_size(&r), 65536);
    assert_eq!(SD2Snes::<()>::forward_len(0, 100, 50), 50);
    assert_eq!(SD2Snes::<()>::forward_len(10, 10, 50), 10);
    assert_eq!(SD2Snes::<()>::forward_len(60, 10, 50), 0);
    assert_eq!(SD2Snes::<()>::forward_len(50, 10, 50), 0);
}

#[test]
fn flags_of_transfers() {
    assert_eq!(SD2Snes::<()>::transfer_flags(None, Opcode::GET).bits(), 64);
    assert_eq!(SD2Snes::<()>::transfer_flags(Some(Flags::from_bits(1)), Opcode::VGET).bits(), 1 | 64 | 128);
    assert_eq!(SD2Snes::<()>::block_size_for(Opcode::VPUT), 64);
    assert_eq!(SD2Snes::<()>::block_size_for(Opcode::PUT), 512);
}

#[test]
fn plans_for_requests() {
    let d = dev();
    assert_eq!(d.plan(&request("Info", "SNES", None, &[])), Sd2Action::Info);
    assert_eq!(
        d.plan(&request("GetAddress", "SNES", None, &["F50000", "10"])),
        Sd2Action::Read { opcode: Opcode::GET, space: Space::SNES, flags: Flags::from_bits(64), data_size: 16, padded_size: 512 }
    );
    assert_eq!(
        d.plan(&request("GetAddress", "SNES", None, &["F50000", "10", "F50100", "41"])),
        Sd2Action::Read { opcode: Opcode::VGET, space: Space::SNES, flags: Flags::from_bits(192), data_size: 0x51, padded_size: 192 }
    );
    assert_eq!(
        d.plan(&request("PutAddress", "SNES", Some(&["SKIPRESET"]), &["F50000", "100"])),
        Sd2Action::Write {
            opcode: Opcode::PUT,
            space: Space::SNES,
            flags: Flags::from_bits(65),
            data_size: 256,
            padded_size: 512,
            block_size: 512,
        }
    );
    assert_eq!(
        d.plan(&request("List", "FILE", None, &["/"])),
        Sd2Action::List { opcode: Opcode::LS, flags: Flags::from_bits(64) }
    );
    assert_eq!(
        d.plan(&request("Boot", "SNES", None, &["/game.sfc"])),
        Sd2Action::Command { opcode: Opcode::BOOT, space: Space::FILE, flags: Flags::none() }
    );
    assert_eq!(
        d.plan(&request("Reset", "SNES", None, &[])),
        Sd2Action::Command { opcode: Opcode::RESET, space: Space::SNES, flags: Flags::none() }
    );
    assert_eq!(
        d.plan(&request("GetFile", "FILE", None, &["/a.sfc"])),
        Sd2Action::FileRead { opcode: Opcode::GET, flags: Flags::none(), block_size: 512 }
    );
    assert_eq!(
        d.plan(&request("PutFile", "FILE", None, &["/a.sfc", "201"])),
        Sd2Action::FileWrite { opcode: Opcode::PUT, flags: Flags::from_bits(64), data_size: 0x201, padded_size: 1024, block_size: 512 }
    );
    assert_eq!(d.plan(&request("DeviceList", "SNES", None, &[])), Sd2Action::Empty);
}

#[test]
fn cartridge_ports() {
    assert!(SD2SnesManager::is_cartridge_port(4617, 23074, "/dev/ttyACM0", false));
    assert!(!SD2SnesManager::is_cartridge_port(4617, 23074, "/dev/tty.usbmodem1", true));
    assert!(SD2SnesManager::is_cartridge_port(4617, 23074, "/dev/cu.usbmodem1", true));
    assert!(!SD2SnesManager::is_cartridge_port(4617, 1, "COM3", false));
    assert!(!SD2SnesManager::is_cartridge_port(1, 23074, "COM3", false));
}

#[test]
fn port_changes_removed_then_added() {
    let port = |name: &str, serial: &str| UsbPort {
        name: name.to_string(),
        vid: 4617,
        pid: 23074,
        serial_number: Some(serial.to_string()),
        manufacturer: None,
        product: Some("sd2snes".to_string()),
    };
    let names = |ch: Vec<PortInfo>| -> Vec<(bool, String)> {
        ch.into_iter()
            .map(|p| match p {
                PortInfo::PortAdded(n) => (true, n),
                PortInfo::PortRemoved(n) => (false, n),
            })
            .collect()
    };
    let cur = vec![port("a", "1"), port("b", "2")];
    let avail = vec![port("b", "2"), port("c", "3"), port("d", "4")];
    assert_eq!(
        names(SD2SnesManager::port_changes(&cur, &avail)),
        vec![(false, "a".to_string()), (true, "c".to_string()), (true, "d".to_string())]
    );
    assert!(SD2SnesManager::port_changes(&avail, &avail).is_empty());
    let swapped = vec![port("a", "9"), port("b", "2")];
    assert_eq!(names(SD2SnesManager::port_changes(&cur, &swapped)), vec![(false, "a".to_string()), (true, "a".to_string())]);
}

#[test]
fn put_file_size_reads_back() {
    let d = dev();
    for n in [0usize, 1, 0x1234, 0xFFFF_FFFF] {
        let b = d.command_buffer(Opcode::PUT, Space::FILE, Flags::noresp(), CommandArg::FilenameAndSize(("/x.sfc".to_string(), n)));
        assert_eq!(SD2Snes::<()>::file_size(&b), n);
    }
}

#[test]
fn forwarding_keeps_exactly_the_data() {
    for cut in [vec![512usize], vec![100, 300, 112], vec![1; 512], vec![50, 50, 412]] {
        let data_size = 300;
        let mut read_len = 0;
        let mut forwarded = 0;
        for bytes in cut {
            forwarded += SD2Snes::<()>::forward_len(read_len, bytes, data_size);
            read_len += bytes;
        }
        assert_eq!(forwarded, data_size);
    }
}

#[test]
fn command_arguments() {
    type S = SD2Snes<()>;
    let r = request("Rename", "FILE", None, &["/a", "/b"]);
    assert!(matches!(S::command_arg(&r.command), CommandArg::Filenames((a, b)) if a == "/a" && b == "/b"));
    let r = request("PutFile", "FILE", None, &["/a", "10"]);
    assert!(matches!(S::command_arg(&r.command), CommandArg::FilenameAndSize((a, 16)) if a == "/a"));
    let r = request("List", "FILE", None, &["/"]);
    assert!(matches!(S::command_arg(&r.command), CommandArg::Filename(a) if a == "/"));
    let r = request("GetAddress", "SNES", None, &["F50000", "10"]);
    assert!(matches!(S::command_arg(&r.command), CommandArg::AddressList(l) if l.len() == 1));
    let r = request("Reset", "SNES", None, &[]);
    assert!(matches!(S::command_arg(&r.command), CommandArg::Nothing));
}

#[test]
fn fit_checks() {
    assert!(SD2Snes::<()>::request_fits(&request("GetAddress", "SNES", None, &["F50000", "10"])));
    assert!(!SD2Snes::<()>::request_fits(&request("GetAddress", "SNES", None, &["F50000", "-1"])));
    assert!(SD2Snes::<()>::request_fits(&request("PutFile", "FILE", None, &["/a", "10"])));
    assert!(!SD2Snes::<()>::request_fits(&request("PutFile", "FILE", None, &["/a", "FFFFFFFFFFFFFFFF"])));
    let d = dev();
    let l = vec![access(MemoryDomain::WRAM, 0, 0xF50000, 1); 9];
    assert!(!d.command_fits_check(Opcode::VGET, Space::SNES, &CommandArg::AddressList(&l)));
    assert!(d.command_fits_check(Opcode::VGET, Space::SNES, &CommandArg::AddressList(&l[..8].to_vec())));
    let long = "x".repeat(300);
    assert!(!d.command_fits_check(Opcode::MV, Space::FILE, &CommandArg::Filenames(("a".to_string(), long.clone()))));
    assert!(d.command_fits_check(Opcode::MV, Space::FILE, &CommandArg::Filenames((long, "a".to_string()))));
    assert!(ruccs::devices::sd2snes::pad_exact_check(513, 512));
}

#[test]
fn forwarded_bytes_are_the_data_prefix() {
    let reply: Vec<u8> = (0..512u32).map(|i| (i % 251) as u8).collect();
    for cuts in [vec![512usize], vec![100, 300, 112], vec![299, 1, 1, 211]] {
        let mut read_len = 0;
        let mut out = Vec::new();
        for n in cuts {
            out.extend(SD2Snes::<()>::forward_part(read_len, &reply[read_len..read_len + n], 300));
            read_len += n;
        }
        assert_eq!(out, reply[..300].to_vec());
    }
}
