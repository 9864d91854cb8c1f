use ruccs::error::Error;
use ruccs::protocol::{
    AddressInfo, Command, Flags, MemoryDomain, Opcode, Request, Space, WSRequest,
};

fn strings(v: &[&str]) -> Vec<String> {
    v.iter().map(|s| s.to_string()).collect()
}

fn ws(opcode: &str, space: &str, flags: Option<&[&str]>, operands: Option<&[&str]>) -> WSRequest {
    WSRequest {
        opcode: opcode.to_string(),
        space: space.to_string(),
        flags: flags.map(strings),
        operands: operands.map(strings),
    }
}

#[test]
fn create_sorts_addresses_into_domains() {
    let rom = AddressInfo::create("1234", "10").unwrap();
    assert_eq!(rom.domain, MemoryDomain::CARTROM);
    assert_eq!((rom.address, rom.orig_address, rom.size), (0x1234, 0x1234, 0x10));

    let sram = AddressInfo::create("E00010", "2").unwrap();
    assert_eq!(sram.domain, MemoryDomain::CARTRAM);
    assert_eq!((sram.address, sram.orig_address, sram.size), (0x10, 0xE00010, 2));

    let wram = AddressInfo::create("F50100", "ff").unwrap();
    assert_eq!(wram.domain, MemoryDomain::WRAM);
    assert_eq!((wram.address, wram.orig_address, wram.size), (0x100, 0xF50100, 0xFF));
}

#[test]
fn create_domain_edges() {
    assert_eq!(AddressInfo::create("DFFFFF", "1").unwrap().domain, MemoryDomain::CARTROM);
    assert_eq!(AddressInfo::create("E00000", "1").unwrap().domain, MemoryDomain::CARTRAM);
    assert_eq!(AddressInfo::create("F4FFFF", "1").unwrap().domain, MemoryDomain::CARTRAM);
    assert_eq!(AddressInfo::create("F50000", "1").unwrap().address, 0);
}

#[test]
fn create_reads_hex_like_from_str_radix() {
    assert_eq!(AddressInfo::create("+10", "1").unwrap().address, 16);
    assert_eq!(AddressInfo::create("-10", "1").unwrap().address, -16);
    assert_eq!(AddressInfo::create("aBc", "0").unwrap().address, 0xABC);
    assert_eq!(AddressInfo::create("7FFFFFFFFFFFFFFF", "0").unwrap().orig_address, i64::MAX);
    assert_eq!(AddressInfo::create("-8000000000000000", "0").unwrap().address, i64::MIN);
    assert_eq!(AddressInfo::create("", "1").unwrap_err(), Error::InvalidNumber);
    assert_eq!(AddressInfo::create("+", "1").unwrap_err(), Error::InvalidNumber);
    assert_eq!(AddressInfo::create("-", "1").unwrap_err(), Error::InvalidNumber);
    assert_eq!(AddressInfo::create("12g", "1").unwrap_err(), Error::InvalidNumber);
    assert_eq!(AddressInfo::create("8000000000000000", "1").unwrap_err(), Error::InvalidNumber);
    assert_eq!(AddressInfo::create("10", "zz").unwrap_err(), Error::InvalidNumber);
}

#[test]
fn from_operands_reads_pairs() {
    let ops = strings(&["F50000", "10", "E00000", "20"]);
    let v = AddressInfo::from_operands(&ops).unwrap();
    assert_eq!(v.len(), 2);
    assert_eq!(v[0].domain, MemoryDomain::WRAM);
    assert_eq!(v[0].size, 0x10);
    assert_eq!(v[1].domain, MemoryDomain::CARTRAM);
    assert_eq!(v[1].size, 0x20);
    let bad = strings(&["F50000", "10", "xyz", "20"]);
    assert_eq!(AddressInfo::from_operands(&bad).unwrap_err(), Error::InvalidNumber);
    let odd_but_invalid = strings(&["qq", "10", "5"]);
    assert_eq!(AddressInfo::from_operands(&odd_but_invalid).unwrap_err(), Error::InvalidNumber);
}

#[test]
fn flags_from_str() {
    assert_eq!(Flags::from_str("NONE").unwrap().bits(), 0);
    assert_eq!(Flags::from_str("SKIPRESET").unwrap().bits(), 1);
    assert_eq!(Flags::from_str("ONLYRESET").unwrap().bits(), 2);
    assert_eq!(Flags::from_str("CLRX").unwrap().bits(), 4);
    assert_eq!(Flags::from_str("SETX").unwrap().bits(), 8);
    assert_eq!(Flags::from_str("STREAM_BURST").unwrap().bits(), 16);
    assert_eq!(Flags::from_str("NORESP").unwrap().bits(), 64);
    assert_eq!(Flags::from_str("DATA64B").unwrap().bits(), 128);
    assert_eq!(Flags::from_str("setx").unwrap_err(), Error::InvalidFlag);
    assert!(Flags::from_str("NORESP").unwrap().contains(Flags::noresp()));
}

#[test]
fn space_from_str() {
    assert_eq!(Space::from_str("SNES").unwrap(), Space::SNES);
    assert_eq!(Space::from_str("FILE").unwrap(), Space::FILE);
    assert_eq!(Space::from_str("MSU").unwrap(), Space::MSU);
    assert_eq!(Space::from_str("CMD").unwrap(), Space::CMD);
    assert_eq!(Space::from_str("CONFIG").unwrap(), Space::CONFIG);
    assert_eq!(Space::from_str("snes").unwrap_err(), Error::InvalidSpace);
}

#[test]
fn wsrequest_commands() {
    let r = Request::from_wsrequest(&ws("DeviceList", "SNES", None, None)).unwrap();
    assert!(matches!(r.command, Command::DeviceList));
    assert_eq!(r.space, Space::SNES);
    assert!(r.flags.is_none());

    let r = Request::from_wsrequest(&ws("Attach", "SNES", None, Some(&["SD2SNES COM3"]))).unwrap();
    match r.command {
        Command::Attach(name) => assert_eq!(name, "SD2SNES COM3"),
        other => panic!("unexpected {:?}", other),
    }

    let r = Request::from_wsrequest(&ws("PutFile", "FILE", None, Some(&["/a.sfc", "1f"]))).unwrap();
    match r.command {
        Command::PutFile((name, size)) => {
            assert_eq!(name, "/a.sfc");
            assert_eq!(size, 0x1f);
        }
        other => panic!("unexpected {:?}", other),
    }

    let r = Request::from_wsrequest(&ws("GetAddress", "SNES", None, Some(&["F50000", "10"]))).unwrap();
    match &r.command {
        Command::GetAddress(a) => assert_eq!(a.len(), 1),
        other => panic!("unexpected {:?}", other),
    }
    assert_eq!(Opcode::from_request(&r), Opcode::GET);

    let r = Request::from_wsrequest(&ws("GetAddress", "SNES", None, Some(&["F50000", "10", "F50100", "10"]))).unwrap();
    assert_eq!(Opcode::from_request(&r), Opcode::VGET);

    let r = Request::from_wsrequest(&ws("Rename", "FILE", None, Some(&["a", "b"]))).unwrap();
    assert_eq!(Opcode::from_request(&r), Opcode::MV);
}

#[test]
fn wsrequest_errors() {
    assert_eq!(Request::from_wsrequest(&ws("Attach", "SNES", None, None)).unwrap_err(), Error::InvalidOpcode);
    assert_eq!(Request::from_wsrequest(&ws("Nope", "SNES", None, None)).unwrap_err(), Error::InvalidOpcode);
    assert_eq!(Request::from_wsrequest(&ws("Info", "NOWHERE", None, None)).unwrap_err(), Error::InvalidSpace);
    assert_eq!(
        Request::from_wsrequest(&ws("PutFile", "FILE", None, Some(&["a", "-1"]))).unwrap_err(),
        Error::InvalidNumber
    );
    // the opcode is checked before the space
    assert_eq!(Request::from_wsrequest(&ws("Nope", "NOWHERE", None, None)).unwrap_err(), Error::InvalidOpcode);
}

#[test]
fn wsrequest_flags_are_united() {
    let r = Request::from_wsrequest(&ws("Info", "SNES", Some(&["SETX", "NORESP"]), None)).unwrap();
    assert_eq!(r.flags.unwrap().bits(), 8 | 64);
    let r = Request::from_wsrequest(&ws("Info", "SNES", Some(&["SETX", "BOGUS"]), None)).unwrap();
    assert_eq!(r.flags.unwrap().bits(), 8);
    let r = Request::from_wsrequest(&ws("Info", "SNES", Some(&[]), None)).unwrap();
    assert!(r.flags.is_none());
}

#[test]
fn opcode_codes() {
    assert_eq!(Opcode::GET.code(), 0);
    assert_eq!(Opcode::INFO.code(), 11);
    assert_eq!(Opcode::NONE.code(), 16);
    assert_eq!(Space::SNES.code(), 1);
    assert_eq!(Space::CONFIG.code(), 4);
}

#[test]
fn error_messages() {
    assert_eq!(Error::InvalidFlag.message(), "Invalid flag");
    assert_eq!(Error::ResponseNotTerminated.message(), "Invalid response - Does not end with newline");
    assert_eq!(Error::RomReadUnsupported.message(), "ROM Reads are not supported on this device");
    assert_eq!(Error::InvalidReadSize.message(), "Invalid Read Size");
}

#[test]
fn lone_operands_are_detected() {
    assert!(Request::has_lone_operand(&ws("GetAddress", "SNES", None, Some(&["F50000", "10", "F50100"]))));
    assert!(!Request::has_lone_operand(&ws("GetAddress", "SNES", None, Some(&["F50000", "10"]))));
    assert!(!Request::has_lone_operand(&ws("GetAddress", "SNES", None, Some(&["zz", "10", "F50100"]))));
    assert!(!Request::has_lone_operand(&ws("GetAddress", "SNES", None, Some(&["F50000"]))));
    assert!(!Request::has_lone_operand(&ws("Boot", "SNES", None, Some(&["a", "b", "c"]))));
}

#[test]
fn operands_pairwise() {
    let ops = strings(&["F50000", "10", "0", "2", "E00000", "4"]);
    let v = AddressInfo::from_operands(&ops).unwrap();
    assert_eq!(v.len(), 3);
    for i in 0..3 {
        assert_eq!(v[i], AddressInfo::create(&ops[2 * i], &ops[2 * i + 1]).unwrap());
    }
    assert_eq!(AddressInfo::from_operands(&[]).unwrap(), vec![]);
}
