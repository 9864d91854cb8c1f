use ruccs::devices::emunwa::{record_get, CommandResponse, EmuInfo, EmuNwa, EmuNwaManager, ReplyKind};
use ruccs::error::Error;
use ruccs::protocol::{AddressInfo, Command, MemoryDomain};
use uuid::Uuid;

type Nwa = EmuNwa<()>;

fn rec(pairs: &[(&str, &str)]) -> Vec<(String, String)> {
    pairs.iter().map(|(k, v)| (k.to_string(), v.to_string())).collect()
}

#[test]
fn new_device() {
    let e = EmuNwa::new(Uuid::nil(), (), "bsnes (127.0.0.1:1)");
    assert_eq!(e.name, "bsnes (127.0.0.1:1)");
    assert_eq!(e.id, Uuid::nil());
}

#[test]
fn domain_names() {
    assert_eq!(Nwa::domain_to_str(&MemoryDomain::CARTROM), "CARTROM");
    assert_eq!(Nwa::domain_to_str(&MemoryDomain::CARTRAM), "SRAM");
    assert_eq!(Nwa::domain_to_str(&MemoryDomain::WRAM), "WRAM");
}

#[test]
fn ascii_reply_one_record() {
    let r = Nwa::parse_ascii_response("name:bsnes\nversion:115\nnwa_version:1.0\n\n").unwrap();
    assert_eq!(r, vec![rec(&[("name", "bsnes"), ("version", "115"), ("nwa_version", "1.0")])]);
}

#[test]
fn ascii_reply_repeated_key_starts_a_record() {
    let r = Nwa::parse_ascii_response("a:1\nb:2\na:3\n\n").unwrap();
    assert_eq!(r, vec![rec(&[("a", "1"), ("b", "2")]), rec(&[("a", "3")])]);
}

#[test]
fn ascii_reply_value_keeps_later_colons_and_blank_lines_are_skipped() {
    let r = Nwa::parse_ascii_response("id:127.0.0.1:1\n  \nkey: spaced \n").unwrap();
    assert_eq!(r, vec![rec(&[("id", "127.0.0.1:1"), ("key", " spaced ")])]);
    assert_eq!(Nwa::parse_ascii_response("\n").unwrap(), Vec::<Vec<(String, String)>>::new());
}

#[test]
fn ascii_reply_errors() {
    assert_eq!(Nwa::parse_ascii_response("a:1").unwrap_err(), Error::ResponseNotTerminated);
    assert_eq!(Nwa::parse_ascii_response("").unwrap_err(), Error::ResponseNotTerminated);
    assert_eq!(Nwa::parse_ascii_response("a:1\ngarbage\n").unwrap_err(), Error::ResponseLineWithoutKey);
}

#[test]
fn ascii_reply_records_have_distinct_keys() {
    let r = Nwa::parse_ascii_response("a:1\nb:2\nb:3\na:4\nc:5\n\n").unwrap();
    for record in &r {
        assert!(!record.is_empty());
        for i in 0..record.len() {
            for j in i + 1..record.len() {
                assert_ne!(record[i].0, record[j].0);
            }
        }
    }
    assert_eq!(r.len(), 2);
}

#[test]
fn record_lookup() {
    let r = rec(&[("name", "bsnes"), ("id", "1")]);
    assert_eq!(record_get(&r, "id"), Some("1".to_string()));
    assert_eq!(record_get(&r, "file"), None);
}

#[test]
fn command_texts() {
    assert_eq!(Nwa::command_text("CORE_READ", Some(&["WRAM", "0", "16"])), "CORE_READ WRAM;0;16\n");
    assert_eq!(Nwa::command_text("EMULATOR_INFO", None), "EMULATOR_INFO\n");
    assert_eq!(Nwa::command_text("LOAD_GAME", Some(&["/a.sfc"])), "LOAD_GAME /a.sfc\n");
    assert_eq!(Nwa::command_text("X", Some(&[])), "X \n");
}

#[test]
fn reply_completion() {
    assert!(Nwa::reply_complete("\n"));
    assert!(Nwa::reply_complete("a:1\n\n"));
    assert!(!Nwa::reply_complete("a:1\n"));
    assert!(!Nwa::reply_complete(""));
}

#[test]
fn reply_kinds() {
    assert_eq!(Nwa::reply_kind(0), Ok(ReplyKind::Binary));
    assert_eq!(Nwa::reply_kind(10), Ok(ReplyKind::Ascii));
    assert_eq!(Nwa::reply_kind(b'x'), Err(Error::InvalidResponseStart));
}

#[test]
fn read_requests_grouped_by_domain() {
    let l = vec![
        AddressInfo { domain: MemoryDomain::WRAM, address: 0x10, orig_address: 0xF50010, size: 2 },
        AddressInfo { domain: MemoryDomain::WRAM, address: 0x20, orig_address: 0xF50020, size: 4 },
        AddressInfo { domain: MemoryDomain::CARTROM, address: 0, orig_address: 0, size: 8 },
        AddressInfo { domain: MemoryDomain::WRAM, address: 1, orig_address: 0xF50001, size: 1 },
    ];
    let g = Nwa::group_read_requests(&l);
    assert_eq!(
        g,
        vec![
            (MemoryDomain::WRAM, vec!["WRAM", "16", "2", "32", "4"].into_iter().map(String::from).collect::<Vec<_>>()),
            (MemoryDomain::CARTROM, vec!["CARTROM".to_string(), "0".to_string(), "8".to_string()]),
            (MemoryDomain::WRAM, vec!["WRAM".to_string(), "1".to_string(), "1".to_string()]),
        ]
    );
    assert!(Nwa::group_read_requests(&vec![]).is_empty());
}

#[test]
fn info_strings_from_records() {
    let emu = rec(&[("name", "bsnes"), ("version", "115"), ("nwa_version", "1.0"), ("id", "1")]);
    let game = rec(&[("name", "Zelda"), ("file", "/roms/zelda.sfc")]);
    assert_eq!(
        Nwa::info_strings(&emu, &game).unwrap(),
        vec!["bsnes v115 (EmuNWA v1.0)", "0", "/roms/zelda.sfc", ""]
    );
    assert_eq!(Nwa::info_strings(&emu, &rec(&[("name", "Zelda")])).unwrap_err(), Error::MissingField);
    assert_eq!(Nwa::info_strings(&rec(&[("name", "x")]), &game).unwrap_err(), Error::MissingField);
}

#[test]
fn read_reply_sizes() {
    assert_eq!(Nwa::read_reply_size(&CommandResponse::Binary(0)), Err(Error::InvalidReadSize));
    assert_eq!(Nwa::read_reply_size(&CommandResponse::Binary(5)), Ok(5));
    assert_eq!(Nwa::read_reply_size(&CommandResponse::Nothing), Err(Error::UnexpectedResponse));
    assert_eq!(Nwa::read_reply_size(&CommandResponse::Ascii(vec![])), Err(Error::UnexpectedResponse));
}

#[test]
fn enumerated_emulators() {
    let info = vec![rec(&[("name", "bsnes"), ("id", "1")])];
    match EmuNwaManager::enumerated(&info, 0xbeef) {
        Some(EmuInfo::EmuAdded { name, port, address }) => {
            assert_eq!(name, "bsnes (127.0.0.1:1)");
            assert_eq!(port, 48879);
            assert_eq!(address, "localhost:48879");
        },
        other => panic!("unexpected {:?}", other),
    }
    assert!(EmuNwaManager::enumerated(&vec![rec(&[("version", "1")])], 0xbeef).is_none());
}

#[test]
fn read_groups_alternate_domains_and_keep_every_access() {
    let l: Vec<AddressInfo> = [MemoryDomain::WRAM, MemoryDomain::WRAM, MemoryDomain::CARTRAM, MemoryDomain::CARTROM, MemoryDomain::CARTROM, MemoryDomain::WRAM]
        .iter()
        .enumerate()
        .map(|(i, d)| AddressInfo { domain: *d, address: i as i64, orig_address: 0, size: 1 })
        .collect();
    let g = Nwa::group_read_requests(&l);
    assert_eq!(g.len(), 4);
    for w in g.windows(2) {
        assert_ne!(w[0].0, w[1].0);
    }
    for (d, ops) in &g {
        assert_eq!(ops[0], Nwa::domain_to_str(d));
    }
    assert_eq!(g.iter().map(|(_, ops)| ops.len() - 1).sum::<usize>(), 2 * l.len());
}

#[test]
fn control_commands() {
    assert_eq!(Nwa::control_command(&Command::Boot("/roms/a.sfc".to_string())), Some("LOAD_GAME /roms/a.sfc\n".to_string()));
    assert_eq!(Nwa::control_command(&Command::Reset), Some("EMULATION_RESET\n".to_string()));
    assert_eq!(Nwa::control_command(&Command::Menu), None);
    assert_eq!(Nwa::control_command(&Command::Info), None);
}

#[test]
fn write_arguments() {
    let ai = AddressInfo { domain: MemoryDomain::CARTRAM, address: 0x10, orig_address: 0xE00010, size: 4 };
    assert_eq!(Nwa::write_args(&ai), vec!["SRAM", "16", "4"]);
}
