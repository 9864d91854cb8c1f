use ruccs::devices::lua::{hyphenated, Lua, LUA_PORT};
use ruccs::protocol::{AddressInfo, MemoryDomain};
use uuid::Uuid;

#[test]
fn lua_device_name() {
    let l = Lua::new(0, (), "127.0.0.1:50000".to_string());
    assert_eq!(l.name, "LuaDevice 00000000-0000-0000-0000-000000000000 :: 127.0.0.1:50000");
    let l = Lua::new(0xabcdef, (), "x".to_string());
    assert_eq!(l.name, "LuaDevice 00000000-0000-0000-0000-000000abcdef :: x");
    assert_eq!(LUA_PORT, 4141);
}

#[test]
fn different_ids_give_different_names() {
    let a = Lua::new(1, (), "p".to_string());
    let b = Lua::new(2, (), "p".to_string());
    assert_ne!(a.name, b.name);
}

#[test]
fn hyphenated_form_is_the_uuid_text() {
    for v in [0u128, 1, 0xabcdef, u128::MAX, 0x0123_4567_89ab_cdef_fedc_ba98_7654_3210] {
        assert_eq!(hyphenated(v), Uuid::from_u128(v).to_string());
    }
    let id = Uuid::new_v4();
    assert_eq!(hyphenated(id.as_u128()), id.to_string());
}

#[test]
fn lua_info_and_reads() {
    let l = Lua::new(0, (), "peer".to_string());
    assert_eq!(l.info_strings(), vec!["1.0", "0000", "n/a", l.name.as_str()]);
    let a = vec![
        AddressInfo { domain: MemoryDomain::WRAM, address: 0, orig_address: 0xF50000, size: 5 },
        AddressInfo { domain: MemoryDomain::WRAM, address: 0, orig_address: 0xF50000, size: 9 },
    ];
    assert_eq!(Lua::<()>::read_reply(&a), vec![0u8; 5]);
}
