use ruccs::devices::emunwa::EmuNwaManager;
use ruccs::devices::lua::LuaManager;
use ruccs::devices::manager::{EmuEvent, LuaEvent, ManagerAction, PortEvent, RaEvent, Registry, Slot};
use ruccs::devices::retroarch::RetroarchManager;
use ruccs::devices::sd2snes::SD2SnesManager;
use ruccs::devices::table::DeviceTable;
use std::collections::HashMap;
use uuid::Uuid;

fn slot(id: u128, name: &str) -> Slot<&'static str> {
    Slot { id: Uuid::from_u128(id), name: name.to_string(), handle: "handle" }
}

#[test]
fn emulator_manager_steps() {
    let mut t: HashMap<u16, Slot<&str>> = HashMap::new();
    let a = EmuNwaManager::step(&mut t, EmuEvent::Found { name: "bsnes".to_string(), port: 48879, address: "localhost:48879".to_string() });
    assert!(matches!(&a[..], [ManagerAction::Connect { name, port: 48879, address }] if name == "bsnes" && address == "localhost:48879"));
    assert!(t.is_empty());

    let a = EmuNwaManager::step(&mut t, EmuEvent::Started { port: 48879, slot: slot(1, "bsnes") });
    assert!(matches!(&a[..], [ManagerAction::Created(48879)]));
    assert!(t.contains_key(&48879));

    let a = EmuNwaManager::step(&mut t, EmuEvent::Closed { id: Uuid::from_u128(1), port: 48879 });
    assert!(matches!(&a[..], [ManagerAction::Removed(i), ManagerAction::Reconnect { name, key: 48879 }] if *i == Uuid::from_u128(1) && name == "bsnes"));
    assert!(t.contains_key(&48879));

    let a = EmuNwaManager::step(&mut t, EmuEvent::ReconnectFailed { port: 48879 });
    assert!(matches!(&a[..], [ManagerAction::Forget { name, key: 48879 }] if name == "bsnes"));
    assert!(!t.contains_key(&48879));

    let a = EmuNwaManager::step(&mut t, EmuEvent::Closed { id: Uuid::from_u128(1), port: 48879 });
    assert!(matches!(&a[..], [ManagerAction::Removed(_)]));
    assert!(EmuNwaManager::step(&mut t, EmuEvent::Lost { port: 48880 }).is_empty());

    EmuNwaManager::step(&mut t, EmuEvent::Started { port: 48880, slot: slot(2, "snes9x") });
    let a = EmuNwaManager::step(&mut t, EmuEvent::Lost { port: 48880 });
    assert!(matches!(&a[..], [ManagerAction::Removed(i), ManagerAction::Forget { name, key: 48880 }] if *i == Uuid::from_u128(2) && name == "snes9x"));
    assert!(matches!(&EmuNwaManager::step(&mut t, EmuEvent::Shutdown)[..], [ManagerAction::Stop]));
}

#[test]
fn retroarch_manager_steps() {
    let mut t: DeviceTable<String, Slot<&str>> = DeviceTable::new();
    let url = "127.0.0.1:55355".to_string();
    let a = RetroarchManager::step(&mut t, RaEvent::Started { url: url.clone(), slot: slot(1, "RetroArch") });
    assert!(matches!(&a[..], [ManagerAction::Created(u)] if *u == url));
    let a = RetroarchManager::step(&mut t, RaEvent::Closed { url: url.clone() });
    assert!(matches!(&a[..], [ManagerAction::Forget { name, key }, ManagerAction::Removed(_)] if name == "RetroArch" && *key == url));
    assert!(t.entries.is_empty());
    assert!(RetroarchManager::step(&mut t, RaEvent::Closed { url: url.clone() }).is_empty());

    RetroarchManager::step(&mut t, RaEvent::Started { url: url.clone(), slot: slot(2, "RetroArch") });
    let a = RetroarchManager::step(&mut t, RaEvent::Lost { url: url.clone() });
    assert!(matches!(&a[..], [ManagerAction::CloseDevice(i), ManagerAction::Removed(j)] if *i == Uuid::from_u128(2) && i == j));

    RetroarchManager::step(&mut t, RaEvent::Started { url: "a".to_string(), slot: slot(3, "A") });
    RetroarchManager::step(&mut t, RaEvent::Started { url: "b".to_string(), slot: slot(4, "B") });
    let a = RetroarchManager::step(&mut t, RaEvent::Shutdown);
    assert_eq!(a.len(), 5);
    assert!(matches!(&a[4], ManagerAction::Stop));
    assert!(t.entries.is_empty());
}

#[test]
fn cartridge_manager_steps() {
    let mut t: DeviceTable<String, Slot<&str>> = DeviceTable::new();
    SD2SnesManager::step(&mut t, PortEvent::Started { port_name: "COM3".to_string(), slot: slot(1, "SD2SNES COM3") });
    SD2SnesManager::step(&mut t, PortEvent::Started { port_name: "COM4".to_string(), slot: slot(2, "SD2SNES COM4") });
    let a = SD2SnesManager::step(&mut t, PortEvent::Shutdown);
    assert!(matches!(&a[..], [ManagerAction::CloseDevice(_), ManagerAction::Removed(_), ManagerAction::CloseDevice(_), ManagerAction::Removed(_)]));
    assert_eq!(t.entries.len(), 2);
    let a = SD2SnesManager::step(&mut t, PortEvent::Removed { port_name: "COM3".to_string() });
    assert!(matches!(&a[..], [ManagerAction::Removed(i)] if *i == Uuid::from_u128(1)));
    assert!(!t.contains(&"COM3".to_string()));
}

#[test]
fn lua_manager_steps() {
    use_lua();
}

fn use_lua() {
    let mut t: HashMap<u128, Slot<&str>> = HashMap::new();
    let a = LuaManager::step(&mut t, LuaEvent::Accepted { key: 1, slot: slot(1, "LuaDevice a") });
    assert!(matches!(&a[..], [ManagerAction::Created(1)]));
    LuaManager::step(&mut t, LuaEvent::Accepted { key: 2, slot: slot(2, "LuaDevice b") });
    let a = LuaManager::step(&mut t, LuaEvent::Shutdown);
    assert_eq!(a.len(), 4);
    let mut closed: Vec<Uuid> = a.iter().filter_map(|x| if let ManagerAction::CloseDevice(i) = x { Some(*i) } else { None }).collect();
    closed.sort();
    assert_eq!(closed, vec![Uuid::from_u128(1), Uuid::from_u128(2)]);
    assert!(matches!((&a[0], &a[1]), (ManagerAction::CloseDevice(i), ManagerAction::Removed(j)) if i == j));
    assert_eq!(t.len(), 2);
    let a = LuaManager::step(&mut t, LuaEvent::Closed { id: Uuid::from_u128(1), key: 1 });
    assert!(matches!(&a[..], [ManagerAction::Removed(i)] if *i == Uuid::from_u128(1)));
    assert!(!t.contains_key(&1));
}

#[test]
fn registry_lists_and_finds() {
    let mut r: Registry<&str> = Registry::new();
    r.insert(1, slot(1, "SD2SNES COM3"));
    r.insert(2, slot(2, "RetroArch 1.15.0 (127.0.0.1:55355)"));
    let mut names = r.names();
    names.sort();
    assert_eq!(names, vec!["RetroArch 1.15.0 (127.0.0.1:55355)", "SD2SNES COM3"]);
    assert_eq!(r.find("SD2SNES COM3").map(|s| s.id), Some(Uuid::from_u128(1)));
    assert!(r.find("nothing").is_none());
    assert_eq!(r.get(2).map(|s| s.name.as_str()), Some("RetroArch 1.15.0 (127.0.0.1:55355)"));
    r.remove(1);
    assert!(r.get(1).is_none());
    assert_eq!(r.names().len(), 1);
}
