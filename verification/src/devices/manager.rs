//! What the device managers decide on each event: how their tables change
//! and what they announce, ask or tell.
use vstd::prelude::*;

use crate::devices::emunwa::EmuNwaManager;
use crate::devices::lua::LuaManager;
use crate::devices::retroarch::RetroarchManager;
use crate::devices::sd2snes::SD2SnesManager;
use crate::devices::table::{DeviceTable, TableKey};
use vstd::std_specs::iter::IteratorSpec;
use std::collections::HashMap;
use crate::text::str_is;
use uuid::Uuid;

verus! {

/// A device in a manager's table: its id, its name, and the handle that
/// reaches it.
#[derive(Debug)]
pub struct Slot<V> {
    pub id: Uuid,
    pub name: String,
    pub handle: V,
}

/// What a manager does after an event.
pub enum ManagerAction<K> {
    /// Connect to the emulator found on `port` at `address`.
    Connect { name: String, port: u16, address: String },
    /// Announce the device now under `K`.
    Created(K),
    /// Announce that the device with this id is gone.
    Removed(Uuid),
    /// Ask the device with this id to close.
    CloseDevice(Uuid),
    /// Tell the enumerator to look for a device under `key` again.
    Forget { name: String, key: K },
    /// Connect again to the device that was under `key`.
    Reconnect { name: String, key: K },
    /// Stop the manager.
    Stop,
}

/// An action as values.
pub enum ActionModel<M> {
    Connect { name: Seq<char>, port: u16, address: Seq<char> },
    Created(M),
    Removed(Uuid),
    CloseDevice(Uuid),
    Forget { name: Seq<char>, key: M },
    Reconnect { name: Seq<char>, key: M },
    Stop,
}

/// An action as values.
pub open spec fn action_view<K: TableKey>(a: ManagerAction<K>) -> ActionModel<K::Model> {
    match a {
        ManagerAction::Connect { name, port, address } => ActionModel::Connect { name: name@, port, address: address@ },
        ManagerAction::Created(k) => ActionModel::Created(k.model()),
        ManagerAction::Removed(id) => ActionModel::Removed(id),
        ManagerAction::CloseDevice(id) => ActionModel::CloseDevice(id),
        ManagerAction::Forget { name, key } => ActionModel::Forget { name: name@, key: key.model() },
        ManagerAction::Reconnect { name, key } => ActionModel::Reconnect { name: name@, key: key.model() },
        ManagerAction::Stop => ActionModel::Stop,
    }
}

/// Actions as values.
pub open spec fn actions_view<K: TableKey>(v: Vec<ManagerAction<K>>) -> Seq<ActionModel<K::Model>> {
    v@.map_values(|a: ManagerAction<K>| action_view(a))
}

/// What happens to the emulator manager.
pub enum EmuEvent<V> {
    /// The enumerator found an emulator on `port`.
    Found { name: String, port: u16, address: String },
    /// The enumerator reports the emulator on `port` gone.
    Lost { port: u16 },
    /// A connection was made and its device started.
    Started { port: u16, slot: Slot<V> },
    /// The device with this id, on `port`, closed its connection.
    Closed { id: Uuid, port: u16 },
    /// Connecting again to `port` failed.
    ReconnectFailed { port: u16 },
    /// The manager is asked to close.
    Shutdown,
}

/// The emulator table after `ev`.
pub open spec fn spec_emu_next<V>(m: Map<u16, Slot<V>>, ev: EmuEvent<V>) -> Map<u16, Slot<V>> {
    match ev {
        EmuEvent::Lost { port } => m.remove(port),
        EmuEvent::Started { port, slot } => m.insert(port, slot),
        EmuEvent::ReconnectFailed { port } => m.remove(port),
        _ => m,
    }
}

/// What the emulator manager does on `ev`: it connects to what was found,
/// announces what starts, announces and forgets what is lost, announces a
/// closed device and connects again while its port is still managed, and
/// forgets a port that cannot be reached again.
pub open spec fn spec_emu_actions<V>(m: Map<u16, Slot<V>>, ev: EmuEvent<V>) -> Seq<ActionModel<u16>> {
    match ev {
        EmuEvent::Found { name, port, address } => seq![ActionModel::Connect { name: name@, port, address: address@ }],
        EmuEvent::Lost { port } => if m.contains_key(port) {
            seq![ActionModel::Removed(m[port].id), ActionModel::Forget { name: m[port].name@, key: port }]
        } else {
            Seq::empty()
        },
        EmuEvent::Started { port, slot } => seq![ActionModel::Created(port)],
        EmuEvent::Closed { id, port } => seq![ActionModel::Removed(id)] + if m.contains_key(port) {
            seq![ActionModel::Reconnect { name: m[port].name@, key: port }]
        } else {
            Seq::empty()
        },
        EmuEvent::ReconnectFailed { port } => if m.contains_key(port) {
            seq![ActionModel::Forget { name: m[port].name@, key: port }]
        } else {
            Seq::empty()
        },
        EmuEvent::Shutdown => seq![ActionModel::Stop],
    }
}

impl EmuNwaManager {
    /// Takes `event` into the table of emulators, keyed by port; returns
    /// what to do.
    pub fn step<V>(table: &mut HashMap<u16, Slot<V>>, event: EmuEvent<V>) -> (r: Vec<ManagerAction<u16>>)
        ensures
            final(table)@ == spec_emu_next(old(table)@, event),
            actions_view(r) == spec_emu_actions(old(table)@, event),
    {
        broadcast use vstd::std_specs::hash::group_hash_axioms;

        let mut out: Vec<ManagerAction<u16>> = Vec::new();
        match event {
            EmuEvent::Found { name, port, address } => {
                out.push(ManagerAction::Connect { name, port, address });
            },
            EmuEvent::Lost { port } => {
                if let Some(slot) = table.remove(&port) {
                    out.push(ManagerAction::Removed(slot.id));
                    out.push(ManagerAction::Forget { name: slot.name, key: port });
                }
            },
            EmuEvent::Started { port, slot } => {
                table.insert(port, slot);
                out.push(ManagerAction::Created(port));
            },
            EmuEvent::Closed { id, port } => {
                out.push(ManagerAction::Removed(id));
                if let Some(slot) = table.get(&port) {
                    out.push(ManagerAction::Reconnect { name: slot.name.clone(), key: port });
                }
            },
            EmuEvent::ReconnectFailed { port } => {
                if let Some(slot) = table.remove(&port) {
                    out.push(ManagerAction::Forget { name: slot.name, key: port });
                }
            },
            EmuEvent::Shutdown => {
                out.push(ManagerAction::Stop);
            },
        }
        assert(actions_view(out) =~= spec_emu_actions(old(table)@, event));
        out
    }
}


/// For each entry, in table order: close its device, then either have the
/// enumerator forget its key or announce the device removed.
pub open spec fn each_entry<V>(
    e: Seq<(String, Slot<V>)>,
    close_then_forget: bool,
) -> Seq<ActionModel<Seq<char>>>
    decreases e.len(),
{
    if e.len() == 0 {
        Seq::empty()
    } else {
        let (k, slot) = e.last();
        each_entry(e.drop_last(), close_then_forget) + if close_then_forget {
            seq![ActionModel::CloseDevice(slot.id), ActionModel::Forget { name: slot.name@, key: k@ }]
        } else {
            seq![ActionModel::CloseDevice(slot.id), ActionModel::Removed(slot.id)]
        }
    }
}

/// Pushes, for each entry of `table`, the actions of `each_entry`.
fn push_each_entry<V>(out: &mut Vec<ManagerAction<String>>, table: &DeviceTable<String, Slot<V>>, close_then_forget: bool)
    ensures
        actions_view(*final(out)) == actions_view(*old(out)) + each_entry(table.entries@, close_then_forget),
{
    let ghost start = actions_view(*out);
    let mut i: usize = 0;
    assert(table.entries@.take(0) =~= Seq::<(String, Slot<V>)>::empty());
    assert(actions_view(*out) =~= start + each_entry(table.entries@.take(0), close_then_forget));
    while i < table.entries.len()
        invariant
            i <= table.entries@.len(),
            actions_view(*out) == start + each_entry(table.entries@.take(i as int), close_then_forget),
        decreases table.entries.len() - i,
    {
        let ghost t = table.entries@.take(i + 1);
        assert(t.drop_last() =~= table.entries@.take(i as int));
        assert(t.last() == table.entries@[i as int]);
        let ghost before = actions_view(*out);
        let id = table.entries[i].1.id;
        out.push(ManagerAction::CloseDevice(id));
        let ghost mid = actions_view(*out);
        assert(mid =~= before.push(ActionModel::CloseDevice(id)));
        if close_then_forget {
            let name = table.entries[i].1.name.clone();
            let key = table.entries[i].0.clone();
            let a = ManagerAction::Forget { name, key };
            let ghost av = action_view(a);
            assert(av == ActionModel::Forget { name: table.entries@[i as int].1.name@, key: table.entries@[i as int].0@ });
            out.push(a);
            assert(actions_view(*out) =~= mid.push(av));
        } else {
            out.push(ManagerAction::Removed(id));
            assert(actions_view(*out) =~= mid.push(ActionModel::<Seq<char>>::Removed(id)));
        }
        let ghost slot = table.entries@[i as int].1;
        let ghost key = table.entries@[i as int].0;
        assert(each_entry(t, close_then_forget) == each_entry(table.entries@.take(i as int), close_then_forget) + if close_then_forget {
            seq![ActionModel::CloseDevice(slot.id), ActionModel::Forget { name: slot.name@, key: key@ }]
        } else {
            seq![ActionModel::CloseDevice(slot.id), ActionModel::Removed(slot.id)]
        });
        assert(actions_view(*out) =~= start + each_entry(t, close_then_forget));
        i = i + 1;
    }
    assert(table.entries@.take(i as int) =~= table.entries@);
}

/// What happens to the RetroArch manager.
pub enum RaEvent<V> {
    /// The device for the instance found at `url` started.
    Started { url: String, slot: Slot<V> },
    /// The enumerator reports the instance at `url` gone.
    Lost { url: String },
    /// The device at `url` closed its connection.
    Closed { url: String },
    /// The manager is asked to close.
    Shutdown,
}

/// The RetroArch table after `ev`.
pub open spec fn spec_ra_next<V>(m: Map<Seq<char>, Slot<V>>, ev: RaEvent<V>) -> Map<Seq<char>, Slot<V>> {
    match ev {
        RaEvent::Started { url, slot } => m.insert(url@, slot),
        RaEvent::Lost { url } => m.remove(url@),
        RaEvent::Closed { url } => m.remove(url@),
        RaEvent::Shutdown => Map::empty(),
    }
}

/// What the RetroArch manager does on `ev`: it announces what starts, closes
/// and announces what is lost, has the enumerator look again for what
/// closed and announces it, and on shutdown closes every device, has the
/// enumerator forget it, and stops.
pub open spec fn spec_ra_actions<V>(t: DeviceTable<String, Slot<V>>, ev: RaEvent<V>) -> Seq<ActionModel<Seq<char>>> {
    let m = t.model();
    match ev {
        RaEvent::Started { url, slot } => seq![ActionModel::Created(url@)],
        RaEvent::Lost { url } => seq![ActionModel::CloseDevice(m[url@].id), ActionModel::Removed(m[url@].id)],
        RaEvent::Closed { url } => if m.contains_key(url@) {
            seq![ActionModel::Forget { name: m[url@].name@, key: url@ }, ActionModel::Removed(m[url@].id)]
        } else {
            Seq::empty()
        },
        RaEvent::Shutdown => each_entry(t.entries@, true).push(ActionModel::Stop),
    }
}

impl RetroarchManager {
    /// Takes `event` into the table of instances; returns what to do. An
    /// instance reported lost is one in the table.
    pub fn step<V>(table: &mut DeviceTable<String, Slot<V>>, event: RaEvent<V>) -> (r: Vec<ManagerAction<String>>)
        requires
            old(table).wf(),
            event matches RaEvent::Lost { url } ==> old(table).model().contains_key(url@),
        ensures
            final(table).wf(),
            final(table).model() == spec_ra_next(old(table).model(), event),
            actions_view(r) == spec_ra_actions(*old(table), event),
    {
        let mut out: Vec<ManagerAction<String>> = Vec::new();
        match event {
            RaEvent::Started { url, slot } => {
                let key = url.clone();
                table.insert(url, slot);
                out.push(ManagerAction::Created(key));
            },
            RaEvent::Lost { url } => {
                if let Some(slot) = table.remove(&url) {
                    out.push(ManagerAction::CloseDevice(slot.id));
                    out.push(ManagerAction::Removed(slot.id));
                }
            },
            RaEvent::Closed { url } => {
                if let Some(slot) = table.remove(&url) {
                    out.push(ManagerAction::Forget { name: slot.name, key: url });
                    out.push(ManagerAction::Removed(slot.id));
                }
            },
            RaEvent::Shutdown => {
                push_each_entry(&mut out, table, true);
                table.clear();
                out.push(ManagerAction::Stop);
            },
        }
        assert(actions_view(out) =~= spec_ra_actions(*old(table), event));
        out
    }
}

/// What happens to the cartridge manager.
pub enum PortEvent<V> {
    /// The device for the cartridge on `port_name` started.
    Started { port_name: String, slot: Slot<V> },
    /// The port is gone, or its device closed.
    Removed { port_name: String },
    /// The manager is asked to close.
    Shutdown,
}

/// The cartridge table after `ev`.
pub open spec fn spec_port_next<V>(m: Map<Seq<char>, Slot<V>>, ev: PortEvent<V>) -> Map<Seq<char>, Slot<V>> {
    match ev {
        PortEvent::Started { port_name, slot } => m.insert(port_name@, slot),
        PortEvent::Removed { port_name } => m.remove(port_name@),
        PortEvent::Shutdown => m,
    }
}

/// What the cartridge manager does on `ev`: it announces what starts and
/// what is removed, and on shutdown closes and announces every device.
pub open spec fn spec_port_actions<V>(t: DeviceTable<String, Slot<V>>, ev: PortEvent<V>) -> Seq<ActionModel<Seq<char>>> {
    match ev {
        PortEvent::Started { port_name, slot } => seq![ActionModel::Created(port_name@)],
        PortEvent::Removed { port_name } => seq![ActionModel::Removed(t.model()[port_name@].id)],
        PortEvent::Shutdown => each_entry(t.entries@, false),
    }
}

impl SD2SnesManager {
    /// Takes `event` into the table of cartridges; returns what to do. A
    /// port reported removed is one in the table.
    pub fn step<V>(table: &mut DeviceTable<String, Slot<V>>, event: PortEvent<V>) -> (r: Vec<ManagerAction<String>>)
        requires
            old(table).wf(),
            event matches PortEvent::Removed { port_name } ==> old(table).model().contains_key(port_name@),
        ensures
            final(table).wf(),
            final(table).model() == spec_port_next(old(table).model(), event),
            actions_view(r) == spec_port_actions(*old(table), event),
    {
        let mut out: Vec<ManagerAction<String>> = Vec::new();
        match event {
            PortEvent::Started { port_name, slot } => {
                let key = port_name.clone();
                table.insert(port_name, slot);
                out.push(ManagerAction::Created(key));
            },
            PortEvent::Removed { port_name } => {
                if let Some(slot) = table.remove(&port_name) {
                    out.push(ManagerAction::Removed(slot.id));
                }
            },
            PortEvent::Shutdown => {
                push_each_entry(&mut out, table, false);
            },
        }
        assert(actions_view(out) =~= spec_port_actions(*old(table), event));
        out
    }
}


/// For each key of `ks`, in order: close the device under it, then announce
/// it removed.
pub open spec fn close_each<V>(ks: Seq<u128>, m: Map<u128, Slot<V>>) -> Seq<ActionModel<u128>>
    decreases ks.len(),
{
    if ks.len() == 0 {
        Seq::empty()
    } else {
        close_each(ks.drop_last(), m) + seq![ActionModel::CloseDevice(m[ks.last()].id), ActionModel::Removed(m[ks.last()].id)]
    }
}

/// What happens to the Lua manager.
pub enum LuaEvent<V> {
    /// A script connected and its device started, under `key`.
    Accepted { key: u128, slot: Slot<V> },
    /// The device with this id, under `key`, closed its connection.
    Closed { id: Uuid, key: u128 },
    /// The manager is asked to close its devices.
    Shutdown,
}

/// The Lua table after `ev`.
pub open spec fn spec_lua_next<V>(m: Map<u128, Slot<V>>, ev: LuaEvent<V>) -> Map<u128, Slot<V>> {
    match ev {
        LuaEvent::Accepted { key, slot } => m.insert(key, slot),
        LuaEvent::Closed { id, key } => m.remove(key),
        LuaEvent::Shutdown => m,
    }
}

impl LuaManager {
    /// Takes `event` into the table of Lua devices; returns what to do: a
    /// new device is announced, a closed one announced removed, and on
    /// shutdown every device is closed and announced removed, in the order
    /// in which the table hands out its keys.
    pub fn step<V>(table: &mut HashMap<u128, Slot<V>>, event: LuaEvent<V>) -> (r: Vec<ManagerAction<u128>>)
        ensures
            final(table)@ == spec_lua_next(old(table)@, event),
            match event {
                LuaEvent::Accepted { key, slot } => actions_view(r) == seq![ActionModel::Created(key)],
                LuaEvent::Closed { id, key } => actions_view(r) == seq![ActionModel::<u128>::Removed(id)],
                LuaEvent::Shutdown => exists|ks: Seq<u128>|
                    ks.no_duplicates() && ks.to_set() == old(table)@.dom() && actions_view(r) == #[trigger] close_each(ks, old(table)@),
            },
    {
        broadcast use vstd::std_specs::hash::group_hash_axioms;

        let mut out: Vec<ManagerAction<u128>> = Vec::new();
        match event {
            LuaEvent::Accepted { key, slot } => {
                table.insert(key, slot);
                out.push(ManagerAction::Created(key));
                assert(actions_view(out) =~= seq![ActionModel::Created(key)]);
            },
            LuaEvent::Closed { id, key } => {
                out.push(ManagerAction::Removed(id));
                let _ = table.remove(&key);
                assert(actions_view(out) =~= seq![ActionModel::<u128>::Removed(id)]);
            },
            LuaEvent::Shutdown => {
                let ghost m = table@;
                let keys = table.keys();
                let ghost ks = keys.remaining().unref();
                assert(ks.to_set() == m.dom());
                assert(out@ =~= Seq::<ManagerAction<u128>>::empty());
                assert(actions_view(out) =~= close_each(ks.take(0), m));
                for k in it: keys
                    invariant
                        m == table@,
                        ks == it.seq().unref(),
                        ks.to_set() == m.dom(),
                        actions_view(out) == close_each(ks.take(it.index()), m),
                {
                    assert(ks[it.index()] == *k);
                    assert(ks.to_set().contains(*k));
                    let slot = table.get(k).unwrap();
                    let ghost t = ks.take(it.index() + 1);
                    assert(t.drop_last() =~= ks.take(it.index()));
                    let ghost before = actions_view(out);
                    out.push(ManagerAction::CloseDevice(slot.id));
                    out.push(ManagerAction::Removed(slot.id));
                    assert(actions_view(out) =~= before + seq![ActionModel::CloseDevice(m[*k].id), ActionModel::Removed(m[*k].id)]);
                }
                assert(ks.take(ks.len() as int) =~= ks);
                assert(ks.no_duplicates());
            },
        }
        out
    }
}


/// The names of the devices under the keys `ks`, in order.
pub open spec fn names_of<V>(ks: Seq<u128>, m: Map<u128, Slot<V>>) -> Seq<Seq<char>> {
    ks.map_values(|k: u128| m[k].name@)
}

/// The devices that clients can reach, each under its id as a number.
#[derive(Debug)]
pub struct Registry<V> {
    pub devices: HashMap<u128, Slot<V>>,
}

impl<V> Registry<V> {
    /// An empty registry.
    pub fn new() -> (r: Self)
        ensures
            r.devices@ == Map::<u128, Slot<V>>::empty(),
    {
        broadcast use vstd::std_specs::hash::group_hash_axioms;

        Registry { devices: HashMap::new() }
    }

    /// Enters a device under `key`, in place of what was there.
    pub fn insert(&mut self, key: u128, slot: Slot<V>)
        ensures
            final(self).devices@ == old(self).devices@.insert(key, slot),
    {
        broadcast use vstd::std_specs::hash::group_hash_axioms;

        self.devices.insert(key, slot);
    }

    /// Takes the device under `key` out, if there is one.
    pub fn remove(&mut self, key: u128)
        ensures
            final(self).devices@ == old(self).devices@.remove(key),
    {
        broadcast use vstd::std_specs::hash::group_hash_axioms;

        let _ = self.devices.remove(&key);
    }

    /// The device under `key`, if any.
    pub fn get(&self, key: u128) -> (r: Option<&Slot<V>>)
        ensures
            match r {
                Some(s) => self.devices@.contains_key(key) && self.devices@[key] == *s,
                None => !self.devices@.contains_key(key),
            },
    {
        broadcast use vstd::std_specs::hash::group_hash_axioms;

        self.devices.get(&key)
    }

    /// The names of all devices, one for each, in the order in which the
    /// table hands out its keys.
    pub fn names(&self) -> (r: Vec<String>)
        ensures
            exists|ks: Seq<u128>|
                ks.no_duplicates() && ks.to_set() == self.devices@.dom() && r@.map_values(|s: String| s@) == #[trigger] names_of(
                    ks,
                    self.devices@,
                ),
    {
        broadcast use vstd::std_specs::hash::group_hash_axioms;

        let ghost m = self.devices@;
        let mut out: Vec<String> = Vec::new();
        let keys = self.devices.keys();
        let ghost ks = keys.remaining().unref();
        assert(ks.to_set() == m.dom());
        assert(out@.map_values(|s: String| s@) =~= ks.take(0).map_values(|k: u128| m[k].name@));
        for k in it: keys
            invariant
                m == self.devices@,
                ks == it.seq().unref(),
                ks.to_set() == m.dom(),
                out@.map_values(|s: String| s@) == ks.take(it.index()).map_values(|k: u128| m[k].name@),
        {
            assert(ks[it.index()] == *k);
            assert(ks.to_set().contains(*k));
            let slot = self.devices.get(k).unwrap();
            let ghost before = out@.map_values(|s: String| s@);
            out.push(slot.name.clone());
            assert(out@.map_values(|s: String| s@) =~= before.push(m[*k].name@));
            assert(ks.take(it.index() + 1).map_values(|k: u128| m[k].name@) =~= ks.take(it.index()).map_values(
                |k: u128| m[k].name@,
            ).push(m[*k].name@));
        }
        assert(ks.take(ks.len() as int) =~= ks);
        assert(ks.no_duplicates());
        assert(out@.map_values(|s: String| s@) == names_of(ks, m));
        out
    }

    /// A device with the name `name`, if there is one.
    pub fn find(&self, name: &str) -> (r: Option<&Slot<V>>)
        ensures
            match r {
                Some(s) => s.name@ == name@ && exists|k: u128| self.devices@.contains_key(k) && self.devices@[k] == *s,
                None => forall|k: u128| #[trigger] self.devices@.contains_key(k) ==> self.devices@[k].name@ != name@,
            },
    {
        broadcast use vstd::std_specs::hash::group_hash_axioms;

        let ghost m = self.devices@;
        let keys = self.devices.keys();
        let ghost ks = keys.remaining().unref();
        assert(ks.to_set() == m.dom());
        for k in it: keys
            invariant
                m == self.devices@,
                ks == it.seq().unref(),
                ks.to_set() == m.dom(),
                forall|j: int| 0 <= j < it.index() ==> m[#[trigger] ks[j]].name@ != name@,
        {
            assert(ks[it.index()] == *k);
            assert(ks.to_set().contains(*k));
            let slot = self.devices.get(k).unwrap();
            if str_is(slot.name.as_str(), name) {
                return Some(slot);
            }
        }
        assert forall|k: u128| #[trigger] m.contains_key(k) implies m[k].name@ != name@ by {
            assert(ks.to_set().contains(k));
            let j = choose|j: int| 0 <= j < ks.len() && ks[j] == k;
        }
        None
    }
}

/// On shutdown every entry of the table is handled once, in table order,
/// with two actions: first its device is asked to close, then the
/// enumerator forgets its key or the device is announced removed.
pub proof fn lemma_each_entry_closes<V>(e: Seq<(String, Slot<V>)>, close_then_forget: bool)
    ensures
        each_entry(e, close_then_forget).len() == 2 * e.len(),
        forall|i: int| 0 <= i < e.len() ==> {
            &&& #[trigger] each_entry(e, close_then_forget)[2 * i] == ActionModel::<Seq<char>>::CloseDevice(e[i].1.id)
            &&& each_entry(e, close_then_forget)[2 * i + 1] == if close_then_forget {
                ActionModel::Forget { name: e[i].1.name@, key: e[i].0@ }
            } else {
                ActionModel::<Seq<char>>::Removed(e[i].1.id)
            }
        },
    decreases e.len(),
{
    if e.len() > 0 {
        let init = e.drop_last();
        lemma_each_entry_closes(init, close_then_forget);
        assert forall|i: int| 0 <= i < e.len() implies {
            &&& #[trigger] each_entry(e, close_then_forget)[2 * i] == ActionModel::<Seq<char>>::CloseDevice(e[i].1.id)
            &&& each_entry(e, close_then_forget)[2 * i + 1] == if close_then_forget {
                ActionModel::Forget { name: e[i].1.name@, key: e[i].0@ }
            } else {
                ActionModel::<Seq<char>>::Removed(e[i].1.id)
            }
        } by {
            if i < init.len() {
                assert(init[i] == e[i]);
                assert(each_entry(init, close_then_forget)[2 * i] == ActionModel::<Seq<char>>::CloseDevice(init[i].1.id));
            }
        }
    }
}

/// On shutdown the Lua manager handles each key once, in the order given:
/// the device under it is asked to close, then announced removed.
pub proof fn lemma_close_each_closes<V>(ks: Seq<u128>, m: Map<u128, Slot<V>>)
    ensures
        close_each(ks, m).len() == 2 * ks.len(),
        forall|i: int| 0 <= i < ks.len() ==> {
            &&& #[trigger] close_each(ks, m)[2 * i] == ActionModel::<u128>::CloseDevice(m[ks[i]].id)
            &&& close_each(ks, m)[2 * i + 1] == ActionModel::<u128>::Removed(m[ks[i]].id)
        },
    decreases ks.len(),
{
    if ks.len() > 0 {
        let init = ks.drop_last();
        lemma_close_each_closes(init, m);
        assert forall|i: int| 0 <= i < ks.len() implies {
            &&& #[trigger] close_each(ks, m)[2 * i] == ActionModel::<u128>::CloseDevice(m[ks[i]].id)
            &&& close_each(ks, m)[2 * i + 1] == ActionModel::<u128>::Removed(m[ks[i]].id)
        } by {
            if i < init.len() {
                assert(init[i] == ks[i]);
                assert(close_each(init, m)[2 * i] == ActionModel::<u128>::CloseDevice(m[init[i]].id));
            }
        }
    }
}

/// An emulator that starts is announced and kept under its port; when it is
/// then lost, the table is as if it had never been there and its device is
/// announced removed and forgotten; when its connection closes instead, it
/// stays and a new connection is asked for; when that fails, it is gone.
pub proof fn lemma_emu_lifecycle<V>(m: Map<u16, Slot<V>>, port: u16, slot: Slot<V>, id: Uuid)
    ensures
        spec_emu_actions(m, EmuEvent::Started { port, slot }) == seq![ActionModel::Created(port)],
        ({
            let m1 = spec_emu_next(m, EmuEvent::Started { port, slot });
            &&& m1.contains_key(port) && m1[port] == slot
            &&& spec_emu_next(m1, EmuEvent::Lost { port }) == m.remove(port)
            &&& spec_emu_actions(m1, EmuEvent::Lost { port })
                == seq![ActionModel::Removed(slot.id), ActionModel::Forget { name: slot.name@, key: port }]
            &&& spec_emu_next(m1, EmuEvent::Closed { id, port }) == m1
            &&& spec_emu_actions(m1, EmuEvent::Closed { id, port })
                == seq![ActionModel::Removed(id), ActionModel::Reconnect { name: slot.name@, key: port }]
            &&& spec_emu_next(m1, EmuEvent::ReconnectFailed { port }) == m.remove(port)
        }),
{
    let m1 = m.insert(port, slot);
    assert(m1.remove(port) =~= m.remove(port));
    assert(seq![ActionModel::Removed(id)] + seq![ActionModel::Reconnect { name: slot.name@, key: port }]
        =~= seq![ActionModel::Removed(id), ActionModel::Reconnect { name: slot.name@, key: port }]);
}

/// A RetroArch instance that starts is announced and kept under its URL;
/// when it is then lost, or its connection closes, the table is as if it
/// had never been there: a lost one is asked to close, a closed one is
/// looked for again, and either is announced removed.
pub proof fn lemma_ra_lifecycle<V>(t: DeviceTable<String, Slot<V>>, t1: DeviceTable<String, Slot<V>>, url: String, slot: Slot<V>)
    requires
        t1.model() == spec_ra_next(t.model(), RaEvent::Started { url, slot }),
    ensures
        spec_ra_actions(t, RaEvent::Started { url, slot }) == seq![ActionModel::Created(url@)],
        t1.model().contains_key(url@) && t1.model()[url@] == slot,
        spec_ra_next(t1.model(), RaEvent::Lost { url }) == t.model().remove(url@),
        spec_ra_actions(t1, RaEvent::Lost { url }) == seq![ActionModel::CloseDevice(slot.id), ActionModel::<Seq<char>>::Removed(slot.id)],
        spec_ra_next(t1.model(), RaEvent::Closed { url }) == t.model().remove(url@),
        spec_ra_actions(t1, RaEvent::Closed { url })
            == seq![ActionModel::Forget { name: slot.name@, key: url@ }, ActionModel::<Seq<char>>::Removed(slot.id)],
{
    assert(t1.model().remove(url@) =~= t.model().remove(url@));
}

/// A cartridge whose device starts is announced and kept under its port;
/// when the port then goes, the table is as if it had never been there and
/// the device is announced removed.
pub proof fn lemma_port_lifecycle<V>(t: DeviceTable<String, Slot<V>>, t1: DeviceTable<String, Slot<V>>, port_name: String, slot: Slot<V>)
    requires
        t1.model() == spec_port_next(t.model(), PortEvent::Started { port_name, slot }),
    ensures
        spec_port_actions(t, PortEvent::Started { port_name, slot }) == seq![ActionModel::Created(port_name@)],
        t1.model().contains_key(port_name@) && t1.model()[port_name@] == slot,
        spec_port_next(t1.model(), PortEvent::Removed { port_name }) == t.model().remove(port_name@),
        spec_port_actions(t1, PortEvent::Removed { port_name }) == seq![ActionModel::<Seq<char>>::Removed(slot.id)],
{
    assert(t1.model().remove(port_name@) =~= t.model().remove(port_name@));
}

/// A Lua script that connects is kept under its key; when its connection
/// closes, the table is as if it had never been there.
pub proof fn lemma_lua_lifecycle<V>(m: Map<u128, Slot<V>>, key: u128, slot: Slot<V>, id: Uuid)
    ensures
        spec_lua_next(m, LuaEvent::Accepted { key, slot }).contains_key(key),
        spec_lua_next(m, LuaEvent::Accepted { key, slot })[key] == slot,
        spec_lua_next(spec_lua_next(m, LuaEvent::Accepted { key, slot }), LuaEvent::Closed { id, key }) == m.remove(key),
{
    assert(m.insert(key, slot).remove(key) =~= m.remove(key));
}

} // verus!
