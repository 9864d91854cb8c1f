//! What the websocket server decides for each client: where a request goes
//! and what state the connection is in.
use vstd::prelude::*;

use crate::error::Error;
use crate::protocol::{Command, CommandModel};
use uuid::Uuid;

verus! {

/// Where a client connection stands.
#[derive(Debug, Clone, Copy, PartialEq, Eq, Structural)]
pub enum ClientState {
    /// Waiting for a request.
    Ready,
    /// A request is being handled.
    Busy,
    /// Binary data still to come from the client, this many bytes.
    SendingData(usize),
}

/// Where a request goes.
pub enum Route {
    /// The server answers with the names of the devices.
    DeviceList,
    /// The client attaches to the device of this name.
    Attach(String),
    /// The client takes this name.
    Name(String),
    /// The request goes to the attached device.
    Device(Uuid),
    /// Nothing is done and nothing is answered.
    Ignore,
}

/// The kind of route of a command, for a client attached to `attached`.
pub enum RouteModel {
    DeviceList,
    Attach(Seq<char>),
    Name(Seq<char>),
    Device(Uuid),
    Ignore,
}

impl View for Route {
    type V = RouteModel;

    open spec fn view(&self) -> RouteModel {
        match self {
            Route::DeviceList => RouteModel::DeviceList,
            Route::Attach(s) => RouteModel::Attach(s@),
            Route::Name(s) => RouteModel::Name(s@),
            Route::Device(id) => RouteModel::Device(*id),
            Route::Ignore => RouteModel::Ignore,
        }
    }
}

/// The server's own commands are answered by it, whatever the client is
/// attached to; any other command goes to the attached device, if any.
pub open spec fn spec_route(c: CommandModel, attached: Option<Uuid>) -> RouteModel {
    match c {
        CommandModel::DeviceList => RouteModel::DeviceList,
        CommandModel::Attach(name) => RouteModel::Attach(name),
        CommandModel::Name(name) => RouteModel::Name(name),
        _ => match attached {
            Some(id) => RouteModel::Device(id),
            None => RouteModel::Ignore,
        },
    }
}

/// The server answers its own commands (the device list, attaching and
/// naming) whatever the client is attached to. Every other command goes to
/// the attached device, and only to it; it is dropped only when the client
/// is attached to nothing.
pub proof fn lemma_route_targets(c: CommandModel, attached: Option<Uuid>)
    ensures
        c is DeviceList ==> spec_route(c, attached) == RouteModel::DeviceList,
        c matches CommandModel::Attach(n) ==> spec_route(c, attached) == RouteModel::Attach(n),
        c matches CommandModel::Name(n) ==> spec_route(c, attached) == RouteModel::Name(n),
        !(c is DeviceList || c is Attach || c is Name) ==> match attached {
            Some(id) => spec_route(c, attached) == RouteModel::Device(id),
            None => spec_route(c, attached) == RouteModel::Ignore,
        },
        spec_route(c, attached) matches RouteModel::Device(id) ==> attached == Some(id),
        spec_route(c, attached) is Ignore <==> (attached is None && !(c is DeviceList || c is Attach || c is Name)),
{
}

/// A websocket client.
pub struct Client {
    pub name: String,
    pub state: ClientState,
    pub device_id: Option<Uuid>,
}

impl Client {
    /// A fresh client, ready and attached to nothing.
    pub fn new(name: String) -> (r: Client)
        ensures
            r.name == name,
            r.state == ClientState::Ready,
            r.device_id is None,
    {
        Client { name, state: ClientState::Ready, device_id: None }
    }

    /// Where `command` goes; the client is busy from now on.
    pub fn route(&mut self, command: &Command) -> (r: Route)
        ensures
            r@ == spec_route(command@, old(self).device_id),
            final(self).state == ClientState::Busy,
            final(self).name == old(self).name,
            final(self).device_id == old(self).device_id,
    {
        self.state = ClientState::Busy;
        match command {
            Command::DeviceList => Route::DeviceList,
            Command::Attach(name) => Route::Attach(name.clone()),
            Command::Name(name) => Route::Name(name.clone()),
            _ => match self.device_id {
                Some(id) => Route::Device(id),
                None => Route::Ignore,
            },
        }
    }

    /// Attaches to the device found by name, if one was.
    pub fn attach(&mut self, found: Option<Uuid>) -> (r: Result<(), Error>)
        ensures
            match found {
                Some(id) => r is Ok && final(self).device_id == Some(id),
                None => r == Err::<(), Error>(Error::InvalidDeviceName) && final(self).device_id == old(self).device_id,
            },
            final(self).name == old(self).name,
            final(self).state == old(self).state,
    {
        match found {
            Some(id) => {
                self.device_id = Some(id);
                Ok(())
            },
            None => Err(Error::InvalidDeviceName),
        }
    }

    /// Takes a new name.
    pub fn rename(&mut self, name: String)
        ensures
            final(self).name == name,
            final(self).state == old(self).state,
            final(self).device_id == old(self).device_id,
    {
        self.name = name;
    }

    /// A request is done; the client is ready, or waits for `expected`
    /// bytes of binary data for the device.
    pub fn finish(&mut self, expected: Option<usize>)
        ensures
            final(self).state == match expected {
                Some(n) => ClientState::SendingData(n),
                None => ClientState::Ready,
            },
            final(self).name == old(self).name,
            final(self).device_id == old(self).device_id,
    {
        self.state = match expected {
            Some(n) => ClientState::SendingData(n),
            None => ClientState::Ready,
        };
    }

    /// Binary data of `len` bytes arrived. Returns whether it goes to the
    /// device: only while data is expected, and then what is expected shrinks
    /// by `len`, the client being ready when nothing is left. More data than
    /// expected is not taken.
    pub fn on_binary(&mut self, len: usize) -> (r: bool)
        requires
            old(self).state matches ClientState::SendingData(rem) ==> len <= rem,
        ensures
            r == old(self).state is SendingData,
            final(self).state == spec_on_binary(old(self).state, len),
            final(self).name == old(self).name,
            final(self).device_id == old(self).device_id,
    {
        match self.state {
            ClientState::SendingData(remaining) => {
                let left = remaining - len;
                self.state = if left > 0 { ClientState::SendingData(left) } else { ClientState::Ready };
                true
            },
            _ => false,
        }
    }
}

/// The state after `len` bytes of binary data arrive in state `st`.
pub open spec fn spec_on_binary(st: ClientState, len: usize) -> ClientState {
    match st {
        ClientState::SendingData(rem) => if rem - len > 0 {
            ClientState::SendingData((rem - len) as usize)
        } else {
            ClientState::Ready
        },
        _ => st,
    }
}

/// The state after messages of the given lengths arrive, one after another.
pub open spec fn after_messages(st: ClientState, lens: Seq<usize>) -> ClientState
    decreases lens.len(),
{
    if lens.len() == 0 {
        st
    } else {
        spec_on_binary(after_messages(st, lens.drop_last()), lens.last())
    }
}

/// The lengths added.
pub open spec fn total_len(lens: Seq<usize>) -> int
    decreases lens.len(),
{
    if lens.len() == 0 { 0 } else { total_len(lens.drop_last()) + lens.last() }
}

/// However the announced bytes are cut into messages, the client waits for
/// what is still missing and is ready again once all of it has arrived.
pub proof fn lemma_sending_counts_down(rem: usize, lens: Seq<usize>)
    requires
        rem > 0,
        total_len(lens) <= rem,
    ensures
        after_messages(ClientState::SendingData(rem), lens)
            == if total_len(lens) < rem { ClientState::SendingData((rem - total_len(lens)) as usize) } else { ClientState::Ready },
    decreases lens.len(),
{
    lemma_total_nonneg(lens);
    if lens.len() > 0 {
        lemma_total_nonneg(lens.drop_last());
        lemma_sending_counts_down(rem, lens.drop_last());
    }
}

proof fn lemma_total_nonneg(lens: Seq<usize>)
    ensures
        total_len(lens) >= 0,
    decreases lens.len(),
{
    if lens.len() > 0 {
        lemma_total_nonneg(lens.drop_last());
    }
}

} // verus!
